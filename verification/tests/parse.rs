use unidiff::{Error, Hunk, Line, LineType, PatchSet, PatchedFile};

fn sample_added_file_diff() -> &'static str {
    "diff --git a/added_file b/added_file\n\
     new file mode 100644\n\
     index 0000000..9b710f3\n\
     --- /dev/null\n\
     +++ b/added_file\n\
     @@ -0,0 +1,4 @@\n\
     +This was missing!\n\
     +Adding it now.\n\
     +\n\
     +Only for testing purposes."
}

#[test]
fn end_to_end_added_file() {
    let mut patch = PatchSet::new();
    patch.parse(sample_added_file_diff()).expect("parse failed");
    assert_eq!(patch.len(), 1);
    let file = patch.get(0).unwrap();
    assert_eq!(file.len(), 1);
    assert_eq!(file.added(), 4);
    assert_eq!(file.removed(), 0);
    assert!(file.is_added_file());
    assert!(!file.is_removed_file());
    assert!(!file.is_modified_file());
    assert_eq!(file.path(), "added_file");
    assert_eq!(file.source_file, "/dev/null");
    assert_eq!(file.target_file, "b/added_file");
}

#[test]
fn added_file_iff_single_hunk() {
    // one hunk declaring -0,0: an added file
    let mut patch = PatchSet::new();
    patch
        .parse("--- /dev/null\n+++ b/f\n@@ -0,0 +1,1 @@\n+x\n")
        .unwrap();
    assert!(patch.get(0).unwrap().is_added_file());

    // the same hunk twice: no longer an added file
    let mut patch2 = PatchSet::new();
    patch2
        .parse("--- /dev/null\n+++ b/f\n@@ -0,0 +1,1 @@\n+x\n@@ -0,0 +1,1 @@\n+y\n")
        .unwrap();
    let file = &patch2.files()[0];
    assert_eq!(file.len(), 2);
    assert!(!file.is_added_file());
    assert!(file.is_modified_file());
}

#[test]
fn removed_file_iff_single_hunk() {
    let mut patch = PatchSet::new();
    patch
        .parse("--- a/f\n+++ /dev/null\n@@ -1,1 +0,0 @@\n-x\n")
        .unwrap();
    assert!(patch.get(0).unwrap().is_removed_file());
    assert!(!patch.get(0).unwrap().is_added_file());

    let mut patch2 = PatchSet::new();
    patch2
        .parse("--- a/f\n+++ /dev/null\n@@ -1,1 +0,0 @@\n-x\n@@ -1,1 +0,0 @@\n-y\n")
        .unwrap();
    let file = &patch2.files()[0];
    assert_eq!(file.len(), 2);
    assert!(!file.is_removed_file());
    assert!(file.is_modified_file());
}

#[test]
fn hunk_line_numbers() {
    let mut patch = PatchSet::new();
    patch
        .parse("--- a/f\n+++ b/f\n@@ -1,3 +1,4 @@\n a\n-b\n+c\n+d\n e\n")
        .unwrap();
    let file = patch.get(0).unwrap();
    assert_eq!(file.added(), 2);
    assert_eq!(file.removed(), 1);
    let hunk = file.get(0).unwrap();
    assert_eq!(hunk.len(), 5);
    let expect = [
        (Some(1), Some(1), LineType::Context, "a"),
        (Some(2), None, LineType::Removed, "b"),
        (None, Some(2), LineType::Added, "c"),
        (None, Some(3), LineType::Added, "d"),
        (Some(3), Some(4), LineType::Context, "e"),
    ];
    for (i, (src, tgt, ty, val)) in expect.iter().enumerate() {
        let line = hunk.get(i).unwrap();
        assert_eq!(line.source_line_no, *src);
        assert_eq!(line.target_line_no, *tgt);
        assert_eq!(line.line_type, *ty);
        assert_eq!(line.value, *val);
    }
    // positions within the raw diff text are one-based
    assert_eq!(hunk.get(0).unwrap().diff_line_no, 4);
    assert_eq!(hunk.get(4).unwrap().diff_line_no, 8);
}

#[test]
fn path_precedence() {
    let f = PatchedFile::new("a/foo.txt", "b/foo.txt");
    assert_eq!(f.path(), "foo.txt");
    let f = PatchedFile::new("a/foo.txt", "/dev/null");
    assert_eq!(f.path(), "foo.txt");
    let f = PatchedFile::new("/dev/null", "b/foo.txt");
    assert_eq!(f.path(), "foo.txt");
    let f = PatchedFile::new("foo.txt", "bar.txt");
    assert_eq!(f.path(), "foo.txt");
}

#[test]
fn unexpected_hunk() {
    let mut patch = PatchSet::new();
    let err = patch.parse("@@ -1,2 +1,2 @@\n a\n b\n").unwrap_err();
    assert!(matches!(err, Error::UnexpectedHunk(_)));
}

#[test]
fn target_without_source() {
    let mut patch = PatchSet::new();
    let err = patch
        .parse("--- a/f\n+++ b/f\n+++ b/g\n")
        .unwrap_err();
    assert!(matches!(err, Error::TargetWithoutSource(_)));
}

#[test]
fn target_before_any_source() {
    let mut patch = PatchSet::new();
    let err = patch.parse("+++ b/g\n").unwrap_err();
    assert!(matches!(err, Error::TargetWithoutSource(_)));
}

#[test]
fn expect_line_failure() {
    let mut patch = PatchSet::new();
    let err = patch
        .parse("--- a/f\n+++ b/f\n@@ -1,2 +1,2 @@\n a\n\\bogus\n")
        .unwrap_err();
    match err {
        Error::ExpectLine(l) => assert_eq!(l, "\\bogus"),
        other => panic!("wrong error: {:?}", other),
    }
}

#[test]
fn no_newline_marker_line() {
    let mut patch = PatchSet::new();
    patch
        .parse("--- a/f\n+++ b/f\n@@ -1,1 +1,1 @@\n-old\n\\ No newline at end of file\n+new\n")
        .unwrap();
    let file = patch.get(0).unwrap();
    let hunk = file.get(0).unwrap();
    assert_eq!(hunk.len(), 3);
    let marker = hunk.get(1).unwrap();
    assert_eq!(marker.line_type, LineType::Empty);
    assert_eq!(marker.value, " No newline at end of file");
    assert_eq!(marker.source_line_no, None);
    assert_eq!(marker.target_line_no, None);
    assert_eq!(hunk.added(), 1);
    assert_eq!(hunk.removed(), 1);
}

#[test]
fn marker_suffix_overrides_leading_marker() {
    // a line ending in the no-newline marker text is Empty even when it
    // starts with an addition marker: it consumes neither cursor and
    // leaves the added counter alone
    let mut patch = PatchSet::new();
    patch
        .parse(
            "--- a/f\n+++ b/f\n@@ -1,1 +1,1 @@\n-old\n+x\\ No newline at end of file\n+new\n",
        )
        .unwrap();
    let hunk = &patch.files()[0].hunks()[0];
    assert_eq!(hunk.len(), 3);
    let marker = hunk.get(1).unwrap();
    assert_eq!(marker.line_type, LineType::Empty);
    assert_eq!(marker.value, "x\\ No newline at end of file");
    assert_eq!(marker.source_line_no, None);
    assert_eq!(marker.target_line_no, None);
    assert_eq!(hunk.added(), 1);
    assert_eq!(hunk.removed(), 1);
}

#[test]
fn unknown_leading_character_fails() {
    let mut patch = PatchSet::new();
    let err = patch
        .parse("--- a/f\n+++ b/f\n@@ -1,2 +1,2 @@\n a\nxboom\n")
        .unwrap_err();
    match err {
        Error::ExpectLine(l) => assert_eq!(l, "xboom"),
        other => panic!("wrong error: {:?}", other),
    }
}

#[test]
fn oversize_hunk_header_with_no_file_pending() {
    let mut patch = PatchSet::new();
    let err = patch
        .parse("@@ -99999999999999999999,1 +1,1 @@\n x\n")
        .unwrap_err();
    assert!(matches!(err, Error::UnexpectedHunk(_)));
}

#[test]
fn oversize_hunk_header_is_not_acted_on() {
    let mut patch = PatchSet::new();
    patch
        .parse("--- a/f\n+++ b/f\n@@ -99999999999999999999,1 +1,1 @@\n")
        .unwrap();
    assert_eq!(patch.len(), 1);
    assert!(patch.files()[0].is_empty());
}

#[test]
fn missing_length_defaults_to_zero() {
    let mut patch = PatchSet::new();
    patch.parse("--- a/f\n+++ b/f\n@@ -3 +6 @@\n x\n").unwrap();
    let file = patch.get(0).unwrap();
    let hunk = file.get(0).unwrap();
    assert_eq!(hunk.source_start, 3);
    assert_eq!(hunk.source_length, 0);
    assert_eq!(hunk.target_start, 6);
    assert_eq!(hunk.target_length, 0);
    // extents already satisfied: exactly one body line is consumed
    assert_eq!(hunk.len(), 1);
    assert_eq!(hunk.get(0).unwrap().source_line_no, Some(3));
    assert_eq!(hunk.get(0).unwrap().target_line_no, Some(6));
}

#[test]
fn section_header_text() {
    let mut patch = PatchSet::new();
    patch
        .parse("--- a/f\n+++ b/f\n@@ -1,1 +1,1 @@ fn main()\n-x\n+y\n")
        .unwrap();
    let file = patch.get(0).unwrap();
    assert_eq!(file.get(0).unwrap().section_header, "fn main()");
}

#[test]
fn timestamps_are_captured() {
    let mut patch = PatchSet::new();
    patch
        .parse("--- a/f\t2015-01-01 00:00:00\n+++ b/f\t2015-01-02 00:00:00\n@@ -1,1 +1,1 @@\n-x\n+y\n")
        .unwrap();
    let file = patch.get(0).unwrap();
    assert_eq!(file.source_file, "a/f");
    assert_eq!(file.target_file, "b/f");
    assert_eq!(file.source_timestamp.as_deref(), Some("2015-01-01 00:00:00"));
    assert_eq!(file.target_timestamp.as_deref(), Some("2015-01-02 00:00:00"));
}

#[test]
fn well_formed_file_count_matches_header_pairs() {
    let diff = "--- a/one\n+++ b/one\n@@ -1,1 +1,1 @@\n-x\n+y\n\
                --- a/two\n+++ b/two\n@@ -1,1 +1,2 @@\n x\n+z\n\
                --- a/three\n+++ b/three\n";
    let mut patch = PatchSet::new();
    patch.parse(diff).unwrap();
    assert_eq!(patch.len(), 3);
    assert!(!patch.is_empty());
}

#[test]
fn parse_is_cumulative() {
    let mut patch = PatchSet::new();
    patch.parse("--- a/one\n+++ b/one\n").unwrap();
    patch.parse("--- a/two\n+++ b/two\n").unwrap();
    assert_eq!(patch.len(), 2);
    assert_eq!(patch.files()[0].path(), "one");
    assert_eq!(patch.files()[1].path(), "two");
}

#[test]
fn reparse_of_rendered_text_keeps_counts() {
    let mut patch = PatchSet::new();
    patch
        .parse("--- a/f\n+++ b/f\n@@ -1,3 +1,4 @@ sec\n a\n-b\n+c\n+d\n e\n")
        .unwrap();
    let text = patch.render();
    let mut again = PatchSet::new();
    again.parse(&text).expect("reparse failed");
    assert_eq!(again.len(), patch.len());
    assert_eq!(again.files()[0].added(), patch.files()[0].added());
    assert_eq!(again.files()[0].removed(), patch.files()[0].removed());
    assert_eq!(again.files()[0].len(), patch.files()[0].len());
}

#[test]
fn reparse_of_rendered_two_hunk_file_keeps_counts() {
    let mut patch = PatchSet::new();
    patch
        .parse(
            "--- a/f\n+++ b/f\n@@ -1,2 +1,2 @@\n a\n-b\n+c\n@@ -10,1 +10,2 @@\n x\n+z\n",
        )
        .unwrap();
    let text = patch.render();
    let mut again = PatchSet::new();
    again.parse(&text).expect("reparse failed");
    assert_eq!(again.len(), 1);
    let before = &patch.files()[0];
    let after = &again.files()[0];
    assert_eq!(after.len(), before.len());
    for k in 0..before.len() {
        assert_eq!(after.hunks()[k].added(), before.hunks()[k].added());
        assert_eq!(after.hunks()[k].removed(), before.hunks()[k].removed());
        assert_eq!(after.hunks()[k].len(), before.hunks()[k].len());
    }
}

#[test]
fn render_reconstructs_headers() {
    let mut patch = PatchSet::new();
    patch
        .parse("--- a/f\n+++ b/f\n@@ -1,1 +1,1 @@ sec\n-x\n+y\n")
        .unwrap();
    assert_eq!(
        patch.render(),
        "--- a/f\n+++ b/f\n@@ -1,1 +1,1 @@ sec\n-x\n+y"
    );
}

#[test]
fn render_line_markers() {
    assert_eq!(Line::new("x", LineType::Added).render(), "+x");
    assert_eq!(Line::new("x", LineType::Removed).render(), "-x");
    assert_eq!(Line::new("x", LineType::Context).render(), " x");
}

#[test]
fn line_predicates() {
    let l = Line::new("x", LineType::Added);
    assert!(l.is_added());
    assert!(!l.is_removed());
    assert!(!l.is_context());
    assert_eq!(l.source_line_no, Some(0));
    assert_eq!(l.target_line_no, Some(0));
    assert_eq!(l.diff_line_no, 0);
}

#[test]
fn hunk_append_updates_counters() {
    let mut hunk = Hunk::new(1, 2, 1, 2, "");
    assert!(hunk.is_empty());
    hunk.append(Line::new("a", LineType::Added));
    hunk.append(Line::new("b", LineType::Removed));
    hunk.append(Line::new("c", LineType::Context));
    hunk.append(Line::new("d", LineType::Added));
    assert_eq!(hunk.added(), 2);
    assert_eq!(hunk.removed(), 1);
    assert_eq!(hunk.len(), 4);
    assert!(!hunk.is_empty());
}

#[test]
fn hunk_source_and_target_lines() {
    let mut hunk = Hunk::new(1, 3, 1, 4, "");
    hunk.append(Line::new("a", LineType::Context));
    hunk.append(Line::new("b", LineType::Removed));
    hunk.append(Line::new("c", LineType::Added));
    hunk.append(Line::new("d", LineType::Added));
    hunk.append(Line::new("e", LineType::Context));
    let source: Vec<String> = hunk.source_lines().iter().map(|l| l.value.clone()).collect();
    assert_eq!(source, ["a", "b", "e"]);
    let target: Vec<String> = hunk.target_lines().iter().map(|l| l.value.clone()).collect();
    assert_eq!(target, ["a", "c", "d", "e"]);
}

#[test]
fn with_hunks_and_added_sums() {
    let mut h1 = Hunk::new(1, 1, 1, 2, "");
    h1.append(Line::new("a", LineType::Added));
    let mut h2 = Hunk::new(5, 1, 6, 2, "");
    h2.append(Line::new("b", LineType::Added));
    h2.append(Line::new("c", LineType::Removed));
    let file = PatchedFile::with_hunks("a/f", "b/f", vec![h1, h2]);
    assert_eq!(file.added(), 2);
    assert_eq!(file.removed(), 1);
    assert_eq!(file.len(), 2);
    assert!(!file.is_empty());
}

#[test]
fn patch_set_classification_filters() {
    let diff = "--- /dev/null\n+++ b/new\n@@ -0,0 +1,1 @@\n+x\n\
                --- a/gone\n+++ /dev/null\n@@ -1,1 +0,0 @@\n-x\n\
                --- a/kept\n+++ b/kept\n@@ -1,1 +1,1 @@\n-x\n+y\n";
    let mut patch = PatchSet::new();
    patch.parse(diff).unwrap();
    assert_eq!(patch.len(), 3);
    let added = patch.added_files();
    assert_eq!(added.len(), 1);
    assert_eq!(added[0].path(), "new");
    let removed = patch.removed_files();
    assert_eq!(removed.len(), 1);
    assert_eq!(removed[0].path(), "gone");
    let modified = patch.modified_files();
    assert_eq!(modified.len(), 1);
    assert_eq!(modified[0].path(), "kept");
}

#[test]
fn lines_mut_allows_value_edits() {
    let mut patch = PatchSet::new();
    patch
        .parse("--- a/f\n+++ b/f\n@@ -1,1 +1,1 @@\n-x\n+y\n")
        .unwrap();
    {
        let files = patch.files_mut();
        let hunks = files[0].hunks_mut();
        let lines = hunks[0].lines_mut();
        lines[0].value = String::from("edited");
    }
    assert_eq!(patch.files()[0].hunks()[0].lines()[0].value, "edited");
}

#[test]
fn parse_bytes_utf8() {
    let mut patch = PatchSet::new();
    patch
        .parse_bytes(b"--- a/f\n+++ b/f\n@@ -1,1 +1,1 @@\n-x\n+y\n")
        .unwrap();
    assert_eq!(patch.len(), 1);
    assert_eq!(patch.files()[0].path(), "f");
}

#[test]
fn parse_bytes_with_named_encoding() {
    let mut patch = PatchSet::from_encoding("windows-1252");
    let bytes = b"--- a/f\n+++ b/f\n@@ -1,1 +1,1 @@\n-caf\xe9\n+cafe\n";
    patch.parse_bytes(bytes).unwrap();
    let hunk = &patch.files()[0].hunks()[0];
    assert_eq!(hunk.lines()[0].value, "caf\u{e9}");
}

#[test]
fn from_encoding_unknown_label_falls_back_to_utf8() {
    let mut patch = PatchSet::from_encoding("no-such-encoding");
    patch
        .parse_bytes(b"--- a/f\n+++ b/f\n@@ -1,1 +1,1 @@\n-x\n+y\n")
        .unwrap();
    assert_eq!(patch.len(), 1);
}

#[test]
fn with_encoding_decodes_latin1() {
    let mut patch = PatchSet::with_encoding(encoding_rs::WINDOWS_1252);
    patch
        .parse_bytes(b"--- a/f\n+++ b/f\n@@ -0,0 +1,1 @@\n+\xe9\n")
        .unwrap();
    assert_eq!(patch.files()[0].hunks()[0].lines()[0].value, "\u{e9}");
}

#[test]
fn crlf_line_endings_are_normalized() {
    let mut patch = PatchSet::new();
    patch
        .parse("--- a/f\r\n+++ b/f\r\n@@ -1,1 +1,1 @@\r\n-x\r\n+y\r\n")
        .unwrap();
    assert_eq!(patch.len(), 1);
    let hunk = &patch.files()[0].hunks()[0];
    assert_eq!(hunk.lines()[0].value, "x");
    assert_eq!(hunk.added(), 1);
    assert_eq!(hunk.removed(), 1);
}

#[test]
fn error_text_carries_the_line() {
    let mut patch = PatchSet::new();
    let err = patch.parse("@@ -1,1 +1,1 @@\n x\n").unwrap_err();
    assert_eq!(err.description(), "Unexpected hunk found");
    assert_eq!(err.render(), "Unexpected hunk found: @@ -1,1 +1,1 @@");
}

#[test]
fn from_str_and_default() {
    let patch: PatchSet = "--- a/f\n+++ b/f\n@@ -1,1 +1,1 @@\n-x\n+y\n".parse().unwrap();
    assert_eq!(patch.len(), 1);
    let bad = "@@ -1,1 +1,1 @@\n-x\n+y\n".parse::<PatchSet>();
    assert!(matches!(bad, Err(Error::UnexpectedHunk(_))));
    let empty = PatchSet::default();
    assert!(empty.is_empty());
}

#[test]
fn partial_results_are_kept_on_failure() {
    let mut patch = PatchSet::new();
    let err = patch
        .parse("--- a/one\n+++ b/one\n@@ -1,1 +1,1 @@\n-x\n+y\n--- a/two\n+++ b/two\n+++ b/extra\n")
        .unwrap_err();
    assert!(matches!(err, Error::TargetWithoutSource(_)));
    // the first file was finalized before the malformation
    assert_eq!(patch.len(), 1);
    assert_eq!(patch.files()[0].path(), "one");
}
