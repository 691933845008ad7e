//! The two-level parsing state machine: the hunk builder, which reconstructs
//! one hunk from its header and the following lines, and the top-level
//! driver, which scans the document for file-pair and hunk headers.
//!
//! The meaning of parsing is fixed by two specification functions:
//! [`build_hunk`] for one hunk and [`drive`] for the whole document. The
//! executable parser is proved to return exactly their outcome.

use vstd::prelude::*;
use vstd::seq_lib::*;
use crate::classify::{
    classify_body, classify_body_line, header_filename, header_fits, header_timestamp,
    hunk_trigger, is_source_line, is_target_line, match_hunk_header, match_source_header,
    match_target_header, parse_hunk_header, HeaderMatch, HunkHeaderModel,
};
use crate::codec;
use crate::model::{
    hunk_append, spec_is_added_file, spec_is_removed_file, Error, ErrorModel, FileModel, Hunk,
    HunkModel, Line, LineModel, LineType, PatchedFile,
};
use crate::text::{sat_inc, sat_inc_exec, spec_lines, split_lines};

verus! {

// ---------------------------------------------------------------------------
// The hunk builder
// ---------------------------------------------------------------------------
/// Walks `doc` from `i`, appending body lines to `h` until both cursors
/// reach their expected ends, the document ends, or a line fails to
/// classify. `sc`/`tc` are the source/target cursors, `se`/`te` the expected
/// ends (start plus declared length). Added lines consume the target cursor,
/// removed lines the source cursor, context lines both, no-newline markers
/// neither.
pub open spec fn build_hunk(
    doc: Seq<Seq<char>>,
    i: int,
    h: HunkModel,
    sc: usize,
    tc: usize,
    se: usize,
    te: usize,
) -> Result<HunkModel, Seq<char>>
    decreases doc.len() - i,
{
    if i < 0 || i >= doc.len() {
        Ok(h)
    } else {
        match classify_body(doc[i]) {
            None => Err(doc[i]),
            Some(tv) => {
                let consumes_source = tv.0 == LineType::Removed || tv.0 == LineType::Context;
                let consumes_target = tv.0 == LineType::Added || tv.0 == LineType::Context;
                let lm = LineModel {
                    source_line_no: if consumes_source {
                        Some(sc)
                    } else {
                        None
                    },
                    target_line_no: if consumes_target {
                        Some(tc)
                    } else {
                        None
                    },
                    diff_line_no: (i + 1) as usize,
                    line_type: tv.0,
                    value: tv.1,
                };
                let sc2 = if consumes_source {
                    sat_inc(sc)
                } else {
                    sc
                };
                let tc2 = if consumes_target {
                    sat_inc(tc)
                } else {
                    tc
                };
                let h2 = hunk_append(h, lm);
                if sc2 >= se && tc2 >= te {
                    Ok(h2)
                } else {
                    build_hunk(doc, i + 1, h2, sc2, tc2, se, te)
                }
            },
        }
    }
}

/// The hunk a freshly parsed header declares: counters and lines empty.
pub open spec fn init_hunk(hh: HunkHeaderModel) -> HunkModel {
    HunkModel {
        added: 0usize,
        removed: 0usize,
        source_start: hh.source_start as usize,
        source_length: hh.source_length as usize,
        target_start: hh.target_start as usize,
        target_length: hh.target_length as usize,
        section_header: hh.section,
        lines: Seq::empty(),
    }
}

/// Outcome of building one hunk from header `hh` with body lines starting
/// at `start`.
pub open spec fn hunk_outcome(doc: Seq<Seq<char>>, start: int, hh: HunkHeaderModel) -> Result<
    HunkModel,
    Seq<char>,
> {
    build_hunk(
        doc,
        start,
        init_hunk(hh),
        hh.source_start as usize,
        hh.target_start as usize,
        (hh.source_start + hh.source_length) as usize,
        (hh.target_start + hh.target_length) as usize,
    )
}

impl PatchedFile {
    /// Parses one hunk from its header line and the document lines from
    /// `start` on, and appends it to this file. On failure the file is left
    /// unchanged and the offending line is reported.
    pub fn parse_hunk(&mut self, header: &str, doc: &Vec<String>, start: usize) -> (r: Result<
        (),
        Error,
    >)
        requires
            hunk_trigger(header@),
            start <= doc@.len(),
        ensures
            ({
                let res = hunk_outcome(doc.deep_view(), start as int, parse_hunk_header(header@)->0);
                match r {
                    Ok(()) => res is Ok && final(self)@ == (FileModel {
                        hunks: old(self)@.hunks.push(res->Ok_0),
                        ..old(self)@
                    }),
                    Err(e) => res is Err && e@ == ErrorModel::ExpectLine(res->Err_0)
                        && final(self)@ == old(self)@,
                }
            }),
    {
        let ghost docm = doc.deep_view();
        let ghost hh = parse_hunk_header(header@)->0;
        let (ss, sl, ts, tl, section) = match match_hunk_header(header) {
            HeaderMatch::Extents(ss, sl, ts, tl, section) => (ss, sl, ts, tl, section),
            _ => {
                proof {
                    assert(false);
                }
                return Err(Error::ExpectLine(header.to_owned()));
            },
        };
        let mut hunk = Hunk::new(ss, sl, ts, tl, section.as_str());
        let se = ss + sl;
        let te = ts + tl;
        let mut sc = ss;
        let mut tc = ts;
        let mut j = start;
        let mut done = false;
        proof {
            assert(hunk@ == init_hunk(hh));
        }
        while j < doc.len() && !done
            invariant
                start <= j <= docm.len(),
                docm == doc.deep_view(),
                hh == parse_hunk_header(header@)->0,
                *self == *old(self),
                hunk.wf(),
                hunk@.lines.len() == j - start,
                !done ==> hunk_outcome(docm, start as int, hh) == build_hunk(
                    docm,
                    j as int,
                    hunk@,
                    sc,
                    tc,
                    se,
                    te,
                ),
                done ==> hunk_outcome(docm, start as int, hh) == Ok::<HunkModel, Seq<char>>(
                    hunk@,
                ),
            decreases docm.len() - j,
        {
            let line_ref = &doc[j];
            proof {
                assert(docm[j as int] == line_ref@);
            }
            match classify_body_line(line_ref.as_str()) {
                None => {
                    proof {
                        assert(build_hunk(docm, j as int, hunk@, sc, tc, se, te)
                            == Err::<HunkModel, Seq<char>>(docm[j as int]));
                    }
                    return Err(Error::ExpectLine(line_ref.clone()));
                },
                Some((t, v)) => {
                    let consumes_source = t == LineType::Removed || t == LineType::Context;
                    let consumes_target = t == LineType::Added || t == LineType::Context;
                    let line = Line {
                        source_line_no: if consumes_source {
                            Some(sc)
                        } else {
                            None
                        },
                        target_line_no: if consumes_target {
                            Some(tc)
                        } else {
                            None
                        },
                        diff_line_no: j + 1,
                        line_type: t,
                        value: v,
                    };
                    hunk.append(line);
                    if consumes_source {
                        sc = sat_inc_exec(sc);
                    }
                    if consumes_target {
                        tc = sat_inc_exec(tc);
                    }
                    if sc >= se && tc >= te {
                        done = true;
                    }
                    j += 1;
                },
            }
        }
        proof {
            if !done {
                assert(j == docm.len());
            }
        }
        let ghost pre = self@;
        self.hunks.push(hunk);
        proof {
            assert(self@.hunks =~= pre.hunks.push(hunk@));
        }
        Ok(())
    }
}

// ---------------------------------------------------------------------------
// The driver
// ---------------------------------------------------------------------------
/// What one parse call produces: the final file list and, when the document
/// is malformed, the first failure.
pub ghost struct ParseOutcome {
    pub files: Seq<FileModel>,
    pub error: Option<ErrorModel>,
}

/// The top-level state machine, one document line per step. `src` is the
/// most recently seen source header (filename and timestamp), `cur` the
/// pending file opened by a target header, `files` the files finalized so
/// far. A source header finalizes any pending file; a target header opens a
/// pending file, and is rejected when one is already pending or no source
/// header was seen; a hunk header with fitting extents hands the following
/// lines to the hunk builder — one whose extents overflow the machine
/// cannot be acted on and is skipped; every other line is ignored at this
/// level. At the end of input a still-pending file is finalized.
///
/// The driver deliberately rescans lines consumed by a hunk: hunk extents
/// are length-prefixed, not delimiter-terminated, and a body line that looks
/// like a header acts as one here, exactly as during a plain scan.
pub open spec fn drive(
    doc: Seq<Seq<char>>,
    i: int,
    src: Option<(Seq<char>, Seq<char>)>,
    cur: Option<FileModel>,
    files: Seq<FileModel>,
) -> ParseOutcome
    decreases doc.len() - i,
{
    if i < 0 || i >= doc.len() {
        ParseOutcome {
            files: if cur is Some {
                files.push(cur->0)
            } else {
                files
            },
            error: None,
        }
    } else {
        let l = doc[i];
        if is_source_line(l) {
            drive(
                doc,
                i + 1,
                Some((header_filename(l), header_timestamp(l))),
                None,
                if cur is Some {
                    files.push(cur->0)
                } else {
                    files
                },
            )
        } else if is_target_line(l) {
            if cur is Some || src is None {
                ParseOutcome { files, error: Some(ErrorModel::TargetWithoutSource(l)) }
            } else {
                let f = FileModel {
                    source_file: (src->0).0,
                    source_timestamp: Some((src->0).1),
                    target_file: header_filename(l),
                    target_timestamp: Some(header_timestamp(l)),
                    hunks: Seq::empty(),
                };
                drive(doc, i + 1, src, Some(f), files)
            }
        } else if parse_hunk_header(l) is Some {
            if cur is None {
                ParseOutcome { files, error: Some(ErrorModel::UnexpectedHunk(l)) }
            } else if header_fits(parse_hunk_header(l)->0) {
                match hunk_outcome(doc, i + 1, parse_hunk_header(l)->0) {
                    Err(bad) => ParseOutcome { files, error: Some(ErrorModel::ExpectLine(bad)) },
                    Ok(h) => drive(
                        doc,
                        i + 1,
                        src,
                        Some(FileModel { hunks: (cur->0).hunks.push(h), ..cur->0 }),
                        files,
                    ),
                }
            } else {
                drive(doc, i + 1, src, cur, files)
            }
        } else {
            drive(doc, i + 1, src, cur, files)
        }
    }
}

/// Model of the pending source header.
pub open spec fn src_model(s: Option<(String, String)>) -> Option<(Seq<char>, Seq<char>)> {
    match s {
        Some(p) => Some((p.0@, p.1@)),
        None => None,
    }
}

/// Model of the pending file.
pub open spec fn cur_model(c: Option<PatchedFile>) -> Option<FileModel> {
    match c {
        Some(f) => Some(f@),
        None => None,
    }
}

/// Parsing `text` into a set holding `pre` gives the files `post` and the
/// result `r`: exactly what [`drive`] says of the lines of `text`.
pub open spec fn parse_result_of(
    pre: Seq<FileModel>,
    text: Seq<char>,
    post: Seq<FileModel>,
    r: Result<(), Error>,
) -> bool {
    let out = drive(spec_lines(text), 0, None, None, pre);
    &&& post == out.files
    &&& match r {
        Ok(()) => out.error is None,
        Err(e) => out.error == Some(e@),
    }
}

// ---------------------------------------------------------------------------
// PatchSet
// ---------------------------------------------------------------------------
/// The whole parsed diff: an ordered collection of changed files, and the
/// encoding used by the byte-level entry point.
#[derive(Clone)]
pub struct PatchSet {
    /// The parsed files, in document order.
    pub files: Vec<PatchedFile>,
    /// The encoding used to decode raw bytes in [`PatchSet::parse_bytes`].
    pub encoding: &'static encoding_rs::Encoding,
}

impl View for PatchSet {
    type V = Seq<FileModel>;

    open spec fn view(&self) -> Seq<FileModel> {
        self.files.deep_view()
    }
}

impl Default for PatchSet {
    /// The same empty, UTF-8 decoding set as [`PatchSet::new`].
    fn default() -> (r: PatchSet)
        ensures
            r@ == Seq::<FileModel>::empty(),
    {
        PatchSet::new()
    }
}

impl core::str::FromStr for PatchSet {
    type Err = Error;

    /// A fresh patch set parsed from `s`, or the first parse failure.
    fn from_str(s: &str) -> Result<PatchSet, Error> {
        let mut patch = PatchSet::new();
        match patch.parse(s) {
            Ok(()) => Ok(patch),
            Err(e) => Err(e),
        }
    }
}

impl PatchSet {
    /// An empty patch set decoding bytes as UTF-8.
    pub fn new() -> (r: PatchSet)
        ensures
            r@ == Seq::<FileModel>::empty(),
    {
        let r = PatchSet { files: Vec::new(), encoding: codec::utf8_encoding() };
        assert(r@ =~= Seq::<FileModel>::empty());
        r
    }

    /// An empty patch set decoding bytes with the given encoding.
    pub fn with_encoding(coding: &'static encoding_rs::Encoding) -> (r: PatchSet)
        ensures
            r@ == Seq::<FileModel>::empty(),
            r.encoding == coding,
    {
        let r = PatchSet { files: Vec::new(), encoding: coding };
        assert(r@ =~= Seq::<FileModel>::empty());
        r
    }

    /// An empty patch set whose encoding is looked up by label, with UTF-8
    /// as the fallback for an unknown label.
    pub fn from_encoding(coding: &str) -> (r: PatchSet)
        ensures
            r@ == Seq::<FileModel>::empty(),
    {
        let enc = match codec::encoding_for_label(coding) {
            Some(e) => e,
            None => codec::utf8_encoding(),
        };
        let r = PatchSet { files: Vec::new(), encoding: enc };
        assert(r@ =~= Seq::<FileModel>::empty());
        r
    }

    /// Decodes `input` with this set's encoding, then parses the text. The
    /// outcome is exactly what [`drive`] yields for the decoded text, named
    /// by [`codec::decoded`].
    pub fn parse_bytes(&mut self, input: &[u8]) -> (r: Result<(), Error>)
        ensures
            parse_result_of(
                old(self)@,
                codec::decoded(old(self).encoding, input@),
                final(self)@,
                r,
            ),
            final(self).encoding == old(self).encoding,
    {
        let text = codec::decode_bytes(self.encoding, input);
        self.parse(text.as_str())
    }

    /// Parses a diff document, appending its files to the ones already held.
    /// The outcome is exactly what [`drive`] yields on the lines of `input`:
    /// on success the appended files, on failure the files finalized before
    /// the first malformation, which is reported as the error.
    pub fn parse(&mut self, input: &str) -> (r: Result<(), Error>)
        ensures
            parse_result_of(old(self)@, input@, final(self)@, r),
            final(self).encoding == old(self).encoding,
    {
        let doc = split_lines(input);
        let ghost docm = doc.deep_view();
        let ghost full = drive(docm, 0, None, None, old(self)@);
        let mut src: Option<(String, String)> = None;
        let mut cur: Option<PatchedFile> = None;
        let mut i: usize = 0;
        while i < doc.len()
            invariant
                0 <= i <= docm.len(),
                docm == doc.deep_view(),
                docm == spec_lines(input@),
                self.encoding == old(self).encoding,
                drive(docm, i as int, src_model(src), cur_model(cur), self@) == full,
                full == drive(docm, 0, None, None, old(self)@),
            decreases docm.len() - i,
        {
            let line_ref = &doc[i];
            proof {
                assert(docm[i as int] == line_ref@);
            }
            if let Some((name, stamp)) = match_source_header(line_ref.as_str()) {
                let ghost pre = self@;
                let prev = cur;
                cur = None;
                match prev {
                    Some(f) => {
                        self.files.push(f);
                        proof {
                            assert(self@ =~= pre.push(f@));
                        }
                    },
                    None => {},
                }
                src = Some((name, stamp));
            } else if let Some((tname, tstamp)) = match_target_header(line_ref.as_str()) {
                if cur.is_some() {
                    proof {
                        assert(drive(docm, i as int, src_model(src), cur_model(cur), self@)
                            == ParseOutcome {
                            files: self@,
                            error: Some(ErrorModel::TargetWithoutSource(docm[i as int])),
                        });
                    }
                    return Err(Error::TargetWithoutSource(line_ref.clone()));
                }
                match &src {
                    None => {
                        proof {
                            assert(drive(docm, i as int, src_model(src), cur_model(cur), self@)
                                == ParseOutcome {
                                files: self@,
                                error: Some(ErrorModel::TargetWithoutSource(docm[i as int])),
                            });
                        }
                        return Err(Error::TargetWithoutSource(line_ref.clone()));
                    },
                    Some(p) => {
                        cur = Some(
                            PatchedFile {
                                source_file: p.0.clone(),
                                source_timestamp: Some(p.1.clone()),
                                target_file: tname,
                                target_timestamp: Some(tstamp),
                                hunks: Vec::new(),
                            },
                        );
                        proof {
                            assert(cur_model(cur)->0.hunks =~= Seq::<HunkModel>::empty());
                        }
                    },
                }
            } else {
                match match_hunk_header(line_ref.as_str()) {
                    HeaderMatch::NotHunkHeader => {},
                    HeaderMatch::Oversize => {
                        if cur.is_none() {
                            proof {
                                assert(drive(docm, i as int, src_model(src), cur_model(cur), self@)
                                    == ParseOutcome {
                                    files: self@,
                                    error: Some(ErrorModel::UnexpectedHunk(docm[i as int])),
                                });
                            }
                            return Err(Error::UnexpectedHunk(line_ref.clone()));
                        }
                        // the header cannot be acted on; the line is skipped
                    },
                    HeaderMatch::Extents(_, _, _, _, _) => {
                        match &mut cur {
                            Some(pf) => {
                                match pf.parse_hunk(line_ref.as_str(), &doc, i + 1) {
                                    Ok(()) => {},
                                    Err(e) => {
                                        proof {
                                            assert(hunk_outcome(
                                                docm,
                                                i + 1,
                                                parse_hunk_header(docm[i as int])->0,
                                            ) is Err);
                                            assert(drive(
                                                docm,
                                                i as int,
                                                src_model(src),
                                                cur_model(cur),
                                                self@,
                                            ) == ParseOutcome { files: self@, error: Some(e@) });
                                        }
                                        return Err(e);
                                    },
                                }
                            },
                            None => {
                                proof {
                                    assert(drive(
                                        docm,
                                        i as int,
                                        src_model(src),
                                        cur_model(cur),
                                        self@,
                                    ) == ParseOutcome {
                                        files: self@,
                                        error: Some(ErrorModel::UnexpectedHunk(docm[i as int])),
                                    });
                                }
                                return Err(Error::UnexpectedHunk(line_ref.clone()));
                            },
                        }
                    },
                }
            }
            i += 1;
        }
        let ghost pre = self@;
        match cur {
            Some(f) => {
                self.files.push(f);
                proof {
                    assert(self@ =~= pre.push(f@));
                }
            },
            None => {},
        }
        Ok(())
    }

    /// Count of patched files.
    pub fn len(&self) -> (r: usize)
        ensures
            r == self@.len(),
    {
        self.files.len()
    }

    /// The set holds no files.
    pub fn is_empty(&self) -> (r: bool)
        ensures
            r == (self@.len() == 0),
    {
        self.files.is_empty()
    }

    /// The files of this patch set.
    pub fn files(&self) -> (r: &[PatchedFile])
        ensures
            r.deep_view() == self@,
    {
        self.files.as_slice()
    }

    /// Mutable access to the files of this patch set.
    pub fn files_mut(&mut self) -> (r: &mut Vec<PatchedFile>)
        ensures
            *r == old(self).files,
            *final(self) == (PatchSet { files: *final(r), ..*old(self) }),
    {
        &mut self.files
    }

    /// The files classified as newly added, in order.
    pub fn added_files(&self) -> (r: Vec<PatchedFile>)
        ensures
            r.deep_view() == self@.filter(|f: FileModel| spec_is_added_file(f)),
    {
        let pred = |f: &PatchedFile| -> (b: bool)
            ensures
                b == spec_is_added_file(f@),
            { f.is_added_file() };
        filter_files(&self.files, Ghost(|f: FileModel| spec_is_added_file(f)), pred)
    }

    /// The files classified as removed, in order.
    pub fn removed_files(&self) -> (r: Vec<PatchedFile>)
        ensures
            r.deep_view() == self@.filter(|f: FileModel| spec_is_removed_file(f)),
    {
        let pred = |f: &PatchedFile| -> (b: bool)
            ensures
                b == spec_is_removed_file(f@),
            { f.is_removed_file() };
        filter_files(&self.files, Ghost(|f: FileModel| spec_is_removed_file(f)), pred)
    }

    /// The files classified as modified, in order.
    pub fn modified_files(&self) -> (r: Vec<PatchedFile>)
        ensures
            r.deep_view() == self@.filter(
                |f: FileModel| !spec_is_added_file(f) && !spec_is_removed_file(f),
            ),
    {
        let pred = |f: &PatchedFile| -> (b: bool)
            ensures
                b == (!spec_is_added_file(f@) && !spec_is_removed_file(f@)),
            { f.is_modified_file() };
        filter_files(
            &self.files,
            Ghost(|f: FileModel| !spec_is_added_file(f) && !spec_is_removed_file(f)),
            pred,
        )
    }

    /// The file at `idx`, or `None` past the end.
    pub fn get(&self, idx: usize) -> (r: Option<&PatchedFile>)
        ensures
            match r {
                Some(f) => idx < self@.len() && f@ == self@[idx as int],
                None => idx >= self@.len(),
            },
    {
        if idx < self.files.len() {
            Some(&self.files[idx])
        } else {
            None
        }
    }
}

/// Copies the files accepted by `pred` in order, `spec_pred` being the
/// meaning of `pred` at the model level.
fn filter_files<F: Fn(&PatchedFile) -> bool>(
    files: &Vec<PatchedFile>,
    spec_pred: Ghost<spec_fn(FileModel) -> bool>,
    pred: F,
) -> (r: Vec<PatchedFile>)
    requires
        forall|f: &PatchedFile, b: bool| #[trigger] pred.ensures((f,), b) ==> b == spec_pred@(f@),
        forall|f: &PatchedFile| #[trigger] pred.requires((f,)),
    ensures
        r.deep_view() == files.deep_view().filter(spec_pred@),
{
    broadcast use Seq::filter_distributes_over_add;

    let mut r: Vec<PatchedFile> = Vec::new();
    let mut i: usize = 0;
    assert(files.deep_view().take(0) =~= Seq::<FileModel>::empty());
    while i < files.len()
        invariant
            0 <= i <= files.len(),
            forall|f: &PatchedFile, b: bool| #[trigger] pred.ensures((f,), b) ==> b == spec_pred@(
                f@,
            ),
            forall|f: &PatchedFile| #[trigger] pred.requires((f,)),
            r.deep_view() == files.deep_view().take(i as int).filter(spec_pred@),
        decreases files.len() - i,
    {
        let ghost prefix = files.deep_view().take(i as int);
        assert(files.deep_view().take(i + 1) =~= prefix + seq![files.deep_view()[i as int]]);
        if pred(&files[i]) {
            r.push(files[i].duplicate());
            assert(seq![files.deep_view()[i as int]].filter(spec_pred@) =~= seq![
                files.deep_view()[i as int],
            ]) by {
                reveal_with_fuel(Seq::filter, 2);
            };
        } else {
            assert(seq![files.deep_view()[i as int]].filter(spec_pred@)
                =~= Seq::<FileModel>::empty()) by {
                reveal_with_fuel(Seq::filter, 2);
            };
        }
        i += 1;
    }
    assert(files.deep_view().take(files.len() as int) =~= files.deep_view());
    r
}

} // verus!
