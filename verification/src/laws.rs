//! Document-level laws of the parser, proved against the specification
//! state machine [`drive`](crate::patch::drive).

use vstd::prelude::*;
use crate::classify::{classify_body, header_fits, is_source_line, is_target_line,
    parse_hunk_header};
use crate::model::{
    count_type, hunk_wf, spec_is_added_file, spec_is_removed_file, FileModel, HunkModel, LineType,
};
use crate::patch::{build_hunk, drive, hunk_outcome, init_hunk};
use crate::text::sat_inc;

verus! {

/// The line means nothing to the top-level driver: it is neither file
/// header nor a line of the hunk-header shape.
pub open spec fn is_ignored_line(l: Seq<char>) -> bool {
    !is_source_line(l) && !is_target_line(l) && parse_hunk_header(l) is None
}

/// Well-formedness of the document suffix from `i`, as a small-step
/// grammar. `have_src` says a source header has been seen, `pending` that a
/// target header has opened a file, and `ds`/`dt` are the source/target
/// extents still owed to the hunk being read (`0`/`0` outside a hunk body).
///
/// Outside a body: a source header may come anywhere; a target header only
/// after a source header and not while a file is pending; a hunk header
/// only while a file is pending, declaring at least one line and followed
/// by a body that meets its extents exactly; any line meaning nothing to
/// the driver may be interspersed. Inside a body: every line is a body line
/// that still fits the owed extents, means nothing to the driver when it is
/// rescanned, and the document does not end before the extents are met.
pub open spec fn wf_from(
    doc: Seq<Seq<char>>,
    i: int,
    have_src: bool,
    pending: bool,
    ds: int,
    dt: int,
) -> bool
    decreases doc.len() - i,
{
    if i < 0 {
        false
    } else if i >= doc.len() {
        ds == 0 && dt == 0
    } else if ds > 0 || dt > 0 {
        &&& classify_body(doc[i]) is Some
        &&& is_ignored_line(doc[i])
        &&& {
            let t = (classify_body(doc[i])->0).0;
            if t == LineType::Context {
                ds >= 1 && dt >= 1 && wf_from(doc, i + 1, have_src, pending, ds - 1, dt - 1)
            } else if t == LineType::Removed {
                ds >= 1 && wf_from(doc, i + 1, have_src, pending, ds - 1, dt)
            } else if t == LineType::Added {
                dt >= 1 && wf_from(doc, i + 1, have_src, pending, ds, dt - 1)
            } else {
                wf_from(doc, i + 1, have_src, pending, ds, dt)
            }
        }
    } else {
        let l = doc[i];
        if is_source_line(l) {
            wf_from(doc, i + 1, true, false, 0, 0)
        } else if is_target_line(l) {
            have_src && !pending && wf_from(doc, i + 1, true, true, 0, 0)
        } else if parse_hunk_header(l) is Some {
            let hh = parse_hunk_header(l)->0;
            &&& pending
            &&& header_fits(hh)
            &&& hh.source_length + hh.target_length >= 1
            &&& wf_from(doc, i + 1, have_src, pending, hh.source_length, hh.target_length)
        } else {
            wf_from(doc, i + 1, have_src, pending, 0, 0)
        }
    }
}

/// The document is well-formed unified-diff text.
pub open spec fn wf_document(doc: Seq<Seq<char>>) -> bool {
    wf_from(doc, 0, false, false, 0, 0)
}

/// Count of file-pair headers from `i` on: one per target header, which in
/// a well-formed document follows its source header.
pub open spec fn header_pair_count(doc: Seq<Seq<char>>, i: int) -> int
    decreases doc.len() - i,
{
    if i < 0 || i >= doc.len() {
        0
    } else {
        (if is_target_line(doc[i]) {
            1int
        } else {
            0int
        }) + header_pair_count(doc, i + 1)
    }
}

/// On a well-formed hunk body the builder consumes lines until the owed
/// extents reach zero together, and succeeds.
proof fn lemma_build_hunk_ok(
    doc: Seq<Seq<char>>,
    i: int,
    h: HunkModel,
    sc: usize,
    tc: usize,
    se: usize,
    te: usize,
    have_src: bool,
    pending: bool,
)
    requires
        0 <= i,
        wf_from(doc, i, have_src, pending, se - sc, te - tc),
        sc <= se,
        tc <= te,
        se - sc + te - tc >= 1,
    ensures
        build_hunk(doc, i, h, sc, tc, se, te) is Ok,
    decreases doc.len() - i,
{
    let ds = se - sc;
    let dt = te - tc;
    assert(i < doc.len());
    let t = (classify_body(doc[i])->0).0;
    let consumes_source = t == LineType::Removed || t == LineType::Context;
    let consumes_target = t == LineType::Added || t == LineType::Context;
    let sc2 = if consumes_source {
        sat_inc(sc)
    } else {
        sc
    };
    let tc2 = if consumes_target {
        sat_inc(tc)
    } else {
        tc
    };
    if consumes_source {
        assert(sc < se <= usize::MAX);
        assert(sc2 == sc + 1);
    }
    if consumes_target {
        assert(tc < te <= usize::MAX);
        assert(tc2 == tc + 1);
    }
    if sc2 >= se && tc2 >= te {
        // the builder stops here, successfully
    } else {
        let h2 = crate::model::hunk_append(
            h,
            crate::model::LineModel {
                source_line_no: if consumes_source {
                    Some(sc)
                } else {
                    None
                },
                target_line_no: if consumes_target {
                    Some(tc)
                } else {
                    None
                },
                diff_line_no: (i + 1) as usize,
                line_type: t,
                value: (classify_body(doc[i])->0).1,
            },
        );
        lemma_build_hunk_ok(doc, i + 1, h2, sc2, tc2, se, te, have_src, pending);
    }
}

/// The driver, run from any state consistent with a well-formed suffix,
/// finishes without error and finalizes one file per remaining header pair
/// (plus the file already pending, if any).
proof fn lemma_drive_wellformed(
    doc: Seq<Seq<char>>,
    i: int,
    src: Option<(Seq<char>, Seq<char>)>,
    cur: Option<FileModel>,
    files: Seq<FileModel>,
    ds: int,
    dt: int,
)
    requires
        0 <= i,
        wf_from(doc, i, src is Some, cur is Some, ds, dt),
        ds >= 0,
        dt >= 0,
    ensures
        ({
            let out = drive(doc, i, src, cur, files);
            &&& out.error is None
            &&& out.files.len() == files.len() + (if cur is Some {
                1int
            } else {
                0int
            }) + header_pair_count(doc, i)
        }),
    decreases doc.len() - i,
{
    if i >= doc.len() {
        // end of input: a pending file is finalized
    } else {
        let l = doc[i];
        if ds > 0 || dt > 0 {
            // inside a hunk body: the driver ignores the line
            let t = (classify_body(l)->0).0;
            if t == LineType::Context {
                lemma_drive_wellformed(doc, i + 1, src, cur, files, ds - 1, dt - 1);
            } else if t == LineType::Removed {
                lemma_drive_wellformed(doc, i + 1, src, cur, files, ds - 1, dt);
            } else if t == LineType::Added {
                lemma_drive_wellformed(doc, i + 1, src, cur, files, ds, dt - 1);
            } else {
                lemma_drive_wellformed(doc, i + 1, src, cur, files, ds, dt);
            }
        } else if is_source_line(l) {
            let src2 = Some((crate::classify::header_filename(l), crate::classify::header_timestamp(l)));
            let files2 = if cur is Some {
                files.push(cur->0)
            } else {
                files
            };
            lemma_drive_wellformed(doc, i + 1, src2, None, files2, 0, 0);
        } else if is_target_line(l) {
            let f = FileModel {
                source_file: (src->0).0,
                source_timestamp: Some((src->0).1),
                target_file: crate::classify::header_filename(l),
                target_timestamp: Some(crate::classify::header_timestamp(l)),
                hunks: Seq::empty(),
            };
            lemma_drive_wellformed(doc, i + 1, src, Some(f), files, 0, 0);
        } else if parse_hunk_header(l) is Some {
            crate::classify::lemma_header_nonneg(l);
            let hh = parse_hunk_header(l)->0;
            let sl = hh.source_length as usize;
            let tl = hh.target_length as usize;
            let ss = hh.source_start as usize;
            let ts = hh.target_start as usize;
            let se = (hh.source_start + hh.source_length) as usize;
            let te = (hh.target_start + hh.target_length) as usize;
            assert(se - ss == hh.source_length && te - ts == hh.target_length);
            lemma_build_hunk_ok(
                doc,
                i + 1,
                init_hunk(hh),
                ss,
                ts,
                se,
                te,
                src is Some,
                cur is Some,
            );
            let h = hunk_outcome(doc, i + 1, hh)->Ok_0;
            let cur2 = Some(FileModel { hunks: (cur->0).hunks.push(h), ..cur->0 });
            lemma_drive_wellformed(doc, i + 1, src, cur2, files, hh.source_length, hh.target_length);
        } else {
            lemma_drive_wellformed(doc, i + 1, src, cur, files, 0, 0);
        }
    }
}

/// For every well-formed unified-diff document, parsing succeeds, and the
/// count of files it adds equals the count of source/target header pairs
/// in the text.
pub proof fn theorem_wellformed_parse(doc: Seq<Seq<char>>, pre: Seq<FileModel>)
    requires
        wf_document(doc),
    ensures
        ({
            let out = drive(doc, 0, None, None, pre);
            &&& out.error is None
            &&& out.files.len() == pre.len() + header_pair_count(doc, 0)
        }),
{
    lemma_drive_wellformed(doc, 0, None, None, pre, 0, 0);
}

/// Lines that mean nothing to the driver change nothing: the driver walks
/// straight over them.
proof fn lemma_drive_skips_ignored(
    doc: Seq<Seq<char>>,
    i: int,
    j: int,
    src: Option<(Seq<char>, Seq<char>)>,
    cur: Option<FileModel>,
    files: Seq<FileModel>,
)
    requires
        0 <= i <= j <= doc.len(),
        forall|k: int| i <= k < j ==> is_ignored_line(#[trigger] doc[k]),
    ensures
        drive(doc, i, src, cur, files) == drive(doc, j, src, cur, files),
    decreases j - i,
{
    if i < j {
        lemma_drive_skips_ignored(doc, i + 1, j, src, cur, files);
    }
}

/// A line of the hunk-header shape reached while no file is pending halts
/// parsing with `UnexpectedHunk`, carrying that header line — whatever the
/// magnitude of its extents.
pub proof fn lemma_unexpected_hunk(doc: Seq<Seq<char>>, i: int, files: Seq<FileModel>)
    requires
        0 <= i < doc.len(),
        parse_hunk_header(doc[i]) is Some,
        forall|k: int| 0 <= k < i ==> is_ignored_line(#[trigger] doc[k]),
    ensures
        drive(doc, 0, None, None, files) == (crate::patch::ParseOutcome {
            files,
            error: Some(crate::model::ErrorModel::UnexpectedHunk(doc[i])),
        }),
{
    lemma_drive_skips_ignored(doc, 0, i, None, None, files);
}

/// A target header reached while a file is already pending halts parsing
/// with `TargetWithoutSource`, carrying that header line: the fate of two
/// `+++` headers with no `---` between them.
pub proof fn lemma_target_while_pending(
    doc: Seq<Seq<char>>,
    i: int,
    j: int,
    src: Option<(Seq<char>, Seq<char>)>,
    pending: FileModel,
    files: Seq<FileModel>,
)
    requires
        0 <= i <= j < doc.len(),
        is_target_line(doc[j]),
        forall|k: int| i <= k < j ==> is_ignored_line(#[trigger] doc[k]),
    ensures
        drive(doc, i, src, Some(pending), files) == (crate::patch::ParseOutcome {
            files,
            error: Some(crate::model::ErrorModel::TargetWithoutSource(doc[j])),
        }),
{
    lemma_drive_skips_ignored(doc, i, j, src, Some(pending), files);
    assert(!is_source_line(doc[j])) by {
        if is_source_line(doc[j]) {
            assert(doc[j][0] == '-' && doc[j][0] == '+');
        }
    };
}

/// A hunk header that follows a source header with no target header in
/// between still finds no file pending: parsing halts with
/// `UnexpectedHunk`, carrying the header line.
pub proof fn lemma_unexpected_hunk_after_source(
    doc: Seq<Seq<char>>,
    s: int,
    i: int,
    files: Seq<FileModel>,
)
    requires
        0 <= s < i < doc.len(),
        is_source_line(doc[s]),
        parse_hunk_header(doc[i]) is Some,
        forall|k: int| 0 <= k < s ==> is_ignored_line(#[trigger] doc[k]),
        forall|k: int| s < k < i ==> is_ignored_line(#[trigger] doc[k]),
    ensures
        drive(doc, 0, None, None, files) == (crate::patch::ParseOutcome {
            files,
            error: Some(crate::model::ErrorModel::UnexpectedHunk(doc[i])),
        }),
{
    lemma_drive_skips_ignored(doc, 0, s, None, None, files);
    let src2 = Some(
        (crate::classify::header_filename(doc[s]), crate::classify::header_timestamp(doc[s])),
    );
    lemma_drive_skips_ignored(doc, s + 1, i, src2, None, files);
}

/// Two target headers after one source header, with only driver-ignored
/// lines in between, halt parsing with `TargetWithoutSource` carrying the
/// second target line: the first target opened a file that is still
/// pending when the second arrives.
pub proof fn lemma_second_target_rejected(
    doc: Seq<Seq<char>>,
    s: int,
    t1: int,
    t2: int,
    files: Seq<FileModel>,
)
    requires
        0 <= s < t1 < t2 < doc.len(),
        is_source_line(doc[s]),
        is_target_line(doc[t1]),
        is_target_line(doc[t2]),
        forall|k: int| 0 <= k < s ==> is_ignored_line(#[trigger] doc[k]),
        forall|k: int| s < k < t1 ==> is_ignored_line(#[trigger] doc[k]),
        forall|k: int| t1 < k < t2 ==> is_ignored_line(#[trigger] doc[k]),
    ensures
        drive(doc, 0, None, None, files) == (crate::patch::ParseOutcome {
            files,
            error: Some(crate::model::ErrorModel::TargetWithoutSource(doc[t2])),
        }),
{
    lemma_drive_skips_ignored(doc, 0, s, None, None, files);
    let src2 = Some(
        (crate::classify::header_filename(doc[s]), crate::classify::header_timestamp(doc[s])),
    );
    lemma_drive_skips_ignored(doc, s + 1, t1, src2, None, files);
    assert(!is_source_line(doc[t1])) by {
        if is_source_line(doc[t1]) {
            assert(doc[t1][0] == '-' && doc[t1][0] == '+');
        }
    };
    let opened = FileModel {
        source_file: (src2->0).0,
        source_timestamp: Some((src2->0).1),
        target_file: crate::classify::header_filename(doc[t1]),
        target_timestamp: Some(crate::classify::header_timestamp(doc[t1])),
        hunks: Seq::empty(),
    };
    lemma_target_while_pending(doc, t1 + 1, t2, src2, opened, files);
}

/// A decimal numeral printed by the renderer reads back as the number it
/// came from.
pub proof fn lemma_decimal_round_trip(n: int)
    requires
        n >= 0,
    ensures
        crate::text::digits_val(crate::render::dec_digits(n)) == n,
    decreases n,
{
    let s = crate::render::dec_digits(n);
    assert(s.len() > 0);
    assert(crate::text::digits_val(s) == crate::text::digits_val(s.drop_last()) * 10
        + crate::text::digit_of(s.last()));
    if n < 10 {
        lemma_digit_char_of(n);
        assert(s.drop_last() =~= Seq::<char>::empty());
        assert(crate::text::digits_val(Seq::<char>::empty()) == 0);
        assert(s.last() == crate::render::digit_char(n));
    } else {
        lemma_decimal_round_trip(n / 10);
        lemma_digit_char_of(n % 10);
        assert(s.drop_last() =~= crate::render::dec_digits(n / 10));
        assert(s.last() == crate::render::digit_char(n % 10));
    }
}

/// The digit characters carry their digit values.
proof fn lemma_digit_char_of(d: int)
    requires
        0 <= d <= 9,
    ensures
        crate::text::digit_of(crate::render::digit_char(d)) == d,
{
    assert('0' as u32 == 48);
    assert('1' as u32 == 49);
    assert('2' as u32 == 50);
    assert('3' as u32 == 51);
    assert('4' as u32 == 52);
    assert('5' as u32 == 53);
    assert('6' as u32 == 54);
    assert('7' as u32 == 55);
    assert('8' as u32 == 56);
    assert('9' as u32 == 57);
}

/// A rendered body line that is no no-newline marker and whose value does
/// not itself end in the marker text classifies back to exactly its type
/// and value: the per-line half of reparse fidelity.
pub proof fn lemma_render_line_round_trip(l: crate::model::LineModel)
    requires
        l.line_type != LineType::Empty,
        !crate::text::ends_with(l.value, crate::classify::no_newline_marker()),
    ensures
        classify_body(crate::render::render_line(l)) == Some((l.line_type, l.value)),
{
    reveal_strlit("\\ No newline at end of file");
    let m = crate::classify::no_newline_marker();
    let r = crate::render::render_line(l);
    assert(r.drop_first() =~= l.value);
    assert(!crate::text::ends_with(r, m)) by {
        if crate::text::ends_with(r, m) {
            if m.len() <= l.value.len() {
                assert(r.subrange(r.len() - m.len(), r.len() as int) =~= l.value.subrange(
                    l.value.len() - m.len(),
                    l.value.len() as int,
                ));
            } else {
                assert(r.len() == m.len());
                assert(r.subrange(0, r.len() as int) =~= r);
                assert(r[0] == m[0]);
            }
        }
    };
}

/// Every character of a rendered numeral is a digit.
proof fn lemma_dec_digits_are_digits(n: int)
    requires
        n >= 0,
    ensures
        forall|k: int|
            0 <= k < crate::render::dec_digits(n).len() ==> crate::text::is_digit(
                #[trigger] crate::render::dec_digits(n)[k],
            ),
        crate::render::dec_digits(n).len() >= 1,
    decreases n,
{
    if n >= 10 {
        lemma_dec_digits_are_digits(n / 10);
    }
}

/// A run of digits from `i` to `e`, bounded by a non-digit or the end,
/// is exactly what the digit scan finds.
proof fn lemma_scan_digits_run(l: Seq<char>, i: int, e: int)
    requires
        0 <= i <= e <= l.len(),
        forall|k: int| i <= k < e ==> crate::text::is_digit(#[trigger] l[k]),
        e == l.len() || !crate::text::is_digit(l[e]),
    ensures
        crate::text::scan_digits(l, i) == e,
    decreases e - i,
{
    if i < e {
        lemma_scan_digits_run(l, i + 1, e);
    }
}

/// The header line the renderer reconstructs for a hunk parses back to the
/// hunk's own extents and section text: the header half of reparse
/// fidelity.
pub proof fn lemma_render_header_round_trip(h: HunkModel)
    ensures
        ({
            let l = seq!['@', '@', ' ', '-'] + crate::render::dec_digits(h.source_start as int)
                + seq![','] + crate::render::dec_digits(h.source_length as int) + seq![' ', '+']
                + crate::render::dec_digits(h.target_start as int) + seq![',']
                + crate::render::dec_digits(h.target_length as int) + seq![' ', '@', '@', ' ']
                + h.section_header;
            parse_hunk_header(l) == Some(
                crate::classify::HunkHeaderModel {
                    source_start: h.source_start as int,
                    source_length: h.source_length as int,
                    target_start: h.target_start as int,
                    target_length: h.target_length as int,
                    section: h.section_header,
                },
            )
        }),
{
    let dss = crate::render::dec_digits(h.source_start as int);
    let dsl = crate::render::dec_digits(h.source_length as int);
    let dts = crate::render::dec_digits(h.target_start as int);
    let dtl = crate::render::dec_digits(h.target_length as int);
    let l = seq!['@', '@', ' ', '-'] + dss + seq![','] + dsl + seq![' ', '+'] + dts + seq![',']
        + dtl + seq![' ', '@', '@', ' '] + h.section_header;
    lemma_dec_digits_are_digits(h.source_start as int);
    lemma_dec_digits_are_digits(h.source_length as int);
    lemma_dec_digits_are_digits(h.target_start as int);
    lemma_dec_digits_are_digits(h.target_length as int);
    let p1 = 4 + dss.len() as int;
    let p2 = p1 + 1 + dsl.len() as int;
    let p3 = p2 + 2 + dts.len() as int;
    let q = p3 + 1 + dtl.len() as int;
    assert(l.len() == q + 4 + h.section_header.len());
    assert(forall|k: int| 4 <= k < p1 ==> #[trigger] l[k] == dss[k - 4]);
    assert(forall|k: int| p1 + 1 <= k < p2 ==> #[trigger] l[k] == dsl[k - (p1 + 1)]);
    assert(forall|k: int| p2 + 2 <= k < p3 ==> #[trigger] l[k] == dts[k - (p2 + 2)]);
    assert(forall|k: int| p3 + 1 <= k < q ==> #[trigger] l[k] == dtl[k - (p3 + 1)]);
    assert(l[0] == '@' && l[1] == '@' && l[2] == ' ' && l[3] == '-');
    assert(l[p1] == ',' && l[p2] == ' ' && l[p2 + 1] == '+' && l[p3] == ',');
    assert(l[q] == ' ' && l[q + 1] == '@' && l[q + 2] == '@' && l[q + 3] == ' ');
    lemma_scan_digits_run(l, 4, p1);
    lemma_scan_digits_run(l, p1 + 1, p2);
    lemma_scan_digits_run(l, p2 + 2, p3);
    lemma_scan_digits_run(l, p3 + 1, q);
    assert(crate::classify::opt_len_end(l, p1) == p2);
    assert(crate::classify::opt_len_end(l, p3) == q);
    assert(l.subrange(4, p1) =~= dss);
    assert(l.subrange(p1 + 1, p2) =~= dsl);
    assert(l.subrange(p2 + 2, p3) =~= dts);
    assert(l.subrange(p3 + 1, q) =~= dtl);
    lemma_decimal_round_trip(h.source_start as int);
    lemma_decimal_round_trip(h.source_length as int);
    lemma_decimal_round_trip(h.target_start as int);
    lemma_decimal_round_trip(h.target_length as int);
    assert(crate::classify::opt_len_val(l, p1) == h.source_length as int);
    assert(crate::classify::opt_len_val(l, p3) == h.target_length as int);
    assert(crate::classify::section_start(l, q) == q + 4);
    assert(l.subrange(q + 4, l.len() as int) =~= h.section_header);
}

/// The piece can stand as one line of a document: it holds no newline and
/// does not end in a carriage return.
pub open spec fn line_clean(p: Seq<char>) -> bool {
    &&& forall|k: int| 0 <= k < p.len() ==> p[k] != '\n'
    &&& (p.len() == 0 || p.last() != '\r')
}

/// Joining from the front: for two or more pieces, the first piece, a
/// newline, and the joined rest.
proof fn lemma_join_front(pieces: Seq<Seq<char>>)
    requires
        pieces.len() >= 2,
    ensures
        crate::render::join_newline(pieces) == pieces[0] + seq!['\n'] + crate::render::join_newline(
            pieces.drop_first(),
        ),
    decreases pieces.len(),
{
    reveal_with_fuel(crate::render::join_newline, 3);
    if pieces.len() == 2 {
        assert(pieces.drop_last() =~= seq![pieces[0]]);
        assert(pieces.drop_first() =~= seq![pieces[1]]);
        assert(crate::render::join_newline(pieces) =~= pieces[0] + seq!['\n']
            + crate::render::join_newline(pieces.drop_first()));
    } else {
        let dl = pieces.drop_last();
        let df = pieces.drop_first();
        lemma_join_front(dl);
        assert(crate::render::join_newline(pieces) == crate::render::join_newline(dl)
            + seq!['\n'] + pieces.last());
        assert(crate::render::join_newline(df) == crate::render::join_newline(df.drop_last())
            + seq!['\n'] + df.last());
        assert(dl[0] == pieces[0]);
        assert(dl.drop_first() =~= df.drop_last());
        assert(df.last() == pieces.last());
        assert(crate::render::join_newline(pieces) =~= pieces[0] + seq!['\n']
            + crate::render::join_newline(df));
    }
}

/// The line splitter walks over newline-free text unchanged, gathering it
/// into the current line.
proof fn lemma_split_gathers_clean(cur: Seq<char>, a: Seq<char>, b: Seq<char>)
    requires
        forall|k: int| 0 <= k < a.len() ==> a[k] != '\n',
    ensures
        crate::text::split_rec(cur, a + b) == crate::text::split_rec(cur + a, b),
    decreases a.len(),
{
    if a.len() == 0 {
        assert(a + b =~= b);
        assert(cur + a =~= cur);
    } else {
        assert((a + b)[0] == a[0]);
        assert((a + b).drop_first() =~= a.drop_first() + b);
        assert(cur.push(a[0]) + a.drop_first() =~= cur + a);
        lemma_split_gathers_clean(cur.push(a[0]), a.drop_first(), b);
    }
}

/// Splitting undoes joining: pieces that can each stand as one line, the
/// last one nonempty, joined with newlines and split again, come back
/// exactly. This is the line-structure half of reparse fidelity.
pub proof fn lemma_join_split_inverse(pieces: Seq<Seq<char>>)
    requires
        forall|i: int| 0 <= i < pieces.len() ==> line_clean(#[trigger] pieces[i]),
        pieces.len() > 0 ==> pieces.last().len() > 0,
    ensures
        crate::text::spec_lines(crate::render::join_newline(pieces)) == pieces,
    decreases pieces.len(),
{
    let joined = crate::render::join_newline(pieces);
    if pieces.len() == 0 {
        assert(crate::text::spec_lines(joined) =~= pieces);
    } else if pieces.len() == 1 {
        assert(joined == pieces[0]);
        assert(joined + Seq::<char>::empty() =~= joined);
        lemma_split_gathers_clean(Seq::empty(), joined, Seq::empty());
        assert(Seq::<char>::empty() + joined =~= joined);
        assert(crate::text::spec_lines(joined) =~= pieces);
    } else {
        lemma_join_front(pieces);
        let rest = crate::render::join_newline(pieces.drop_first());
        assert(joined =~= pieces[0] + (seq!['\n'] + rest));
        lemma_split_gathers_clean(Seq::empty(), pieces[0], seq!['\n'] + rest);
        assert(Seq::<char>::empty() + pieces[0] =~= pieces[0]);
        assert((seq!['\n'] + rest)[0] == '\n');
        assert((seq!['\n'] + rest).drop_first() =~= rest);
        assert(crate::text::drop_cr(pieces[0]) == pieces[0]);
        assert(pieces.drop_first().last() == pieces.last());
        lemma_join_split_inverse(pieces.drop_first());
        assert(crate::text::spec_lines(joined) =~= seq![pieces[0]] + pieces.drop_first());
        assert(seq![pieces[0]] + pieces.drop_first() =~= pieces);
    }
}

/// A file one of whose hunks declares source extents `0,0` is classified
/// as added exactly when that hunk is its only one.
pub proof fn lemma_added_iff_only_hunk(f: FileModel, i: int)
    requires
        0 <= i < f.hunks.len(),
        f.hunks[i].source_start == 0,
        f.hunks[i].source_length == 0,
    ensures
        spec_is_added_file(f) <==> f.hunks.len() == 1,
{
}

/// A file one of whose hunks declares target extents `0,0` is classified
/// as removed exactly when that hunk is its only one.
pub proof fn lemma_removed_iff_only_hunk(f: FileModel, i: int)
    requires
        0 <= i < f.hunks.len(),
        f.hunks[i].target_start == 0,
        f.hunks[i].target_length == 0,
    ensures
        spec_is_removed_file(f) <==> f.hunks.len() == 1,
{
}

// ---------------------------------------------------------------------------
// Reparse of a rendered file
// ---------------------------------------------------------------------------
/// The body line reprints and reads back as itself: not a no-newline
/// marker, no marker suffix hidden in the value, printable as one line,
/// and meaning nothing to the driver when rescanned.
pub open spec fn clean_body_line(lm: crate::model::LineModel) -> bool {
    &&& lm.line_type != LineType::Empty
    &&& !crate::text::ends_with(lm.value, crate::classify::no_newline_marker())
    &&& line_clean(crate::render::render_line(lm))
    &&& is_ignored_line(crate::render::render_line(lm))
}

/// The body lines consume the owed extents exactly, each one clean, and
/// nothing is left owed at the end.
pub open spec fn exact_body(lines: Seq<crate::model::LineModel>, j: int, ds: int, dt: int) -> bool
    decreases lines.len() - j,
{
    if j < 0 || j >= lines.len() {
        ds == 0 && dt == 0
    } else {
        let t = lines[j].line_type;
        &&& clean_body_line(lines[j])
        &&& if t == LineType::Context {
            ds >= 1 && dt >= 1 && exact_body(lines, j + 1, ds - 1, dt - 1)
        } else if t == LineType::Removed {
            ds >= 1 && exact_body(lines, j + 1, ds - 1, dt)
        } else if t == LineType::Added {
            dt >= 1 && exact_body(lines, j + 1, ds, dt - 1)
        } else {
            false
        }
    }
}

/// The hunk reprints as a header line and body lines that parse back: a
/// well-formed hunk whose extents fit the machine and are met exactly by
/// clean body lines.
pub open spec fn reprintable_hunk(h: HunkModel) -> bool {
    &&& hunk_wf(h)
    &&& line_clean(h.section_header)
    &&& h.source_start + h.source_length <= usize::MAX
    &&& h.target_start + h.target_length <= usize::MAX
    &&& h.source_length + h.target_length >= 1
    &&& h.lines.len() >= 1
    &&& exact_body(h.lines, 0, h.source_length as int, h.target_length as int)
}

/// The file reprints as a document that parses again: printable names that
/// read back as headers, and reprintable hunks.
pub open spec fn reprintable_file(f: FileModel) -> bool {
    &&& f.source_file.len() >= 1 && f.source_file[0] != '\t' && line_clean(f.source_file)
    &&& f.target_file.len() >= 1 && f.target_file[0] != '\t' && line_clean(f.target_file)
    &&& f.hunks.len() >= 1
    &&& forall|k: int| 0 <= k < f.hunks.len() ==> reprintable_hunk(#[trigger] f.hunks[k])
}

/// Two printable pieces concatenate to a printable piece.
proof fn lemma_line_clean_concat(a: Seq<char>, b: Seq<char>)
    requires
        line_clean(a),
        line_clean(b),
    ensures
        line_clean(a + b),
{
    assert forall|m: int| 0 <= m < (a + b).len() implies (a + b)[m] != '\n' by {
        if m < a.len() {
            assert((a + b)[m] == a[m]);
        } else {
            assert((a + b)[m] == b[m - a.len()]);
        }
    }
    if b.len() > 0 {
        assert((a + b).last() == b.last());
    } else if a.len() > 0 {
        assert(a + b =~= a);
    }
}

/// A rendered numeral is printable as part of one line.
proof fn lemma_digits_clean(n: int)
    requires
        n >= 0,
    ensures
        line_clean(crate::render::dec_digits(n)),
{
    lemma_dec_digits_are_digits(n);
    let d = crate::render::dec_digits(n);
    assert forall|m: int| 0 <= m < d.len() implies d[m] != '\n' by {
        assert(crate::text::is_digit(d[m]));
    }
    assert(crate::text::is_digit(d.last()));
    assert(d.last() != '\r');
}

/// A reprinted hunk header stands as one printable line.
proof fn lemma_header_line_clean(h: HunkModel)
    requires
        line_clean(h.section_header),
    ensures
        line_clean(
            seq!['@', '@', ' ', '-'] + crate::render::dec_digits(h.source_start as int)
                + seq![','] + crate::render::dec_digits(h.source_length as int) + seq![' ', '+']
                + crate::render::dec_digits(h.target_start as int) + seq![',']
                + crate::render::dec_digits(h.target_length as int) + seq![' ', '@', '@', ' ']
                + h.section_header,
        ),
{
    let l1 = seq!['@', '@', ' ', '-'];
    let l2 = seq![','];
    let l3 = seq![' ', '+'];
    let l4 = seq![' ', '@', '@', ' '];
    assert(line_clean(l1) && line_clean(l2) && line_clean(l3) && line_clean(l4));
    lemma_digits_clean(h.source_start as int);
    lemma_digits_clean(h.source_length as int);
    lemma_digits_clean(h.target_start as int);
    lemma_digits_clean(h.target_length as int);
    lemma_line_clean_concat(l1, crate::render::dec_digits(h.source_start as int));
    lemma_line_clean_concat(l1 + crate::render::dec_digits(h.source_start as int), l2);
    let t2 = l1 + crate::render::dec_digits(h.source_start as int) + l2;
    lemma_line_clean_concat(t2, crate::render::dec_digits(h.source_length as int));
    lemma_line_clean_concat(t2 + crate::render::dec_digits(h.source_length as int), l3);
    let t3 = t2 + crate::render::dec_digits(h.source_length as int) + l3;
    lemma_line_clean_concat(t3, crate::render::dec_digits(h.target_start as int));
    lemma_line_clean_concat(t3 + crate::render::dec_digits(h.target_start as int), l2);
    let t4 = t3 + crate::render::dec_digits(h.target_start as int) + l2;
    lemma_line_clean_concat(t4, crate::render::dec_digits(h.target_length as int));
    lemma_line_clean_concat(t4 + crate::render::dec_digits(h.target_length as int), l4);
    let t5 = t4 + crate::render::dec_digits(h.target_length as int) + l4;
    lemma_line_clean_concat(t5, h.section_header);
}

/// The header line a hunk reprints as.
pub open spec fn header_line_of(h: HunkModel) -> Seq<char> {
    seq!['@', '@', ' ', '-'] + crate::render::dec_digits(h.source_start as int) + seq![',']
        + crate::render::dec_digits(h.source_length as int) + seq![' ', '+']
        + crate::render::dec_digits(h.target_start as int) + seq![',']
        + crate::render::dec_digits(h.target_length as int) + seq![' ', '@', '@', ' ']
        + h.section_header
}

/// The lines one reprinted hunk splits back into: its header line and its
/// rendered body lines.
pub open spec fn hunk_lines(h: HunkModel) -> Seq<Seq<char>> {
    seq![header_line_of(h)] + h.lines.map_values(
        |lm: crate::model::LineModel| crate::render::render_line(lm),
    )
}

/// The lines a run of reprinted hunks splits back into.
pub open spec fn hunks_lines(hs: Seq<HunkModel>) -> Seq<Seq<char>>
    decreases hs.len(),
{
    if hs.len() == 0 {
        Seq::empty()
    } else {
        hunk_lines(hs[0]) + hunks_lines(hs.drop_first())
    }
}

/// The lines a reprinted file splits back into: its two header lines, then
/// each hunk's header line and body lines.
pub open spec fn reprinted_lines(f: FileModel) -> Seq<Seq<char>> {
    seq![seq!['-', '-', '-', ' '] + f.source_file, seq!['+', '+', '+', ' '] + f.target_file]
        + hunks_lines(f.hunks)
}

/// Joining two runs of pieces joins them around one newline.
proof fn lemma_join_concat(xs: Seq<Seq<char>>, ys: Seq<Seq<char>>)
    requires
        xs.len() >= 1,
        ys.len() >= 1,
    ensures
        crate::render::join_newline(xs + ys) == crate::render::join_newline(xs) + seq!['\n']
            + crate::render::join_newline(ys),
    decreases ys.len(),
{
    reveal_with_fuel(crate::render::join_newline, 3);
    if ys.len() == 1 {
        assert((xs + ys).drop_last() =~= xs);
        assert((xs + ys).last() == ys[0]);
        assert(crate::render::join_newline(xs + ys) =~= crate::render::join_newline(xs)
            + seq!['\n'] + crate::render::join_newline(ys));
    } else {
        lemma_join_concat(xs, ys.drop_last());
        assert((xs + ys).drop_last() =~= xs + ys.drop_last());
        assert((xs + ys).last() == ys.last());
        assert(crate::render::join_newline(xs + ys) =~= crate::render::join_newline(xs)
            + seq!['\n'] + crate::render::join_newline(ys));
    }
}

/// One reprinted hunk's text is its lines joined with newlines.
proof fn lemma_hunk_render_lines(h: HunkModel)
    requires
        h.lines.len() >= 1,
    ensures
        crate::render::render_hunk(h) == crate::render::join_newline(hunk_lines(h)),
{
    let body = h.lines.map_values(|lm: crate::model::LineModel| crate::render::render_line(lm));
    assert(body =~= h.lines.map_values(
        |l: crate::model::LineModel| crate::render::render_line(l),
    ));
    lemma_join_front(hunk_lines(h));
    assert(hunk_lines(h).drop_first() =~= body);
    assert(hunk_lines(h)[0] == header_line_of(h));
    assert(crate::render::render_hunk(h) =~= crate::render::join_newline(hunk_lines(h)));
}

/// A run of reprinted hunks' texts, joined with newlines, is the joined
/// flat line list of the run.
proof fn lemma_hunks_render_lines(hs: Seq<HunkModel>)
    requires
        hs.len() >= 1,
        forall|k: int| 0 <= k < hs.len() ==> (#[trigger] hs[k]).lines.len() >= 1,
    ensures
        crate::render::join_newline(
            hs.map_values(|x: HunkModel| crate::render::render_hunk(x)),
        ) == crate::render::join_newline(hunks_lines(hs)),
        hunks_lines(hs).len() >= 2,
    decreases hs.len(),
{
    let m = hs.map_values(|x: HunkModel| crate::render::render_hunk(x));
    lemma_hunk_render_lines(hs[0]);
    if hs.len() == 1 {
        assert(m =~= seq![crate::render::render_hunk(hs[0])]);
        assert(crate::render::join_newline(m) == crate::render::render_hunk(hs[0]));
        assert(hunks_lines(hs.drop_first()) =~= Seq::<Seq<char>>::empty());
        assert(hunks_lines(hs) =~= hunk_lines(hs[0]));
    } else {
        let rest = hs.drop_first();
        assert(forall|k: int|
            0 <= k < rest.len() ==> (#[trigger] rest[k]).lines.len() >= 1) by {
            assert(forall|k: int| 0 <= k < rest.len() ==> rest[k] == hs[k + 1]);
        };
        lemma_hunks_render_lines(rest);
        lemma_join_front(m);
        assert(m[0] == crate::render::render_hunk(hs[0]));
        assert(m.drop_first() =~= rest.map_values(|x: HunkModel| crate::render::render_hunk(x)));
        lemma_join_concat(hunk_lines(hs[0]), hunks_lines(rest));
        assert(crate::render::join_newline(m) == crate::render::join_newline(hunks_lines(hs)));
    }
}

/// A reprintable file's rendering is exactly its lines joined with
/// newlines.
proof fn lemma_render_file_lines(f: FileModel)
    requires
        reprintable_file(f),
    ensures
        crate::render::render_file(f) == crate::render::join_newline(reprinted_lines(f)),
{
    let pieces = reprinted_lines(f);
    assert(f.hunks.map_values(|x: HunkModel| crate::render::render_hunk(x)) =~= f.hunks.map_values(
        |h: HunkModel| crate::render::render_hunk(h),
    ));
    lemma_hunks_render_lines(f.hunks);
    lemma_join_front(pieces);
    assert(pieces.drop_first() =~= seq![pieces[1]] + hunks_lines(f.hunks));
    lemma_join_front(pieces.drop_first());
    assert(pieces.drop_first().drop_first() =~= hunks_lines(f.hunks));
    assert(pieces.drop_first()[0] == pieces[1]);
    assert(crate::render::render_file(f) =~= crate::render::join_newline(pieces));
}

/// Each line a reprintable hunk reprints as is printable, and the last is
/// nonempty.
proof fn lemma_hunk_lines_facts(h: HunkModel)
    requires
        reprintable_hunk(h),
    ensures
        hunk_lines(h).len() == 1 + h.lines.len(),
        forall|p: int| 0 <= p < hunk_lines(h).len() ==> line_clean(#[trigger] hunk_lines(h)[p]),
        hunk_lines(h).last().len() > 0,
{
    lemma_header_line_clean(h);
    lemma_exact_body_clean(h.lines, 0, h.source_length as int, h.target_length as int);
    assert forall|p: int| 0 <= p < hunk_lines(h).len() implies line_clean(
        #[trigger] hunk_lines(h)[p],
    ) by {
        if p >= 1 {
            assert(hunk_lines(h)[p] == crate::render::render_line(h.lines[p - 1]));
            assert(clean_body_line(h.lines[p - 1]));
        }
    }
    assert(hunk_lines(h).last() == crate::render::render_line(h.lines.last()));
    assert(clean_body_line(h.lines.last()));
}

/// Each line a run of reprintable hunks reprints as is printable, and the
/// last is nonempty.
proof fn lemma_hunks_lines_facts(hs: Seq<HunkModel>)
    requires
        hs.len() >= 1,
        forall|k: int| 0 <= k < hs.len() ==> reprintable_hunk(#[trigger] hs[k]),
    ensures
        hunks_lines(hs).len() >= 2,
        forall|p: int| 0 <= p < hunks_lines(hs).len() ==> line_clean(#[trigger] hunks_lines(hs)[p]),
        hunks_lines(hs).last().len() > 0,
    decreases hs.len(),
{
    lemma_hunk_lines_facts(hs[0]);
    let rest = hs.drop_first();
    if hs.len() == 1 {
        assert(hunks_lines(rest) =~= Seq::<Seq<char>>::empty());
        assert(hunks_lines(hs) =~= hunk_lines(hs[0]));
    } else {
        assert(forall|k: int| 0 <= k < rest.len() ==> rest[k] == hs[k + 1]);
        lemma_hunks_lines_facts(rest);
        assert forall|p: int| 0 <= p < hunks_lines(hs).len() implies line_clean(
            #[trigger] hunks_lines(hs)[p],
        ) by {
            if p < hunk_lines(hs[0]).len() {
                assert(hunks_lines(hs)[p] == hunk_lines(hs[0])[p]);
            } else {
                assert(hunks_lines(hs)[p] == hunks_lines(rest)[p - hunk_lines(hs[0]).len()]);
            }
        }
        assert(hunks_lines(hs).last() == hunks_lines(rest).last());
    }
}

/// The driver, standing just before a run of reprinted hunks with a file
/// pending, builds one hunk per reprinted hunk — each reproducing its
/// hunk's counters and line count — and finalizes the file at the end of
/// input.
#[verifier::rlimit(80)]
proof fn lemma_drive_hunk_run(
    pieces: Seq<Seq<char>>,
    pos: int,
    rem: Seq<HunkModel>,
    src: Option<(Seq<char>, Seq<char>)>,
    fcur: FileModel,
    files: Seq<FileModel>,
)
    requires
        0 <= pos <= pieces.len(),
        pieces.skip(pos) == hunks_lines(rem),
        forall|k: int| 0 <= k < rem.len() ==> reprintable_hunk(#[trigger] rem[k]),
    ensures
        ({
            let out = drive(pieces, pos, src, Some(fcur), files);
            &&& out.error is None
            &&& out.files.len() == files.len() + 1
            &&& out.files.drop_last() == files
            &&& out.files.last().hunks.len() == fcur.hunks.len() + rem.len()
            &&& out.files.last().hunks.take(fcur.hunks.len() as int) == fcur.hunks
            &&& forall|k: int|
                0 <= k < rem.len() ==> {
                    let b = #[trigger] out.files.last().hunks[fcur.hunks.len() + k];
                    b.added == rem[k].added && b.removed == rem[k].removed && b.lines.len()
                        == rem[k].lines.len()
                }
        }),
    decreases rem.len(),
{
    reveal_with_fuel(drive, 2);
    if rem.len() == 0 {
        assert(pieces.skip(pos).len() == 0);
        assert(pos == pieces.len());
        assert(files.push(fcur).drop_last() =~= files);
        assert(fcur.hunks.take(fcur.hunks.len() as int) =~= fcur.hunks);
    } else {
        let h = rem[0];
        let hl = hunk_lines(h);
        let rest = rem.drop_first();
        assert(forall|k: int| 0 <= k < rest.len() ==> rest[k] == rem[k + 1]);
        let lcount = h.lines.len() as int;
        assert(hunks_lines(rem) == hl + hunks_lines(rest));
        assert(pieces[pos] == header_line_of(h)) by {
            assert(pieces.skip(pos)[0] == pieces[pos]);
            assert((hl + hunks_lines(rest))[0] == hl[0]);
        };
        assert forall|k: int| 0 <= k < lcount implies pieces[pos + 1 + k]
            == crate::render::render_line(#[trigger] h.lines[k]) by {
            assert(pieces.skip(pos)[1 + k] == pieces[pos + 1 + k]);
            assert((hl + hunks_lines(rest))[1 + k] == hl[1 + k]);
        }
        // the header line reads back as the hunk's extents
        lemma_render_header_round_trip(h);
        let hdr = pieces[pos];
        assert(hdr[0] == '@');
        assert(!is_source_line(hdr) && !is_target_line(hdr));
        let hh = parse_hunk_header(hdr)->0;
        assert(crate::classify::header_fits(hh));
        // the hunk builder reproduces the counters
        let ss = hh.source_start as usize;
        let ts = hh.target_start as usize;
        let se = (hh.source_start + hh.source_length) as usize;
        let te = (hh.target_start + hh.target_length) as usize;
        assert(se - ss == h.source_length && te - ts == h.target_length);
        assert(h.lines.skip(0) =~= h.lines);
        lemma_build_rendered_counts(
            pieces,
            pos + 1,
            h.lines,
            0,
            crate::patch::init_hunk(hh),
            ss,
            ts,
            se,
            te,
        );
        let h2 = build_hunk(pieces, pos + 1, crate::patch::init_hunk(hh), ss, ts, se, te)->Ok_0;
        assert(hunk_outcome(pieces, pos + 1, hh) is Ok);
        let fcur2 = FileModel { hunks: fcur.hunks.push(h2), ..fcur };
        assert(drive(pieces, pos, src, Some(fcur), files) == drive(
            pieces,
            pos + 1,
            src,
            Some(fcur2),
            files,
        ));
        // the driver rescans the body lines and ignores them
        lemma_exact_body_clean(h.lines, 0, h.source_length as int, h.target_length as int);
        assert forall|k: int| pos + 1 <= k < pos + 1 + lcount implies is_ignored_line(
            #[trigger] pieces[k],
        ) by {
            assert(pieces[k] == crate::render::render_line(h.lines[k - (pos + 1)]));
            assert(clean_body_line(h.lines[k - (pos + 1)]));
        }
        lemma_drive_skips_ignored(pieces, pos + 1, pos + 1 + lcount, src, Some(fcur2), files);
        // the rest of the run follows
        let pos2 = pos + 1 + lcount;
        assert(pieces.skip(pos2) =~= hunks_lines(rest)) by {
            assert(pieces.skip(pos).len() == hl.len() + hunks_lines(rest).len());
            assert forall|q: int| 0 <= q < pieces.skip(pos2).len() implies pieces.skip(pos2)[q]
                == hunks_lines(rest)[q] by {
                assert(pieces.skip(pos2)[q] == pieces[pos2 + q]);
                assert(pieces.skip(pos)[1 + lcount + q] == pieces[pos2 + q]);
                assert((hl + hunks_lines(rest))[1 + lcount + q] == hunks_lines(rest)[q]);
            }
        };
        lemma_drive_hunk_run(pieces, pos2, rest, src, fcur2, files);
        // the built hunks line up: the one just built, then the rest
        let out = drive(pieces, pos, src, Some(fcur), files);
        let g = out.files.last();
        assert(g.hunks.take(fcur2.hunks.len() as int) == fcur2.hunks);
        assert(g.hunks.take(fcur.hunks.len() as int) =~= fcur.hunks) by {
            assert forall|i: int| 0 <= i < fcur.hunks.len() implies g.hunks.take(
                fcur.hunks.len() as int,
            )[i] == fcur.hunks[i] by {
                assert(g.hunks[i] == g.hunks.take(fcur2.hunks.len() as int)[i]);
                assert(fcur2.hunks[i] == fcur.hunks[i]);
            }
        };
        assert forall|k: int| 0 <= k < rem.len() implies {
            let b = #[trigger] g.hunks[fcur.hunks.len() + k];
            b.added == rem[k].added && b.removed == rem[k].removed && b.lines.len()
                == rem[k].lines.len()
        } by {
            if k == 0 {
                assert(g.hunks[fcur.hunks.len() as int] == g.hunks.take(
                    fcur2.hunks.len() as int,
                )[fcur.hunks.len() as int]);
                assert(g.hunks[fcur.hunks.len() as int] == h2);
            } else {
                assert(g.hunks[fcur2.hunks.len() + (k - 1)] == g.hunks[fcur.hunks.len() + k]);
                assert(rest[k - 1] == rem[k]);
            }
        }
    }
}

/// Reparse of one reprinted file: for a reprintable file, parsing the
/// rendered text succeeds, leaves the files already held untouched, and
/// adds exactly one file whose hunks reproduce, one for one, the original
/// hunks' line counts and added/removed counters. The composed single-file
/// record of reparse fidelity.
#[verifier::rlimit(60)]
pub proof fn theorem_single_file_reparse(f: FileModel, pre: Seq<FileModel>)
    requires
        reprintable_file(f),
    ensures
        ({
            let out = drive(
                crate::text::spec_lines(crate::render::render_file(f)),
                0,
                None,
                None,
                pre,
            );
            &&& out.error is None
            &&& out.files.len() == pre.len() + 1
            &&& out.files.drop_last() == pre
            &&& out.files.last().hunks.len() == f.hunks.len()
            &&& forall|k: int|
                0 <= k < f.hunks.len() ==> {
                    let b = #[trigger] out.files.last().hunks[k];
                    b.added == f.hunks[k].added && b.removed == f.hunks[k].removed
                        && b.lines.len() == f.hunks[k].lines.len()
                }
        }),
{
    reveal_with_fuel(drive, 2);
    let pieces = reprinted_lines(f);
    lemma_render_file_lines(f);
    lemma_hunks_lines_facts(f.hunks);
    // every piece stands as one line, the last one nonempty
    let lit_src = seq!['-', '-', '-', ' '];
    let lit_tgt = seq!['+', '+', '+', ' '];
    assert(line_clean(lit_src) && line_clean(lit_tgt));
    lemma_line_clean_concat(lit_src, f.source_file);
    lemma_line_clean_concat(lit_tgt, f.target_file);
    assert forall|i: int| 0 <= i < pieces.len() implies line_clean(#[trigger] pieces[i]) by {
        if i >= 2 {
            assert(pieces[i] == hunks_lines(f.hunks)[i - 2]);
        }
    }
    assert(pieces.last() == hunks_lines(f.hunks).last());
    lemma_join_split_inverse(pieces);
    // the two file headers read back as themselves
    assert(is_source_line(pieces[0])) by {
        assert(pieces[0][0] == '-' && pieces[0][1] == '-' && pieces[0][2] == '-' && pieces[0][3]
            == ' ');
        assert(pieces[0][4] == f.source_file[0]);
        assert(f.source_file[0] != '\n');
    };
    assert(!is_target_line(pieces[0]) && parse_hunk_header(pieces[0]) is None);
    assert(is_target_line(pieces[1])) by {
        assert(pieces[1][0] == '+' && pieces[1][1] == '+' && pieces[1][2] == '+' && pieces[1][3]
            == ' ');
        assert(pieces[1][4] == f.target_file[0]);
        assert(f.target_file[0] != '\n');
    };
    assert(!is_source_line(pieces[1]) && parse_hunk_header(pieces[1]) is None);
    // walk the driver over the two header lines, then the hunk run
    let src2 = Some(
        (crate::classify::header_filename(pieces[0]), crate::classify::header_timestamp(pieces[0])),
    );
    let f2 = FileModel {
        source_file: (src2->0).0,
        source_timestamp: Some((src2->0).1),
        target_file: crate::classify::header_filename(pieces[1]),
        target_timestamp: Some(crate::classify::header_timestamp(pieces[1])),
        hunks: Seq::empty(),
    };
    assert(drive(pieces, 0, None, None, pre) == drive(pieces, 1, src2, None, pre));
    assert(drive(pieces, 1, src2, None, pre) == drive(pieces, 2, src2, Some(f2), pre));
    assert(pieces.skip(2) =~= hunks_lines(f.hunks));
    lemma_drive_hunk_run(pieces, 2, f.hunks, src2, f2, pre);
    assert(crate::text::spec_lines(crate::render::render_file(f)) == pieces);
    let outp = drive(pieces, 2, src2, Some(f2), pre);
    assert(f2.hunks.len() == 0);
    assert forall|k: int| 0 <= k < f.hunks.len() implies {
        let b = #[trigger] outp.files.last().hunks[k];
        b.added == f.hunks[k].added && b.removed == f.hunks[k].removed && b.lines.len()
            == f.hunks[k].lines.len()
    } by {
        assert(outp.files.last().hunks[f2.hunks.len() + k].added == f.hunks[k].added
            && outp.files.last().hunks[f2.hunks.len() + k].removed == f.hunks[k].removed
            && outp.files.last().hunks[f2.hunks.len() + k].lines.len()
            == f.hunks[k].lines.len());
    }
}

/// Type counts split over a concatenation.
proof fn lemma_count_type_concat(
    a: Seq<crate::model::LineModel>,
    b: Seq<crate::model::LineModel>,
    t: LineType,
)
    ensures
        count_type(a + b, t) == count_type(a, t) + count_type(b, t),
    decreases b.len(),
{
    if b.len() == 0 {
        assert(a + b =~= a);
    } else {
        assert((a + b).drop_last() =~= a + b.drop_last());
        lemma_count_type_concat(a, b.drop_last(), t);
    }
}

/// Building a hunk from an exactly consumed rendered body succeeds and
/// adds one line per body line, with the type counts of the body.
proof fn lemma_build_rendered_counts(
    pieces: Seq<Seq<char>>,
    off: int,
    lines: Seq<crate::model::LineModel>,
    j: int,
    acc: HunkModel,
    sc: usize,
    tc: usize,
    se: usize,
    te: usize,
)
    requires
        0 <= off,
        off + lines.len() <= pieces.len(),
        forall|k: int|
            0 <= k < lines.len() ==> pieces[off + k] == crate::render::render_line(
                #[trigger] lines[k],
            ),
        0 <= j <= lines.len(),
        exact_body(lines, j, se - sc, te - tc),
        se - sc + te - tc >= 1,
        sc <= se,
        tc <= te,
        acc.added + count_type(lines.skip(j), LineType::Added) <= usize::MAX,
        acc.removed + count_type(lines.skip(j), LineType::Removed) <= usize::MAX,
    ensures
        ({
            let r = build_hunk(pieces, off + j, acc, sc, tc, se, te);
            &&& r is Ok
            &&& r->Ok_0.added == acc.added + count_type(lines.skip(j), LineType::Added)
            &&& r->Ok_0.removed == acc.removed + count_type(lines.skip(j), LineType::Removed)
            &&& r->Ok_0.lines.len() == acc.lines.len() + lines.len() - j
        }),
    decreases lines.len() - j,
{
    reveal_with_fuel(count_type, 2);
    crate::model::count_type_bounds(lines.skip(j), LineType::Added);
    crate::model::count_type_bounds(lines.skip(j), LineType::Removed);
    if j == lines.len() {
        // an exactly consumed body never runs out before the extents are met
        assert(false);
    } else {
        let lm = lines[j];
        lemma_render_line_round_trip(lm);
        assert(pieces[off + j] == crate::render::render_line(lm));
        let t = lm.line_type;
        assert(lines.skip(j) =~= seq![lm] + lines.skip(j + 1));
        lemma_count_type_concat(seq![lm], lines.skip(j + 1), LineType::Added);
        lemma_count_type_concat(seq![lm], lines.skip(j + 1), LineType::Removed);
        assert(seq![lm].drop_last() =~= Seq::<crate::model::LineModel>::empty());
        assert(count_type(seq![lm], LineType::Added) == (if t == LineType::Added {
            1int
        } else {
            0int
        }));
        assert(count_type(seq![lm], LineType::Removed) == (if t == LineType::Removed {
            1int
        } else {
            0int
        }));
        crate::model::count_type_bounds(lines.skip(j + 1), LineType::Added);
        crate::model::count_type_bounds(lines.skip(j + 1), LineType::Removed);
        let consumes_source = t == LineType::Removed || t == LineType::Context;
        let consumes_target = t == LineType::Added || t == LineType::Context;
        let sc2 = if consumes_source {
            crate::text::sat_inc(sc)
        } else {
            sc
        };
        let tc2 = if consumes_target {
            crate::text::sat_inc(tc)
        } else {
            tc
        };
        if consumes_source {
            assert(sc < se <= usize::MAX);
            assert(sc2 == sc + 1);
        }
        if consumes_target {
            assert(tc < te <= usize::MAX);
            assert(tc2 == tc + 1);
        }
        let lm2 = crate::model::LineModel {
            source_line_no: if consumes_source {
                Some(sc)
            } else {
                None
            },
            target_line_no: if consumes_target {
                Some(tc)
            } else {
                None
            },
            diff_line_no: (off + j + 1) as usize,
            line_type: t,
            value: lm.value,
        };
        let acc2 = crate::model::hunk_append(acc, lm2);
        assert(acc2.added == acc.added + (if t == LineType::Added {
            1int
        } else {
            0int
        }));
        assert(acc2.removed == acc.removed + (if t == LineType::Removed {
            1int
        } else {
            0int
        }));
        assert(acc2.lines.len() == acc.lines.len() + 1);
        if sc2 >= se && tc2 >= te {
            // extents met: the builder stops; nothing of the body remains
            if j + 1 < lines.len() {
                assert(!exact_body(lines, j + 1, se - sc2, te - tc2));
                assert(false);
            }
            assert(lines.skip(j + 1) =~= Seq::<crate::model::LineModel>::empty());
            assert(count_type(lines.skip(j + 1), LineType::Added) == 0);
            assert(count_type(lines.skip(j + 1), LineType::Removed) == 0);
            assert(build_hunk(pieces, off + j, acc, sc, tc, se, te) == Ok::<HunkModel, Seq<char>>(
                acc2,
            ));
        } else {
            lemma_build_rendered_counts(pieces, off, lines, j + 1, acc2, sc2, tc2, se, te);
            assert(build_hunk(pieces, off + j, acc, sc, tc, se, te) == build_hunk(
                pieces,
                off + j + 1,
                acc2,
                sc2,
                tc2,
                se,
                te,
            ));
        }
    }
}

/// The same reparse record stated over the whole-set renderer: a patch set
/// holding one reprintable file renders to text whose reparse succeeds,
/// keeps the files already held, and reproduces the file's hunk counters.
pub proof fn theorem_set_reparse_one_file(fs: Seq<FileModel>, pre: Seq<FileModel>)
    requires
        fs.len() == 1,
        reprintable_file(fs[0]),
    ensures
        ({
            let out = drive(
                crate::text::spec_lines(crate::render::render_set(fs)),
                0,
                None,
                None,
                pre,
            );
            &&& out.error is None
            &&& out.files.len() == pre.len() + fs.len()
            &&& out.files.drop_last() == pre
            &&& out.files.last().hunks.len() == fs[0].hunks.len()
            &&& forall|k: int|
                0 <= k < fs[0].hunks.len() ==> {
                    let b = #[trigger] out.files.last().hunks[k];
                    b.added == fs[0].hunks[k].added && b.removed == fs[0].hunks[k].removed
                }
        }),
{
    assert(fs.map_values(|f: FileModel| crate::render::render_file(f)) =~= seq![
        crate::render::render_file(fs[0]),
    ]);
    assert(crate::render::render_set(fs) == crate::render::render_file(fs[0]));
    theorem_single_file_reparse(fs[0], pre);
}

/// Every line of an exactly consumed body is clean.
proof fn lemma_exact_body_clean(lines: Seq<crate::model::LineModel>, j: int, ds: int, dt: int)
    requires
        0 <= j <= lines.len(),
        exact_body(lines, j, ds, dt),
    ensures
        forall|k: int| j <= k < lines.len() ==> clean_body_line(#[trigger] lines[k]),
    decreases lines.len() - j,
{
    if j < lines.len() {
        let t = lines[j].line_type;
        if t == LineType::Context {
            lemma_exact_body_clean(lines, j + 1, ds - 1, dt - 1);
        } else if t == LineType::Removed {
            lemma_exact_body_clean(lines, j + 1, ds - 1, dt);
        } else {
            lemma_exact_body_clean(lines, j + 1, ds, dt - 1);
        }
    }
}

} // verus!
