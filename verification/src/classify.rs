//! The line classifier: ordered pattern rules that recognise, for a single
//! line of text, a source-file header, a target-file header, a hunk header,
//! or a hunk body line, and extract their fields.

use vstd::prelude::*;
use crate::model::LineType;
use crate::text::{
    digits_val, digits_val_nonneg, ends_with, is_digit, scan_digits, scan_digits_bounds, scan_tab,
    scan_tab_bounds, str_ends_with, str_starts_with,
};

verus! {

// ---------------------------------------------------------------------------
// File-pair headers
// ---------------------------------------------------------------------------
/// The line is a source-file header: `--- ` followed by a filename whose
/// first character is not a tab (lines never hold a newline).
pub open spec fn is_source_line(l: Seq<char>) -> bool {
    l.len() >= 5 && l[0] == '-' && l[1] == '-' && l[2] == '-' && l[3] == ' ' && l[4] != '\t'
        && l[4] != '\n'
}

/// The line is a target-file header: the same shape with `+++ `.
pub open spec fn is_target_line(l: Seq<char>) -> bool {
    l.len() >= 5 && l[0] == '+' && l[1] == '+' && l[2] == '+' && l[3] == ' ' && l[4] != '\t'
        && l[4] != '\n'
}

/// The filename of a file-pair header: everything after the four-character
/// prefix up to the first tab.
pub open spec fn header_filename(l: Seq<char>) -> Seq<char> {
    l.subrange(4, scan_tab(l, 4))
}

/// The timestamp of a file-pair header: everything after the first tab, or
/// empty when there is no tab.
pub open spec fn header_timestamp(l: Seq<char>) -> Seq<char> {
    if scan_tab(l, 4) < l.len() {
        l.subrange(scan_tab(l, 4) + 1, l.len() as int)
    } else {
        Seq::empty()
    }
}

/// Splits a header line into filename and timestamp, sharing the scan for
/// the first tab.
fn split_header_fields(l: &str) -> (r: (String, String))
    requires
        l@.len() >= 5,
    ensures
        r.0@ == header_filename(l@),
        r.1@ == header_timestamp(l@),
{
    let n = l.unicode_len();
    let mut j: usize = 4;
    while j < n && l.get_char(j) != '\t'
        invariant
            4 <= j <= n,
            n == l@.len(),
            forall|k: int| 4 <= k < j ==> l@[k] != '\t',
        decreases n - j,
    {
        j += 1;
    }
    proof {
        scan_tab_bounds(l@, 4);
        if j < n {
            // both j and scan_tab(l@, 4) are the first tab at or after 4
            assert(l@[j as int] == '\t');
            assert(scan_tab(l@, 4) == j);
        } else {
            assert(scan_tab(l@, 4) == n);
        }
    }
    let name = l.substring_char(4, j).to_owned();
    let stamp: String = if j < n {
        l.substring_char(j + 1, n).to_owned()
    } else {
        String::new()
    };
    (name, stamp)
}

/// Recognises a source-file header and yields its filename and timestamp.
pub fn match_source_header(l: &str) -> (r: Option<(String, String)>)
    ensures
        match r {
            Some(p) => is_source_line(l@) && p.0@ == header_filename(l@) && p.1@
                == header_timestamp(l@),
            None => !is_source_line(l@),
        },
{
    proof {
        reveal_strlit("--- ");
    }
    if !str_starts_with(l, "--- ") {
        proof {
            if is_source_line(l@) {
                assert(l@.subrange(0, 4) =~= "--- "@);
            }
        }
        return None;
    }
    let n = l.unicode_len();
    if n < 5 {
        return None;
    }
    let c = l.get_char(4);
    if c == '\t' || c == '\n' {
        return None;
    }
    assert(l@[0] == '-' && l@[1] == '-' && l@[2] == '-' && l@[3] == ' ') by {
        assert(l@.subrange(0, 4)[0] == '-');
        assert(l@.subrange(0, 4)[1] == '-');
        assert(l@.subrange(0, 4)[2] == '-');
        assert(l@.subrange(0, 4)[3] == ' ');
    };
    Some(split_header_fields(l))
}

/// Recognises a target-file header and yields its filename and timestamp.
pub fn match_target_header(l: &str) -> (r: Option<(String, String)>)
    ensures
        match r {
            Some(p) => is_target_line(l@) && p.0@ == header_filename(l@) && p.1@
                == header_timestamp(l@),
            None => !is_target_line(l@),
        },
{
    proof {
        reveal_strlit("+++ ");
    }
    if !str_starts_with(l, "+++ ") {
        proof {
            if is_target_line(l@) {
                assert(l@.subrange(0, 4) =~= "+++ "@);
            }
        }
        return None;
    }
    let n = l.unicode_len();
    if n < 5 {
        return None;
    }
    let c = l.get_char(4);
    if c == '\t' || c == '\n' {
        return None;
    }
    assert(l@[0] == '+' && l@[1] == '+' && l@[2] == '+' && l@[3] == ' ') by {
        assert(l@.subrange(0, 4)[0] == '+');
        assert(l@.subrange(0, 4)[1] == '+');
        assert(l@.subrange(0, 4)[2] == '+');
        assert(l@.subrange(0, 4)[3] == ' ');
    };
    Some(split_header_fields(l))
}

// ---------------------------------------------------------------------------
// Hunk headers
// ---------------------------------------------------------------------------
/// The four extents and the trailing section text of a hunk header
/// `@@ -start[,length] +start[,length] @@ section`.
pub ghost struct HunkHeaderModel {
    pub source_start: int,
    pub source_length: int,
    pub target_start: int,
    pub target_length: int,
    pub section: Seq<char>,
}

/// End of the optional `,digits` length group starting at `p`; `p` itself
/// when the group is absent. An absent length reads as the numeral 0.
pub open spec fn opt_len_end(l: Seq<char>, p: int) -> int {
    if p < l.len() && l[p] == ',' && scan_digits(l, p + 1) > p + 1 {
        scan_digits(l, p + 1)
    } else {
        p
    }
}

/// Value of the optional `,digits` length group starting at `p`, 0 when the
/// group is absent.
pub open spec fn opt_len_val(l: Seq<char>, p: int) -> int {
    if p < l.len() && l[p] == ',' && scan_digits(l, p + 1) > p + 1 {
        digits_val(l.subrange(p + 1, scan_digits(l, p + 1)))
    } else {
        0
    }
}

/// Start of the section header text after the closing `@@` at `p4`: one
/// single space is skipped when present.
pub open spec fn section_start(l: Seq<char>, p4: int) -> int {
    if p4 + 3 < l.len() && l[p4 + 3] == ' ' {
        p4 + 4
    } else {
        p4 + 3
    }
}

/// Parses the shape `@@ -digits[,digits] +digits[,digits] @@[ ]section`.
/// The numeric values are unbounded here; whether they fit the machine is
/// [`header_fits`]'s question.
pub open spec fn parse_hunk_header(l: Seq<char>) -> Option<HunkHeaderModel> {
    if l.len() >= 4 && l[0] == '@' && l[1] == '@' && l[2] == ' ' && l[3] == '-' {
        let p1 = scan_digits(l, 4);
        let p2 = opt_len_end(l, p1);
        if p1 > 4 && p2 + 1 < l.len() && l[p2] == ' ' && l[p2 + 1] == '+' {
            let p3 = scan_digits(l, p2 + 2);
            let p4 = opt_len_end(l, p3);
            if p3 > p2 + 2 && p4 + 2 < l.len() && l[p4] == ' ' && l[p4 + 1] == '@' && l[p4 + 2]
                == '@' {
                Some(
                    HunkHeaderModel {
                        source_start: digits_val(l.subrange(4, p1)),
                        source_length: opt_len_val(l, p1),
                        target_start: digits_val(l.subrange(p2 + 2, p3)),
                        target_length: opt_len_val(l, p3),
                        section: l.subrange(section_start(l, p4), l.len() as int),
                    },
                )
            } else {
                None
            }
        } else {
            None
        }
    } else {
        None
    }
}

/// The numeric fields of a recognised hunk header are digit values, hence
/// nonnegative.
pub proof fn lemma_header_nonneg(l: Seq<char>)
    requires
        parse_hunk_header(l) is Some,
    ensures
        ({
            let h = parse_hunk_header(l)->0;
            h.source_start >= 0 && h.source_length >= 0 && h.target_start >= 0
                && h.target_length >= 0
        }),
{
    let p1 = scan_digits(l, 4);
    let p2 = opt_len_end(l, p1);
    let p3 = scan_digits(l, p2 + 2);
    scan_digits_bounds(l, 4);
    scan_digits_bounds(l, p2 + 2);
    digits_val_nonneg(l.subrange(4, p1));
    digits_val_nonneg(l.subrange(p2 + 2, p3));
    if p1 < l.len() && l[p1] == ',' && scan_digits(l, p1 + 1) > p1 + 1 {
        scan_digits_bounds(l, p1 + 1);
        digits_val_nonneg(l.subrange(p1 + 1, scan_digits(l, p1 + 1)));
    }
    if p3 < l.len() && l[p3] == ',' && scan_digits(l, p3 + 1) > p3 + 1 {
        scan_digits_bounds(l, p3 + 1);
        digits_val_nonneg(l.subrange(p3 + 1, scan_digits(l, p3 + 1)));
    }
}

/// The declared extents fit the machine: each start plus its length stays
/// within `usize`. The hunk cursors are computed from these sums.
pub open spec fn header_fits(h: HunkHeaderModel) -> bool {
    &&& h.source_start + h.source_length <= usize::MAX
    &&& h.target_start + h.target_length <= usize::MAX
}

/// The line starts a hunk: it has the header shape and its extents fit the
/// machine. A header whose extents overflow `usize` is not acted upon.
pub open spec fn hunk_trigger(l: Seq<char>) -> bool {
    parse_hunk_header(l) is Some && header_fits(parse_hunk_header(l)->0)
}

/// Reads the digit run starting at `from`: its end and its value, `None`
/// when the value exceeds `usize`.
fn scan_number(s: &str, from: usize) -> (r: (usize, Option<usize>))
    requires
        from <= s@.len(),
    ensures
        r.0 == scan_digits(s@, from as int),
        from <= r.0 <= s@.len(),
        match r.1 {
            Some(v) => v == digits_val(s@.subrange(from as int, r.0 as int)),
            None => digits_val(s@.subrange(from as int, r.0 as int)) > usize::MAX,
        },
{
    let n = s.unicode_len();
    let mut j: usize = from;
    let mut acc: Option<usize> = Some(0);
    assert(s@.subrange(from as int, from as int) =~= Seq::<char>::empty());
    while j < n && digit_at(s, j)
        invariant
            from <= j <= n,
            n == s@.len(),
            forall|k: int| from <= k < j ==> is_digit(s@[k]),
            match acc {
                Some(v) => v == digits_val(s@.subrange(from as int, j as int)),
                None => digits_val(s@.subrange(from as int, j as int)) > usize::MAX,
            },
        decreases n - j,
    {
        let c = s.get_char(j);
        let d: usize = (c as u32 - 48) as usize;
        let ghost run = s@.subrange(from as int, j as int);
        let ghost run2 = s@.subrange(from as int, j + 1);
        proof {
            assert(run2.drop_last() =~= run);
            assert(run2.last() == s@[j as int]);
            digits_val_nonneg(run);
        }
        acc = match acc {
            Some(v) => {
                match v.checked_mul(10) {
                    Some(w) => w.checked_add(d),
                    None => None,
                }
            },
            None => {
                proof {
                    assert(digits_val(run) * 10 >= digits_val(run)) by (nonlinear_arith)
                        requires
                            digits_val(run) >= 0,
                    ;
                }
                None
            },
        };
        j += 1;
    }
    proof {
        scan_digits_bounds(s@, from as int);
        if j < n {
            assert(!is_digit(s@[j as int]));
            assert(scan_digits(s@, from as int) == j);
        } else {
            assert(scan_digits(s@, from as int) == n);
        }
    }
    (j, acc)
}

/// The character at `j` is a decimal digit.
fn digit_at(s: &str, j: usize) -> (r: bool)
    requires
        j < s@.len(),
    ensures
        r == is_digit(s@[j as int]),
{
    let c = s.get_char(j);
    (48u32 <= c as u32) && (c as u32 <= 57u32)
}

/// What one line is to the hunk-header matcher: no header at all, a header
/// whose declared extents overflow the machine, or a header with its
/// extents and section extracted.
pub enum HeaderMatch {
    NotHunkHeader,
    Oversize,
    Extents(usize, usize, usize, usize, String),
}

/// Recognises a hunk header, and tells a line of the header shape whose
/// extents overflow `usize` apart from a line that is no header: the
/// driver still rejects the former when no file is pending.
pub fn match_hunk_header(l: &str) -> (r: HeaderMatch)
    ensures
        match r {
            HeaderMatch::NotHunkHeader => parse_hunk_header(l@) is None,
            HeaderMatch::Oversize => parse_hunk_header(l@) is Some && !header_fits(
                parse_hunk_header(l@)->0,
            ),
            HeaderMatch::Extents(ss, sl, ts, tl, sec) => {
                &&& hunk_trigger(l@)
                &&& {
                    let h = parse_hunk_header(l@)->0;
                    ss == h.source_start && sl == h.source_length && ts == h.target_start && tl
                        == h.target_length && sec@ == h.section
                }
            },
        },
{
    let n = l.unicode_len();
    if n < 4 {
        return HeaderMatch::NotHunkHeader;
    }
    if !(l.get_char(0) == '@' && l.get_char(1) == '@' && l.get_char(2) == ' ' && l.get_char(3)
        == '-') {
        return HeaderMatch::NotHunkHeader;
    }
    let (p1, ss_val) = scan_number(l, 4);
    if p1 == 4 {
        return HeaderMatch::NotHunkHeader;
    }
    let (p2, sl_val) = read_opt_len(l, p1);
    if p2 >= n || n - p2 < 2 {
        return HeaderMatch::NotHunkHeader;
    }
    if !(l.get_char(p2) == ' ' && l.get_char(p2 + 1) == '+') {
        return HeaderMatch::NotHunkHeader;
    }
    let (p3, ts_val) = scan_number(l, p2 + 2);
    if p3 == p2 + 2 {
        return HeaderMatch::NotHunkHeader;
    }
    let (p4, tl_val) = read_opt_len(l, p3);
    if p4 >= n || n - p4 < 3 {
        return HeaderMatch::NotHunkHeader;
    }
    if !(l.get_char(p4) == ' ' && l.get_char(p4 + 1) == '@' && l.get_char(p4 + 2) == '@') {
        return HeaderMatch::NotHunkHeader;
    }
    let ghost h = parse_hunk_header(l@)->0;
    proof {
        scan_digits_bounds(l@, 4);
        scan_digits_bounds(l@, p2 + 2);
        digits_val_nonneg(l@.subrange(4, p1 as int));
        digits_val_nonneg(l@.subrange(p2 + 2, p3 as int));
        if p1 < l@.len() && l@[p1 as int] == ',' && scan_digits(l@, p1 + 1) > p1 + 1 {
            scan_digits_bounds(l@, p1 + 1);
            digits_val_nonneg(l@.subrange(p1 + 1, scan_digits(l@, p1 + 1)));
        }
        if p3 < l@.len() && l@[p3 as int] == ',' && scan_digits(l@, p3 + 1) > p3 + 1 {
            scan_digits_bounds(l@, p3 + 1);
            digits_val_nonneg(l@.subrange(p3 + 1, scan_digits(l@, p3 + 1)));
        }
    }
    let (ss, sl, ts, tl) = match (ss_val, sl_val, ts_val, tl_val) {
        (Some(a), Some(b), Some(c), Some(d)) => (a, b, c, d),
        _ => {
            return HeaderMatch::Oversize;
        },
    };
    match ss.checked_add(sl) {
        Some(_) => {},
        None => {
            return HeaderMatch::Oversize;
        },
    };
    match ts.checked_add(tl) {
        Some(_) => {},
        None => {
            return HeaderMatch::Oversize;
        },
    };
    let sec_from = if n - p4 >= 4 && l.get_char(p4 + 3) == ' ' {
        p4 + 4
    } else {
        p4 + 3
    };
    let section = l.substring_char(sec_from, n).to_owned();
    HeaderMatch::Extents(ss, sl, ts, tl, section)
}

/// Exec counterpart of [`opt_len_end`] / [`opt_len_val`].
fn read_opt_len(l: &str, p: usize) -> (r: (usize, Option<usize>))
    requires
        p <= l@.len(),
    ensures
        r.0 == opt_len_end(l@, p as int),
        p <= r.0 <= l@.len(),
        match r.1 {
            Some(v) => v == opt_len_val(l@, p as int),
            None => opt_len_val(l@, p as int) > usize::MAX,
        },
{
    let n = l.unicode_len();
    if p < n && l.get_char(p) == ',' {
        let (q, v) = scan_number(l, p + 1);
        if q > p + 1 {
            (q, v)
        } else {
            (p, Some(0))
        }
    } else {
        (p, Some(0))
    }
}

// ---------------------------------------------------------------------------
// Hunk body lines
// ---------------------------------------------------------------------------
/// The literal no-newline marker text.
pub open spec fn no_newline_marker() -> Seq<char> {
    "\\ No newline at end of file"@
}

/// The content of a body line: the leading marker character, when one is
/// present, is stripped; a line without one is kept whole.
pub open spec fn body_value(l: Seq<char>) -> Seq<char> {
    if l.len() > 0 && (l[0] == '+' || l[0] == '-' || l[0] == ' ' || l[0] == '\\') {
        l.drop_first()
    } else {
        l
    }
}

/// Category and content of one hunk body line, by ordered rules. The
/// no-newline marker comes first: a line ending in the literal marker text
/// is `Empty`, whatever its leading character. After that the leading
/// character decides: `+` adds, `-` removes, a space is context, a blank
/// line is context kept whole, and any other leading character fails to
/// classify.
pub open spec fn classify_body(l: Seq<char>) -> Option<(LineType, Seq<char>)> {
    if ends_with(l, no_newline_marker()) {
        Some((LineType::Empty, body_value(l)))
    } else if l.len() == 0 {
        Some((LineType::Context, l))
    } else if l[0] == '+' {
        Some((LineType::Added, l.drop_first()))
    } else if l[0] == '-' {
        Some((LineType::Removed, l.drop_first()))
    } else if l[0] == ' ' {
        Some((LineType::Context, l.drop_first()))
    } else {
        None
    }
}

/// Recognises one hunk body line; `None` is the `ExpectLine` failure.
pub fn classify_body_line(l: &str) -> (r: Option<(LineType, String)>)
    ensures
        match r {
            Some(t) => classify_body(l@) == Some((t.0, t.1@)),
            None => classify_body(l@) is None,
        },
{
    let n = l.unicode_len();
    if str_ends_with(l, "\\ No newline at end of file") {
        proof {
            reveal_strlit("\\ No newline at end of file");
        }
        let c = l.get_char(0);
        let v: String = if c == '+' || c == '-' || c == ' ' || c == '\\' {
            let stripped = l.substring_char(1, n).to_owned();
            assert(stripped@ =~= body_value(l@));
            stripped
        } else {
            l.to_owned()
        };
        return Some((LineType::Empty, v));
    }
    if n == 0 {
        let empty = String::new();
        assert(l@ =~= Seq::<char>::empty());
        return Some((LineType::Context, empty));
    }
    let c = l.get_char(0);
    if c == '+' {
        let v = l.substring_char(1, n).to_owned();
        assert(v@ =~= l@.drop_first());
        Some((LineType::Added, v))
    } else if c == '-' {
        let v = l.substring_char(1, n).to_owned();
        assert(v@ =~= l@.drop_first());
        Some((LineType::Removed, v))
    } else if c == ' ' {
        let v = l.substring_char(1, n).to_owned();
        assert(v@ =~= l@.drop_first());
        Some((LineType::Context, v))
    } else {
        None
    }
}

} // verus!
