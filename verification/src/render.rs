//! Re-serialization of the parsed model back to unified-diff text: a
//! best-effort reconstruction (header timestamps are not replayed, and the
//! no-newline marker line reprints as its stored newline marker plus value).

use vstd::prelude::*;
use crate::model::{FileModel, Hunk, HunkModel, Line, LineModel, LineType, PatchedFile};
use crate::patch::PatchSet;

verus! {

/// The digit character of `d`, for `0 <= d <= 9`.
pub open spec fn digit_char(d: int) -> char {
    if d == 0 {
        '0'
    } else if d == 1 {
        '1'
    } else if d == 2 {
        '2'
    } else if d == 3 {
        '3'
    } else if d == 4 {
        '4'
    } else if d == 5 {
        '5'
    } else if d == 6 {
        '6'
    } else if d == 7 {
        '7'
    } else if d == 8 {
        '8'
    } else {
        '9'
    }
}

/// Decimal digits of `n`, most significant first.
pub open spec fn dec_digits(n: int) -> Seq<char>
    decreases n,
{
    if n < 10 {
        seq![digit_char(n)]
    } else {
        dec_digits(n / 10).push(digit_char(n % 10))
    }
}

/// The one-character marker a line type reprints as.
pub open spec fn marker_of(t: LineType) -> Seq<char> {
    match t {
        LineType::Added => seq!['+'],
        LineType::Removed => seq!['-'],
        LineType::Context => seq![' '],
        LineType::Empty => seq!['\n'],
    }
}

/// One body line reprints as its marker followed by its value.
pub open spec fn render_line(l: LineModel) -> Seq<char> {
    marker_of(l.line_type) + l.value
}

/// The pieces joined with single newlines, no trailing newline.
pub open spec fn join_newline(xs: Seq<Seq<char>>) -> Seq<char>
    decreases xs.len(),
{
    if xs.len() == 0 {
        Seq::empty()
    } else if xs.len() == 1 {
        xs[0]
    } else {
        join_newline(xs.drop_last()) + seq!['\n'] + xs.last()
    }
}

/// A hunk reprints as its reconstructed header line, a newline, and its
/// body lines joined with newlines.
pub open spec fn render_hunk(h: HunkModel) -> Seq<char> {
    seq!['@', '@', ' ', '-'] + dec_digits(h.source_start as int) + seq![','] + dec_digits(
        h.source_length as int,
    ) + seq![' ', '+'] + dec_digits(h.target_start as int) + seq![','] + dec_digits(
        h.target_length as int,
    ) + seq![' ', '@', '@', ' '] + h.section_header + seq!['\n'] + join_newline(
        h.lines.map_values(|l: LineModel| render_line(l)),
    )
}

/// A file reprints as its two header lines and its hunks joined with
/// newlines; timestamps are not replayed.
pub open spec fn render_file(f: FileModel) -> Seq<char> {
    seq!['-', '-', '-', ' '] + f.source_file + seq!['\n', '+', '+', '+', ' '] + f.target_file
        + seq!['\n'] + join_newline(f.hunks.map_values(|h: HunkModel| render_hunk(h)))
}

/// A patch set reprints as its files joined with newlines.
pub open spec fn render_set(fs: Seq<FileModel>) -> Seq<char> {
    join_newline(fs.map_values(|f: FileModel| render_file(f)))
}

/// The decimal numeral of `n`.
pub fn usize_string(n: usize) -> (r: String)
    ensures
        r@ == dec_digits(n as int),
    decreases n,
{
    if n < 10 {
        digit_str(n).to_owned()
    } else {
        let mut s = usize_string(n / 10);
        s.append(digit_str(n % 10));
        assert(s@ =~= dec_digits(n as int));
        s
    }
}

/// The one-character numeral of a single digit.
fn digit_str(d: usize) -> (r: &'static str)
    requires
        d < 10,
    ensures
        r@ == seq![digit_char(d as int)],
{
    proof {
        reveal_strlit("0");
        reveal_strlit("1");
        reveal_strlit("2");
        reveal_strlit("3");
        reveal_strlit("4");
        reveal_strlit("5");
        reveal_strlit("6");
        reveal_strlit("7");
        reveal_strlit("8");
        reveal_strlit("9");
    }
    let r: &'static str = if d == 0 {
        "0"
    } else if d == 1 {
        "1"
    } else if d == 2 {
        "2"
    } else if d == 3 {
        "3"
    } else if d == 4 {
        "4"
    } else if d == 5 {
        "5"
    } else if d == 6 {
        "6"
    } else if d == 7 {
        "7"
    } else if d == 8 {
        "8"
    } else {
        "9"
    };
    assert(r@ =~= seq![digit_char(d as int)]);
    r
}

/// The one-character marker string of a line type.
fn marker_str(t: LineType) -> (r: &'static str)
    ensures
        r@ == marker_of(t),
{
    proof {
        reveal_strlit("+");
        reveal_strlit("-");
        reveal_strlit(" ");
        reveal_strlit("\n");
    }
    let r: &'static str = match t {
        LineType::Added => "+",
        LineType::Removed => "-",
        LineType::Context => " ",
        LineType::Empty => "\n",
    };
    assert(r@ =~= marker_of(t));
    r
}

impl Line {
    /// The line as diff text: marker character plus value.
    pub fn render(&self) -> (r: String)
        ensures
            r@ == render_line(self@),
    {
        let mut s = marker_str(self.line_type).to_owned();
        s.append(self.value.as_str());
        s
    }
}

impl Hunk {
    /// The hunk as diff text: reconstructed `@@` header plus body lines.
    pub fn render(&self) -> (r: String)
        ensures
            r@ == render_hunk(self@),
    {
        proof {
            reveal_strlit("@@ -");
            reveal_strlit(",");
            reveal_strlit(" +");
            reveal_strlit(" @@ ");
            reveal_strlit("\n");
        }
        let mut s = String::new();
        s.append("@@ -");
        s.append(usize_string(self.source_start).as_str());
        s.append(",");
        s.append(usize_string(self.source_length).as_str());
        s.append(" +");
        s.append(usize_string(self.target_start).as_str());
        s.append(",");
        s.append(usize_string(self.target_length).as_str());
        s.append(" @@ ");
        s.append(self.section_header.as_str());
        s.append("\n");
        let ghost head = s@;
        let ghost pieces = self@.lines.map_values(|l: LineModel| render_line(l));
        let mut i: usize = 0;
        while i < self.lines.len()
            invariant
                0 <= i <= self@.lines.len(),
                pieces == self@.lines.map_values(|l: LineModel| render_line(l)),
                s@ == head + join_newline(pieces.take(i as int)),
            decreases self@.lines.len() - i,
        {
            proof {
                reveal_strlit("\n");
                assert(pieces.take(i + 1).drop_last() =~= pieces.take(i as int));
            }
            if i > 0 {
                s.append("\n");
            }
            let piece = self.lines[i].render();
            s.append(piece.as_str());
            proof {
                if i == 0 {
                    assert(join_newline(pieces.take(1)) == pieces[0]);
                    assert(s@ =~= head + join_newline(pieces.take(1)));
                } else {
                    assert(s@ =~= head + join_newline(pieces.take(i + 1)));
                }
            }
            i += 1;
        }
        proof {
            assert(pieces.take(i as int) =~= pieces);
            assert(s@ =~= render_hunk(self@));
        }
        s
    }
}

impl PatchedFile {
    /// The file as diff text: `---` and `+++` headers plus its hunks.
    pub fn render(&self) -> (r: String)
        ensures
            r@ == render_file(self@),
    {
        proof {
            reveal_strlit("--- ");
            reveal_strlit("\n+++ ");
            reveal_strlit("\n");
        }
        let mut s = String::new();
        s.append("--- ");
        s.append(self.source_file.as_str());
        s.append("\n+++ ");
        s.append(self.target_file.as_str());
        s.append("\n");
        let ghost head = s@;
        let ghost pieces = self@.hunks.map_values(|h: HunkModel| render_hunk(h));
        let mut i: usize = 0;
        while i < self.hunks.len()
            invariant
                0 <= i <= self@.hunks.len(),
                pieces == self@.hunks.map_values(|h: HunkModel| render_hunk(h)),
                s@ == head + join_newline(pieces.take(i as int)),
            decreases self@.hunks.len() - i,
        {
            proof {
                reveal_strlit("\n");
                assert(pieces.take(i + 1).drop_last() =~= pieces.take(i as int));
            }
            if i > 0 {
                s.append("\n");
            }
            let piece = self.hunks[i].render();
            s.append(piece.as_str());
            proof {
                if i == 0 {
                    assert(join_newline(pieces.take(1)) == pieces[0]);
                    assert(s@ =~= head + join_newline(pieces.take(1)));
                } else {
                    assert(s@ =~= head + join_newline(pieces.take(i + 1)));
                }
            }
            i += 1;
        }
        proof {
            assert(pieces.take(i as int) =~= pieces);
            assert(s@ =~= render_file(self@));
        }
        s
    }
}

impl PatchSet {
    /// The whole patch set as diff text: its files joined with newlines.
    pub fn render(&self) -> (r: String)
        ensures
            r@ == render_set(self@),
    {
        proof {
            reveal_strlit("\n");
        }
        let mut s = String::new();
        let ghost pieces = self@.map_values(|f: FileModel| render_file(f));
        let mut i: usize = 0;
        while i < self.files.len()
            invariant
                0 <= i <= self@.len(),
                pieces == self@.map_values(|f: FileModel| render_file(f)),
                s@ == join_newline(pieces.take(i as int)),
            decreases self@.len() - i,
        {
            proof {
                reveal_strlit("\n");
                assert(pieces.take(i + 1).drop_last() =~= pieces.take(i as int));
            }
            if i > 0 {
                s.append("\n");
            }
            let piece = self.files[i].render();
            s.append(piece.as_str());
            proof {
                if i == 0 {
                    assert(join_newline(pieces.take(1)) == pieces[0]);
                    assert(s@ =~= join_newline(pieces.take(1)));
                } else {
                    assert(s@ =~= join_newline(pieces.take(i + 1)));
                }
            }
            i += 1;
        }
        proof {
            assert(pieces.take(i as int) =~= pieces);
        }
        s
    }
}

} // verus!
