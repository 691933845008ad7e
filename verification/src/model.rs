//! The parsed model: typed lines, hunks, patched files, and the error
//! taxonomy of the parser, together with their mathematical views.

use vstd::prelude::*;
use vstd::seq_lib::*;
use crate::text::starts_with;

verus! {

/// A failure raised while parsing a diff document.
#[derive(Debug, Clone)]
pub enum Error {
    /// A target-file header arrived while a file was already pending, or
    /// before any source-file header was seen. Carries the offending line.
    TargetWithoutSource(String),
    /// A hunk header arrived with no file pending. Carries the offending line.
    UnexpectedHunk(String),
    /// A line inside a hunk's span is not a valid hunk body line. Carries the
    /// offending line.
    ExpectLine(String),
}

/// Mathematical view of [`Error`].
pub ghost enum ErrorModel {
    TargetWithoutSource(Seq<char>),
    UnexpectedHunk(Seq<char>),
    ExpectLine(Seq<char>),
}

impl View for Error {
    type V = ErrorModel;

    open spec fn view(&self) -> ErrorModel {
        match self {
            Error::TargetWithoutSource(l) => ErrorModel::TargetWithoutSource(l@),
            Error::UnexpectedHunk(l) => ErrorModel::UnexpectedHunk(l@),
            Error::ExpectLine(l) => ErrorModel::ExpectLine(l@),
        }
    }
}

/// The failure's text: its description, a colon, and the offending line.
pub open spec fn error_text(e: ErrorModel) -> Seq<char> {
    match e {
        ErrorModel::TargetWithoutSource(l) => "Target without source: "@ + l,
        ErrorModel::UnexpectedHunk(l) => "Unexpected hunk found: "@ + l,
        ErrorModel::ExpectLine(l) => "Hunk line expected: "@ + l,
    }
}

impl Error {
    /// A short name for the failure kind.
    pub fn description(&self) -> (r: &'static str)
        ensures
            match self@ {
                ErrorModel::TargetWithoutSource(_) => r@ == "Target without source"@,
                ErrorModel::UnexpectedHunk(_) => r@ == "Unexpected hunk found"@,
                ErrorModel::ExpectLine(_) => r@ == "Hunk line expected"@,
            },
    {
        match self {
            Error::TargetWithoutSource(_) => "Target without source",
            Error::UnexpectedHunk(_) => "Unexpected hunk found",
            Error::ExpectLine(_) => "Hunk line expected",
        }
    }

    /// The failure as text, offending line included.
    pub fn render(&self) -> (r: String)
        ensures
            r@ == error_text(self@),
    {
        proof {
            reveal_strlit("Target without source: ");
            reveal_strlit("Unexpected hunk found: ");
            reveal_strlit("Hunk line expected: ");
        }
        match self {
            Error::TargetWithoutSource(l) => {
                let mut s = String::new();
                s.append("Target without source: ");
                s.append(l.as_str());
                s
            },
            Error::UnexpectedHunk(l) => {
                let mut s = String::new();
                s.append("Unexpected hunk found: ");
                s.append(l.as_str());
                s
            },
            Error::ExpectLine(l) => {
                let mut s = String::new();
                s.append("Hunk line expected: ");
                s.append(l.as_str());
                s
            },
        }
    }
}

/// The category of one hunk body line. `Empty` is the literal
/// "no newline at end of file" marker, not a blank content line.
#[derive(Debug, Clone, Copy, PartialEq, Eq, Hash, Structural)]
pub enum LineType {
    Added,
    Removed,
    Context,
    Empty,
}

/// One line of a hunk body.
#[derive(Debug, Clone, PartialEq, Eq, Hash)]
pub struct Line {
    /// Position in the source file; absent for pure additions.
    pub source_line_no: Option<usize>,
    /// Position in the target file; absent for pure removals.
    pub target_line_no: Option<usize>,
    /// One-based position within the raw diff text.
    pub diff_line_no: usize,
    /// Category of the line.
    pub line_type: LineType,
    /// Content, without its leading marker character.
    pub value: String,
}

/// Mathematical view of [`Line`].
pub ghost struct LineModel {
    pub source_line_no: Option<usize>,
    pub target_line_no: Option<usize>,
    pub diff_line_no: usize,
    pub line_type: LineType,
    pub value: Seq<char>,
}

impl View for Line {
    type V = LineModel;

    open spec fn view(&self) -> LineModel {
        LineModel {
            source_line_no: self.source_line_no,
            target_line_no: self.target_line_no,
            diff_line_no: self.diff_line_no,
            line_type: self.line_type,
            value: self.value@,
        }
    }
}

impl DeepView for Line {
    type V = LineModel;

    open spec fn deep_view(&self) -> LineModel {
        self.view()
    }
}

impl Line {
    /// A fresh line with both positions zeroed, as a caller-built value.
    pub fn new(value: &str, line_type: LineType) -> (r: Line)
        ensures
            r@ == (LineModel {
                source_line_no: Some(0usize),
                target_line_no: Some(0usize),
                diff_line_no: 0usize,
                line_type: line_type,
                value: value@,
            }),
    {
        Line {
            source_line_no: Some(0usize),
            target_line_no: Some(0usize),
            diff_line_no: 0usize,
            line_type,
            value: value.to_owned(),
        }
    }

    /// The line adds content to the target file.
    pub fn is_added(&self) -> (r: bool)
        ensures
            r == (self.line_type == LineType::Added),
    {
        self.line_type == LineType::Added
    }

    /// The line removes content from the source file.
    pub fn is_removed(&self) -> (r: bool)
        ensures
            r == (self.line_type == LineType::Removed),
    {
        self.line_type == LineType::Removed
    }

    /// The line is unchanged context.
    pub fn is_context(&self) -> (r: bool)
        ensures
            r == (self.line_type == LineType::Context),
    {
        self.line_type == LineType::Context
    }

    /// An exact copy of the line.
    pub fn duplicate(&self) -> (r: Line)
        ensures
            r@ == self@,
    {
        Line {
            source_line_no: self.source_line_no,
            target_line_no: self.target_line_no,
            diff_line_no: self.diff_line_no,
            line_type: self.line_type,
            value: self.value.clone(),
        }
    }
}

/// How many lines of `ls` have type `t`.
pub open spec fn count_type(ls: Seq<LineModel>, t: LineType) -> int
    decreases ls.len(),
{
    if ls.len() == 0 {
        0
    } else {
        count_type(ls.drop_last(), t) + if ls.last().line_type == t {
            1int
        } else {
            0int
        }
    }
}

pub proof fn count_type_bounds(ls: Seq<LineModel>, t: LineType)
    ensures
        0 <= count_type(ls, t) <= ls.len(),
    decreases ls.len(),
{
    if ls.len() > 0 {
        count_type_bounds(ls.drop_last(), t);
    }
}

/// One contiguous change block of a file.
#[derive(Debug, Clone, PartialEq, Eq, Hash)]
pub struct Hunk {
    /// Running count of `Added` lines appended so far.
    pub added: usize,
    /// Running count of `Removed` lines appended so far.
    pub removed: usize,
    /// Source start as declared in the `@@` header.
    pub source_start: usize,
    /// Source length as declared in the `@@` header.
    pub source_length: usize,
    /// Target start as declared in the `@@` header.
    pub target_start: usize,
    /// Target length as declared in the `@@` header.
    pub target_length: usize,
    /// Trailing context of the `@@` header line.
    pub section_header: String,
    /// The body lines, in header-declared order.
    pub lines: Vec<Line>,
}

/// Mathematical view of [`Hunk`].
pub ghost struct HunkModel {
    pub added: usize,
    pub removed: usize,
    pub source_start: usize,
    pub source_length: usize,
    pub target_start: usize,
    pub target_length: usize,
    pub section_header: Seq<char>,
    pub lines: Seq<LineModel>,
}

impl View for Hunk {
    type V = HunkModel;

    open spec fn view(&self) -> HunkModel {
        HunkModel {
            added: self.added,
            removed: self.removed,
            source_start: self.source_start,
            source_length: self.source_length,
            target_start: self.target_start,
            target_length: self.target_length,
            section_header: self.section_header@,
            lines: self.lines.deep_view(),
        }
    }
}

impl DeepView for Hunk {
    type V = HunkModel;

    open spec fn deep_view(&self) -> HunkModel {
        self.view()
    }
}

/// The hunk's running counters agree with its lines.
pub open spec fn hunk_wf(h: HunkModel) -> bool {
    &&& h.added == count_type(h.lines, LineType::Added)
    &&& h.removed == count_type(h.lines, LineType::Removed)
}

/// `h` after appending one line, counters updated incrementally.
pub open spec fn hunk_append(h: HunkModel, l: LineModel) -> HunkModel {
    HunkModel {
        added: if l.line_type == LineType::Added {
            (h.added + 1) as usize
        } else {
            h.added
        },
        removed: if l.line_type == LineType::Removed {
            (h.removed + 1) as usize
        } else {
            h.removed
        },
        lines: h.lines.push(l),
        ..h
    }
}

impl Hunk {
    /// The counters agree with the lines held.
    pub open spec fn wf(&self) -> bool {
        hunk_wf(self@)
    }

    /// A hunk with the given header fields and no lines yet.
    pub fn new(
        source_start: usize,
        source_length: usize,
        target_start: usize,
        target_length: usize,
        section_header: &str,
    ) -> (r: Hunk)
        ensures
            r@ == (HunkModel {
                added: 0usize,
                removed: 0usize,
                source_start,
                source_length,
                target_start,
                target_length,
                section_header: section_header@,
                lines: Seq::empty(),
            }),
            r.wf(),
    {
        let r = Hunk {
            added: 0usize,
            removed: 0usize,
            source_start,
            source_length,
            target_start,
            target_length,
            section_header: section_header.to_owned(),
            lines: Vec::new(),
        };
        assert(r@.lines =~= Seq::<LineModel>::empty());
        r
    }

    /// Count of added lines.
    pub fn added(&self) -> (r: usize)
        ensures
            r == self@.added,
    {
        self.added
    }

    /// Count of removed lines.
    pub fn removed(&self) -> (r: usize)
        ensures
            r == self@.removed,
    {
        self.removed
    }

    /// Appends one line, keeping the running counters in step.
    pub fn append(&mut self, line: Line)
        requires
            old(self).wf(),
            old(self)@.lines.len() < usize::MAX,
        ensures
            final(self)@ == hunk_append(old(self)@, line@),
            final(self).wf(),
    {
        proof {
            count_type_bounds(self@.lines, LineType::Added);
            count_type_bounds(self@.lines, LineType::Removed);
        }
        if line.is_added() {
            self.added = self.added + 1;
        } else if line.is_removed() {
            self.removed = self.removed + 1;
        }
        self.lines.push(line);
        proof {
            assert(self@.lines =~= old(self)@.lines.push(line@));
            assert(self@.lines.drop_last() =~= old(self)@.lines);
            assert(self@.lines.last() == line@);
        }
    }

    /// Count of lines in this hunk.
    pub fn len(&self) -> (r: usize)
        ensures
            r == self@.lines.len(),
    {
        self.lines.len()
    }

    /// The hunk holds no lines.
    pub fn is_empty(&self) -> (r: bool)
        ensures
            r == (self@.lines.len() == 0),
    {
        self.lines.is_empty()
    }

    /// The lines of this hunk.
    pub fn lines(&self) -> (r: &[Line])
        ensures
            r.deep_view() == self@.lines,
    {
        self.lines.as_slice()
    }

    /// Mutable access to the lines of this hunk. Mutating a line's type is a
    /// caller responsibility: it can put the running counters out of step.
    pub fn lines_mut(&mut self) -> (r: &mut Vec<Line>)
        ensures
            *r == old(self).lines,
            *final(self) == (Hunk { lines: *final(r), ..*old(self) }),
    {
        &mut self.lines
    }

    /// The line at `idx`, or `None` past the end.
    pub fn get(&self, idx: usize) -> (r: Option<&Line>)
        ensures
            match r {
                Some(l) => idx < self@.lines.len() && l@ == self@.lines[idx as int],
                None => idx >= self@.lines.len(),
            },
    {
        if idx < self.lines.len() {
            Some(&self.lines[idx])
        } else {
            None
        }
    }

    /// Lines present in the source file: context and removed lines.
    pub fn source_lines(&self) -> (r: Vec<Line>)
        ensures
            r.deep_view() == self@.lines.filter(
                |l: LineModel|
                    l.line_type == LineType::Context || l.line_type == LineType::Removed,
            ),
    {
        let pred = |l: &Line| -> (b: bool)
            ensures
                b == (l.line_type == LineType::Context || l.line_type == LineType::Removed),
            { l.is_context() || l.is_removed() };
        filter_lines(
            &self.lines,
            Ghost(
                |l: LineModel|
                    l.line_type == LineType::Context || l.line_type == LineType::Removed,
            ),
            pred,
        )
    }

    /// Lines present in the target file: context and added lines.
    pub fn target_lines(&self) -> (r: Vec<Line>)
        ensures
            r.deep_view() == self@.lines.filter(
                |l: LineModel| l.line_type == LineType::Context || l.line_type == LineType::Added,
            ),
    {
        let pred = |l: &Line| -> (b: bool)
            ensures
                b == (l.line_type == LineType::Context || l.line_type == LineType::Added),
            { l.is_context() || l.is_added() };
        filter_lines(
            &self.lines,
            Ghost(
                |l: LineModel|
                    l.line_type == LineType::Context || l.line_type == LineType::Added,
            ),
            pred,
        )
    }

    /// An exact copy of the hunk.
    pub fn duplicate(&self) -> (r: Hunk)
        ensures
            r@ == self@,
    {
        let mut ls: Vec<Line> = Vec::new();
        let mut i: usize = 0;
        while i < self.lines.len()
            invariant
                0 <= i <= self.lines.len(),
                ls.deep_view() =~= self@.lines.take(i as int),
            decreases self.lines.len() - i,
        {
            assert(self@.lines.take(i + 1) =~= self@.lines.take(i as int).push(
                self.lines[i as int]@,
            ));
            ls.push(self.lines[i].duplicate());
            assert(ls.deep_view() =~= self@.lines.take(i + 1));
            i += 1;
        }
        assert(ls.deep_view() =~= self@.lines);
        Hunk {
            added: self.added,
            removed: self.removed,
            source_start: self.source_start,
            source_length: self.source_length,
            target_start: self.target_start,
            target_length: self.target_length,
            section_header: self.section_header.clone(),
            lines: ls,
        }
    }
}

/// One file changed by the diff.
#[derive(Debug, Clone, PartialEq, Eq, Hash)]
pub struct PatchedFile {
    /// Source file name as it stands in the `---` header.
    pub source_file: String,
    /// Timestamp of the `---` header, when one was parsed.
    pub source_timestamp: Option<String>,
    /// Target file name as it stands in the `+++` header.
    pub target_file: String,
    /// Timestamp of the `+++` header, when one was parsed.
    pub target_timestamp: Option<String>,
    /// The change blocks, in document order.
    pub hunks: Vec<Hunk>,
}

/// Mathematical view of [`PatchedFile`].
pub ghost struct FileModel {
    pub source_file: Seq<char>,
    pub source_timestamp: Option<Seq<char>>,
    pub target_file: Seq<char>,
    pub target_timestamp: Option<Seq<char>>,
    pub hunks: Seq<HunkModel>,
}

impl View for PatchedFile {
    type V = FileModel;

    open spec fn view(&self) -> FileModel {
        FileModel {
            source_file: self.source_file@,
            source_timestamp: match self.source_timestamp {
                Some(ref t) => Some(t@),
                None => None,
            },
            target_file: self.target_file@,
            target_timestamp: match self.target_timestamp {
                Some(ref t) => Some(t@),
                None => None,
            },
            hunks: self.hunks.deep_view(),
        }
    }
}

impl DeepView for PatchedFile {
    type V = FileModel;

    open spec fn deep_view(&self) -> FileModel {
        self.view()
    }
}

/// Sum of the added counters of `hs`.
pub open spec fn sum_added(hs: Seq<HunkModel>) -> int
    decreases hs.len(),
{
    if hs.len() == 0 {
        0
    } else {
        sum_added(hs.drop_last()) + hs.last().added
    }
}

/// Sum of the removed counters of `hs`.
pub open spec fn sum_removed(hs: Seq<HunkModel>) -> int
    decreases hs.len(),
{
    if hs.len() == 0 {
        0
    } else {
        sum_removed(hs.drop_last()) + hs.last().removed
    }
}

/// A prefix sum never exceeds the whole sum.
pub proof fn sum_take_le(hs: Seq<HunkModel>, j: int)
    requires
        0 <= j <= hs.len(),
    ensures
        sum_added(hs.take(j)) <= sum_added(hs),
        sum_removed(hs.take(j)) <= sum_removed(hs),
    decreases hs.len() - j,
{
    if j == hs.len() {
        assert(hs.take(j) =~= hs);
    } else {
        assert(hs.take(j + 1).drop_last() =~= hs.take(j));
        sum_take_le(hs, j + 1);
    }
}

/// The file's relative path, derived from the two header names: strip `a/`
/// from the source (when the target matches `b/` or is `/dev/null`), strip
/// `b/` from the target of a created file, and otherwise hand the raw source
/// name back.
pub open spec fn spec_path(f: FileModel) -> Seq<char> {
    if starts_with(f.source_file, "a/"@) && starts_with(f.target_file, "b/"@) {
        f.source_file.skip(2)
    } else if starts_with(f.source_file, "a/"@) && f.target_file == "/dev/null"@ {
        f.source_file.skip(2)
    } else if starts_with(f.target_file, "b/"@) && f.source_file == "/dev/null"@ {
        f.target_file.skip(2)
    } else {
        f.source_file
    }
}

/// The file is newly added: a single hunk whose declared source start and
/// length are both zero.
pub open spec fn spec_is_added_file(f: FileModel) -> bool {
    f.hunks.len() == 1 && f.hunks[0].source_start == 0 && f.hunks[0].source_length == 0
}

/// The file is removed: a single hunk whose declared target start and length
/// are both zero.
pub open spec fn spec_is_removed_file(f: FileModel) -> bool {
    f.hunks.len() == 1 && f.hunks[0].target_start == 0 && f.hunks[0].target_length == 0
}

impl PatchedFile {
    /// A file pair with no hunks and no timestamps.
    pub fn new(source_file: &str, target_file: &str) -> (r: PatchedFile)
        ensures
            r@ == (FileModel {
                source_file: source_file@,
                source_timestamp: None,
                target_file: target_file@,
                target_timestamp: None,
                hunks: Seq::empty(),
            }),
    {
        let r = PatchedFile {
            source_file: source_file.to_owned(),
            source_timestamp: None,
            target_file: target_file.to_owned(),
            target_timestamp: None,
            hunks: Vec::new(),
        };
        assert(r@.hunks =~= Seq::<HunkModel>::empty());
        r
    }

    /// A file pair with the given hunks and no timestamps.
    pub fn with_hunks(source_file: &str, target_file: &str, hunks: Vec<Hunk>) -> (r: PatchedFile)
        ensures
            r@ == (FileModel {
                source_file: source_file@,
                source_timestamp: None,
                target_file: target_file@,
                target_timestamp: None,
                hunks: hunks.deep_view(),
            }),
    {
        PatchedFile {
            source_file: source_file.to_owned(),
            source_timestamp: None,
            target_file: target_file.to_owned(),
            target_timestamp: None,
            hunks,
        }
    }

    /// The file's relative path, per [`spec_path`].
    pub fn path(&self) -> (r: String)
        ensures
            r@ == spec_path(self@),
    {
        proof {
            reveal_strlit("a/");
            reveal_strlit("b/");
        }
        let src_a = crate::text::str_starts_with(self.source_file.as_str(), "a/");
        let tgt_b = crate::text::str_starts_with(self.target_file.as_str(), "b/");
        let src_null = crate::text::str_eq(self.source_file.as_str(), "/dev/null");
        let tgt_null = crate::text::str_eq(self.target_file.as_str(), "/dev/null");
        if src_a && tgt_b {
            let s = self.source_file.as_str();
            let r = s.substring_char(2, s.unicode_len()).to_owned();
            assert(r@ =~= self@.source_file.skip(2));
            r
        } else if src_a && tgt_null {
            let s = self.source_file.as_str();
            let r = s.substring_char(2, s.unicode_len()).to_owned();
            assert(r@ =~= self@.source_file.skip(2));
            r
        } else if tgt_b && src_null {
            let s = self.target_file.as_str();
            let r = s.substring_char(2, s.unicode_len()).to_owned();
            assert(r@ =~= self@.target_file.skip(2));
            r
        } else {
            self.source_file.clone()
        }
    }

    /// Total count of added lines over all hunks.
    pub fn added(&self) -> (r: usize)
        requires
            sum_added(self@.hunks) <= usize::MAX,
        ensures
            r == sum_added(self@.hunks),
    {
        let mut acc: usize = 0;
        let mut i: usize = 0;
        assert(self@.hunks.take(0) =~= Seq::<HunkModel>::empty());
        while i < self.hunks.len()
            invariant
                0 <= i <= self@.hunks.len(),
                sum_added(self@.hunks) <= usize::MAX,
                acc == sum_added(self@.hunks.take(i as int)),
            decreases self@.hunks.len() - i,
        {
            assert(self@.hunks.take(i + 1).drop_last() =~= self@.hunks.take(i as int));
            proof {
                sum_take_le(self@.hunks, i + 1);
            }
            acc = acc + self.hunks[i].added;
            i += 1;
        }
        assert(self@.hunks.take(i as int) =~= self@.hunks);
        acc
    }

    /// Total count of removed lines over all hunks.
    pub fn removed(&self) -> (r: usize)
        requires
            sum_removed(self@.hunks) <= usize::MAX,
        ensures
            r == sum_removed(self@.hunks),
    {
        let mut acc: usize = 0;
        let mut i: usize = 0;
        assert(self@.hunks.take(0) =~= Seq::<HunkModel>::empty());
        while i < self.hunks.len()
            invariant
                0 <= i <= self@.hunks.len(),
                sum_removed(self@.hunks) <= usize::MAX,
                acc == sum_removed(self@.hunks.take(i as int)),
            decreases self@.hunks.len() - i,
        {
            assert(self@.hunks.take(i + 1).drop_last() =~= self@.hunks.take(i as int));
            proof {
                sum_take_le(self@.hunks, i + 1);
            }
            acc = acc + self.hunks[i].removed;
            i += 1;
        }
        assert(self@.hunks.take(i as int) =~= self@.hunks);
        acc
    }

    /// The file is newly added, recomputed from the current hunks.
    pub fn is_added_file(&self) -> (r: bool)
        ensures
            r == spec_is_added_file(self@),
    {
        self.hunks.len() == 1 && self.hunks[0].source_start == 0 && self.hunks[0].source_length
            == 0
    }

    /// The file is removed, recomputed from the current hunks.
    pub fn is_removed_file(&self) -> (r: bool)
        ensures
            r == spec_is_removed_file(self@),
    {
        self.hunks.len() == 1 && self.hunks[0].target_start == 0 && self.hunks[0].target_length
            == 0
    }

    /// The file is modified: neither newly added nor removed.
    pub fn is_modified_file(&self) -> (r: bool)
        ensures
            r == (!spec_is_added_file(self@) && !spec_is_removed_file(self@)),
    {
        !self.is_added_file() && !self.is_removed_file()
    }

    /// Count of hunks.
    pub fn len(&self) -> (r: usize)
        ensures
            r == self@.hunks.len(),
    {
        self.hunks.len()
    }

    /// The file holds no hunks.
    pub fn is_empty(&self) -> (r: bool)
        ensures
            r == (self@.hunks.len() == 0),
    {
        self.hunks.is_empty()
    }

    /// The hunks of this file.
    pub fn hunks(&self) -> (r: &[Hunk])
        ensures
            r.deep_view() == self@.hunks,
    {
        self.hunks.as_slice()
    }

    /// Mutable access to the hunks of this file.
    pub fn hunks_mut(&mut self) -> (r: &mut Vec<Hunk>)
        ensures
            *r == old(self).hunks,
            *final(self) == (PatchedFile { hunks: *final(r), ..*old(self) }),
    {
        &mut self.hunks
    }

    /// The hunk at `idx`, or `None` past the end.
    pub fn get(&self, idx: usize) -> (r: Option<&Hunk>)
        ensures
            match r {
                Some(h) => idx < self@.hunks.len() && h@ == self@.hunks[idx as int],
                None => idx >= self@.hunks.len(),
            },
    {
        if idx < self.hunks.len() {
            Some(&self.hunks[idx])
        } else {
            None
        }
    }

    /// An exact copy of the file.
    pub fn duplicate(&self) -> (r: PatchedFile)
        ensures
            r@ == self@,
    {
        let mut hs: Vec<Hunk> = Vec::new();
        let mut i: usize = 0;
        while i < self.hunks.len()
            invariant
                0 <= i <= self.hunks.len(),
                hs.deep_view() =~= self@.hunks.take(i as int),
            decreases self.hunks.len() - i,
        {
            assert(self@.hunks.take(i + 1) =~= self@.hunks.take(i as int).push(
                self.hunks[i as int]@,
            ));
            hs.push(self.hunks[i].duplicate());
            assert(hs.deep_view() =~= self@.hunks.take(i + 1));
            i += 1;
        }
        assert(hs.deep_view() =~= self@.hunks);
        PatchedFile {
            source_file: self.source_file.clone(),
            source_timestamp: match &self.source_timestamp {
                Some(t) => Some(t.clone()),
                None => None,
            },
            target_file: self.target_file.clone(),
            target_timestamp: match &self.target_timestamp {
                Some(t) => Some(t.clone()),
                None => None,
            },
            hunks: hs,
        }
    }
}

/// Copies the lines accepted by `pred` in order, `spec_pred` being the
/// meaning of `pred` at the model level.
fn filter_lines<F: Fn(&Line) -> bool>(
    lines: &Vec<Line>,
    spec_pred: Ghost<spec_fn(LineModel) -> bool>,
    pred: F,
) -> (r: Vec<Line>)
    requires
        forall|l: &Line, b: bool| #[trigger] pred.ensures((l,), b) ==> b == spec_pred@(l@),
        forall|l: &Line| #[trigger] pred.requires((l,)),
    ensures
        r.deep_view() == lines.deep_view().filter(spec_pred@),
{
    broadcast use Seq::filter_distributes_over_add;

    let mut r: Vec<Line> = Vec::new();
    let mut i: usize = 0;
    assert(lines.deep_view().take(0) =~= Seq::<LineModel>::empty());
    while i < lines.len()
        invariant
            0 <= i <= lines.len(),
            forall|l: &Line, b: bool| #[trigger] pred.ensures((l,), b) ==> b == spec_pred@(l@),
            forall|l: &Line| #[trigger] pred.requires((l,)),
            r.deep_view() == lines.deep_view().take(i as int).filter(spec_pred@),
        decreases lines.len() - i,
    {
        let ghost prefix = lines.deep_view().take(i as int);
        assert(lines.deep_view().take(i + 1) =~= prefix + seq![lines.deep_view()[i as int]]);
        if pred(&lines[i]) {
            r.push(lines[i].duplicate());
            assert(seq![lines.deep_view()[i as int]].filter(spec_pred@) =~= seq![
                lines.deep_view()[i as int],
            ]) by {
                reveal_with_fuel(Seq::filter, 2);
            };
        } else {
            assert(seq![lines.deep_view()[i as int]].filter(spec_pred@)
                =~= Seq::<LineModel>::empty()) by {
                reveal_with_fuel(Seq::filter, 2);
            };
        }
        i += 1;
    }
    assert(lines.deep_view().take(lines.len() as int) =~= lines.deep_view());
    r
}

} // verus!
