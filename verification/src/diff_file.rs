//! The diff model: files made of typed, numbered lines.

use vstd::prelude::*;
use crate::text::{char_range, collect_chars, string_from_chars};

verus! {

/// What a line of a hunk is.
#[derive(Debug, Clone, Copy, PartialEq, Eq, Structural)]
pub enum LineType {
    Context,
    Added,
    Removed,
    Header,
}

/// One line of a diff hunk.
#[derive(Debug, Clone)]
pub struct DiffLine {
    pub line_type: LineType,
    pub old_line_num: Option<u32>,
    pub new_line_num: Option<u32>,
    pub content: String,
}

/// The mathematical value of a [`DiffLine`].
pub struct DiffLineView {
    pub line_type: LineType,
    pub old_line_num: Option<u32>,
    pub new_line_num: Option<u32>,
    pub content: Seq<char>,
}

/// One file's block of changes.
#[derive(Debug, Clone)]
pub struct DiffFile {
    pub name: String,
    pub status: char,
    pub lines: Vec<DiffLine>,
}

/// The mathematical value of a [`DiffFile`].
pub struct DiffFileView {
    pub name: Seq<char>,
    pub status: char,
    pub lines: Seq<DiffLineView>,
}

impl DiffLineView {
    /// A line carries an old number exactly when it is a context or removed
    /// line, and a new number exactly when it is a context or added line.
    pub open spec fn well_formed(self) -> bool {
        &&& self.old_line_num is Some <==> (self.line_type == LineType::Context
            || self.line_type == LineType::Removed)
        &&& self.new_line_num is Some <==> (self.line_type == LineType::Context
            || self.line_type == LineType::Added)
    }
}

impl DiffFileView {
    pub open spec fn well_formed(self) -> bool {
        forall|i: int| 0 <= i < self.lines.len() ==> (#[trigger] self.lines[i]).well_formed()
    }
}

/// `line` without its first character; an empty line stays empty.
pub open spec fn without_marker(line: Seq<char>) -> Seq<char> {
    if line.len() > 0 {
        line.drop_first()
    } else {
        line
    }
}

impl View for DiffLine {
    type V = DiffLineView;

    open spec fn view(&self) -> DiffLineView {
        DiffLineView {
            line_type: self.line_type,
            old_line_num: self.old_line_num,
            new_line_num: self.new_line_num,
            content: self.content@,
        }
    }
}

impl DeepView for DiffLine {
    type V = DiffLineView;

    open spec fn deep_view(&self) -> DiffLineView {
        self@
    }
}

impl View for DiffFile {
    type V = DiffFileView;

    open spec fn view(&self) -> DiffFileView {
        DiffFileView { name: self.name@, status: self.status, lines: self.lines.deep_view() }
    }
}

impl DeepView for DiffFile {
    type V = DiffFileView;

    open spec fn deep_view(&self) -> DiffFileView {
        self@
    }
}

impl DiffFile {
    /// A file with the given name, the status `'M'` and no lines.
    pub fn new(name: &str) -> (file: Self)
        ensures
            file@ == (DiffFileView { name: name@, status: 'M', lines: Seq::empty() }),
    {
        let file = Self { name: name.to_owned(), status: 'M', lines: Vec::new() };
        assert(file.lines.deep_view() =~= Seq::empty());
        file
    }

    pub fn line_count(&self) -> (n: usize)
        ensures
            n == self@.lines.len(),
    {
        self.lines.len()
    }

    /// Appends `line` after the lines already there.
    pub fn add_line(&mut self, line: DiffLine)
        ensures
            final(self)@ == (DiffFileView {
                lines: old(self)@.lines.push(line@),
                ..old(self)@
            }),
    {
        self.lines.push(line);
        assert(self.lines.deep_view() =~= old(self).lines.deep_view().push(line@));
    }

    pub fn get_status(&self) -> (status: char)
        ensures
            status == self@.status,
    {
        self.status
    }

    pub fn get_name(&self) -> (name: &str)
        ensures
            name@ == self@.name,
    {
        self.name.as_str()
    }
}

impl DiffLine {
    /// A hunk header, whose content is the whole line.
    pub fn new_header(line: &str) -> (r: Self)
        ensures
            r@ == (DiffLineView {
                line_type: LineType::Header,
                old_line_num: None,
                new_line_num: None,
                content: line@,
            }),
    {
        Self {
            line_type: LineType::Header,
            old_line_num: None,
            new_line_num: None,
            content: line.to_owned(),
        }
    }

    /// An added line: `line` without its marker, numbered on the new side.
    pub fn new_added(line: &str, line_number: u32) -> (r: Self)
        ensures
            r@ == (DiffLineView {
                line_type: LineType::Added,
                old_line_num: None,
                new_line_num: Some(line_number),
                content: without_marker(line@),
            }),
    {
        let chars = collect_chars(line);
        Self::added_from_chars(chars.as_slice(), line_number)
    }

    /// A removed line: `line` without its marker, numbered on the old side.
    pub fn new_removed(line: &str, line_number: u32) -> (r: Self)
        ensures
            r@ == (DiffLineView {
                line_type: LineType::Removed,
                old_line_num: Some(line_number),
                new_line_num: None,
                content: without_marker(line@),
            }),
    {
        let chars = collect_chars(line);
        Self::removed_from_chars(chars.as_slice(), line_number)
    }

    /// A context line: `line` without its marker, numbered on both sides.
    pub fn new_context(line: &str, old_line_num: u32, new_line_num: u32) -> (r: Self)
        ensures
            r@ == (DiffLineView {
                line_type: LineType::Context,
                old_line_num: Some(old_line_num),
                new_line_num: Some(new_line_num),
                content: without_marker(line@),
            }),
    {
        let chars = collect_chars(line);
        Self::context_from_chars(chars.as_slice(), old_line_num, new_line_num)
    }

    pub(crate) fn header_from_chars(line: &[char]) -> (r: Self)
        ensures
            r@ == (DiffLineView {
                line_type: LineType::Header,
                old_line_num: None,
                new_line_num: None,
                content: line@,
            }),
    {
        Self {
            line_type: LineType::Header,
            old_line_num: None,
            new_line_num: None,
            content: string_from_chars(line),
        }
    }

    pub(crate) fn added_from_chars(line: &[char], line_number: u32) -> (r: Self)
        ensures
            r@ == (DiffLineView {
                line_type: LineType::Added,
                old_line_num: None,
                new_line_num: Some(line_number),
                content: without_marker(line@),
            }),
    {
        Self {
            line_type: LineType::Added,
            old_line_num: None,
            new_line_num: Some(line_number),
            content: content_after_marker(line),
        }
    }

    pub(crate) fn removed_from_chars(line: &[char], line_number: u32) -> (r: Self)
        ensures
            r@ == (DiffLineView {
                line_type: LineType::Removed,
                old_line_num: Some(line_number),
                new_line_num: None,
                content: without_marker(line@),
            }),
    {
        Self {
            line_type: LineType::Removed,
            old_line_num: Some(line_number),
            new_line_num: None,
            content: content_after_marker(line),
        }
    }

    pub(crate) fn context_from_chars(line: &[char], old_line_num: u32, new_line_num: u32) -> (r:
        Self)
        ensures
            r@ == (DiffLineView {
                line_type: LineType::Context,
                old_line_num: Some(old_line_num),
                new_line_num: Some(new_line_num),
                content: without_marker(line@),
            }),
    {
        Self {
            line_type: LineType::Context,
            old_line_num: Some(old_line_num),
            new_line_num: Some(new_line_num),
            content: content_after_marker(line),
        }
    }
}

fn content_after_marker(line: &[char]) -> (content: String)
    ensures
        content@ == without_marker(line@),
{
    if line.len() > 0 {
        let rest = char_range(line, 1, line.len());
        string_from_chars(rest)
    } else {
        string_from_chars(line)
    }
}

} // verus!
