//! Parsing of unified-diff text into the diff model.
//!
//! The grammar is read line by line. What each line does to the parse is
//! given by [`step`]; [`parse_spec`] folds it over the lines of the text.

use vstd::prelude::*;
use crate::diff_file::{without_marker, DiffFile, DiffFileView, DiffLine, DiffLineView, LineType};
use crate::text::{
    char_range, collect_chars, count_leading, find_char, first_index, leading_count,
    starts_with, string_from_chars,
};

verus! {

/// `line` without one trailing carriage return.
pub open spec fn strip_cr(line: Seq<char>) -> Seq<char> {
    if line.len() > 0 && line.last() == '\r' {
        line.drop_last()
    } else {
        line
    }
}

/// The lines of a text. A line ends at a line feed; a carriage return just
/// before the line feed belongs to the line ending. The last line needs no
/// line ending, and is then kept as it is.
pub open spec fn split_lines(text: Seq<char>) -> Seq<Seq<char>>
    decreases text.len(),
{
    let k = first_index(text, '\n');
    if text.len() == 0 {
        Seq::empty()
    } else if 0 <= k < text.len() {
        seq![strip_cr(text.take(k))] + split_lines(text.skip(k + 1))
    } else {
        seq![text]
    }
}

/// The characters that separate the tokens of a header line.
pub open spec fn is_whitespace(c: char) -> bool {
    let n = c as u32;
    ||| 0x09 <= n <= 0x0d
    ||| n == 0x20
    ||| n == 0x85
    ||| n == 0xa0
    ||| n == 0x1680
    ||| 0x2000 <= n <= 0x200a
    ||| n == 0x2028
    ||| n == 0x2029
    ||| n == 0x202f
    ||| n == 0x205f
    ||| n == 0x3000
}

/// Length of the longest prefix of `s` made of whitespace (`ws`) or of
/// anything else (`!ws`).
pub open spec fn leading_run(s: Seq<char>, ws: bool) -> int
    decreases s.len(),
{
    if s.len() > 0 && is_whitespace(s[0]) == ws {
        1 + leading_run(s.drop_first(), ws)
    } else {
        0
    }
}

/// The maximal runs of non-whitespace characters of `s`, in order.
pub open spec fn whitespace_tokens(s: Seq<char>) -> Seq<Seq<char>>
    decreases s.len(),
{
    let a = leading_run(s, true);
    let rest = s.skip(a);
    let b = leading_run(rest, false);
    if 0 <= a < s.len() && 0 < b <= rest.len() {
        seq![rest.take(b)] + whitespace_tokens(rest.skip(b))
    } else {
        Seq::empty()
    }
}

/// `s` without the prefix `p`, if it begins with it.
pub open spec fn strip_prefix(s: Seq<char>, p: Seq<char>) -> Seq<char> {
    if p.is_prefix_of(s) {
        s.skip(p.len() as int)
    } else {
        s
    }
}

/// The file that a `diff --git` line names: its fourth token without a
/// leading `b/`. A line of fewer tokens names none.
pub open spec fn header_file_name(line: Seq<char>) -> Option<Seq<char>> {
    let tokens = whitespace_tokens(line);
    if tokens.len() >= 4 {
        Some(strip_prefix(tokens[3], "b/"@))
    } else {
        None
    }
}

/// The parts of `s` before and after its first `c`.
pub open spec fn split_once(s: Seq<char>, c: char) -> Option<(Seq<char>, Seq<char>)> {
    let k = first_index(s, c);
    if 0 <= k < s.len() {
        Some((s.take(k), s.skip(k + 1)))
    } else {
        None
    }
}

/// The two range fields of a hunk header: what stands between the first and
/// the second space of the line, and what follows the second space, up to the
/// next space or the end of the line. A line of fewer than two spaces has none.
pub open spec fn hunk_fields(line: Seq<char>) -> Option<(Seq<char>, Seq<char>)> {
    match split_once(line, ' ') {
        Some((_, rest)) => match split_once(rest, ' ') {
            Some((old_field, tail)) => Some((old_field, tail.take(first_index(tail, ' ')))),
            None => None,
        },
        None => None,
    }
}

pub open spec fn is_digit(c: char) -> bool {
    48 <= c as u32 <= 57
}

pub open spec fn digit_value(c: char) -> nat {
    if is_digit(c) {
        (c as u32 - 48) as nat
    } else {
        0
    }
}

/// The number that a sequence of decimal digits writes.
pub open spec fn decimal_value(digits: Seq<char>) -> nat
    decreases digits.len(),
{
    if digits.len() == 0 {
        0
    } else {
        decimal_value(digits.drop_last()) * 10 + digit_value(digits.last())
    }
}

pub open spec fn all_digits(s: Seq<char>) -> bool {
    forall|i: int| 0 <= i < s.len() ==> is_digit(#[trigger] s[i])
}

/// The value of an unsigned decimal number: an optional `+`, then at least
/// one digit, the whole no greater than `u32::MAX`.
pub open spec fn parse_number(s: Seq<char>) -> Option<u32> {
    let digits = if s.len() > 0 && s[0] == '+' {
        s.drop_first()
    } else {
        s
    };
    if digits.len() > 0 && all_digits(digits) && decimal_value(digits) <= u32::MAX {
        Some(decimal_value(digits) as u32)
    } else {
        None
    }
}

/// The line number that a range field of a hunk header starts at: the number
/// written between the leading `marker`s and the first comma, or 1 where no
/// number stands there.
pub open spec fn hunk_start(field: Seq<char>, marker: char) -> u32 {
    let trimmed = field.skip(leading_count(field, marker));
    let number = trimmed.take(first_index(trimmed, ','));
    match parse_number(number) {
        Some(n) => n,
        None => 1,
    }
}

/// What a line of diff text is taken for.
#[derive(Debug, Clone, Copy, PartialEq, Eq, Structural)]
pub enum LineKind {
    FileHeader,
    HunkHeader,
    Added,
    Removed,
    Context,
    Other,
}

pub open spec fn line_kind(line: Seq<char>) -> LineKind {
    if "diff --git"@.is_prefix_of(line) {
        LineKind::FileHeader
    } else if "@@"@.is_prefix_of(line) {
        LineKind::HunkHeader
    } else if "+"@.is_prefix_of(line) && !"+++"@.is_prefix_of(line) {
        LineKind::Added
    } else if "-"@.is_prefix_of(line) && !"---"@.is_prefix_of(line) {
        LineKind::Removed
    } else if " "@.is_prefix_of(line) {
        LineKind::Context
    } else {
        LineKind::Other
    }
}

/// The parse so far: the files that are complete, the file that lines are
/// being added to, and the running line counters of the two sides.
pub struct ParseState {
    pub files: Seq<DiffFileView>,
    pub current: Option<DiffFileView>,
    pub old_line: u32,
    pub new_line: u32,
}

/// The successor of a line counter. It wraps around at `u32::MAX`.
pub open spec fn next_number(n: u32) -> u32 {
    if n == u32::MAX {
        0
    } else {
        (n + 1) as u32
    }
}

pub open spec fn initial_state() -> ParseState {
    ParseState { files: Seq::empty(), current: None, old_line: 0, new_line: 0 }
}

pub open spec fn with_line(file: DiffFileView, line: DiffLineView) -> DiffFileView {
    DiffFileView { lines: file.lines.push(line), ..file }
}

pub open spec fn header_line(line: Seq<char>) -> DiffLineView {
    DiffLineView {
        line_type: LineType::Header,
        old_line_num: None,
        new_line_num: None,
        content: line,
    }
}

pub open spec fn added_line(line: Seq<char>, number: u32) -> DiffLineView {
    DiffLineView {
        line_type: LineType::Added,
        old_line_num: None,
        new_line_num: Some(number),
        content: without_marker(line),
    }
}

pub open spec fn removed_line(line: Seq<char>, number: u32) -> DiffLineView {
    DiffLineView {
        line_type: LineType::Removed,
        old_line_num: Some(number),
        new_line_num: None,
        content: without_marker(line),
    }
}

pub open spec fn context_line(line: Seq<char>, old_number: u32, new_number: u32) -> DiffLineView {
    DiffLineView {
        line_type: LineType::Context,
        old_line_num: Some(old_number),
        new_line_num: Some(new_number),
        content: without_marker(line),
    }
}

/// The files that are complete once `state.current` is closed.
pub open spec fn closed_files(state: ParseState) -> Seq<DiffFileView> {
    match state.current {
        Some(file) => state.files.push(file),
        None => state.files,
    }
}

/// What a `diff --git` line does: it closes the current file and opens the
/// file it names, if it names one.
pub open spec fn step_file_header(state: ParseState, line: Seq<char>) -> ParseState {
    ParseState {
        files: closed_files(state),
        current: match header_file_name(line) {
            Some(name) => Some(DiffFileView { name, status: 'M', lines: Seq::empty() }),
            None => None,
        },
        ..state
    }
}

/// What any other line does to the current file and the counters.
pub open spec fn step_in_file(state: ParseState, file: DiffFileView, line: Seq<char>) -> ParseState {
    match line_kind(line) {
        LineKind::HunkHeader => {
            let fields = hunk_fields(line);
            ParseState {
                current: Some(with_line(file, header_line(line))),
                old_line: match fields {
                    Some((old_field, _)) => hunk_start(old_field, '-'),
                    None => state.old_line,
                },
                new_line: match fields {
                    Some((_, new_field)) => hunk_start(new_field, '+'),
                    None => state.new_line,
                },
                ..state
            }
        },
        LineKind::Added => ParseState {
            current: Some(with_line(file, added_line(line, state.new_line))),
            new_line: next_number(state.new_line),
            ..state
        },
        LineKind::Removed => ParseState {
            current: Some(with_line(file, removed_line(line, state.old_line))),
            old_line: next_number(state.old_line),
            ..state
        },
        LineKind::Context => ParseState {
            current: Some(with_line(file, context_line(line, state.old_line, state.new_line))),
            old_line: next_number(state.old_line),
            new_line: next_number(state.new_line),
            ..state
        },
        _ => state,
    }
}

/// The parse after one more line. Lines that stand before the first file, or
/// after a `diff --git` line that names no file, change nothing.
pub open spec fn step(state: ParseState, line: Seq<char>) -> ParseState {
    if line_kind(line) == LineKind::FileHeader {
        step_file_header(state, line)
    } else {
        match state.current {
            Some(file) => step_in_file(state, file, line),
            None => state,
        }
    }
}

/// The parse after all of `lines`, in order.
pub open spec fn run(state: ParseState, lines: Seq<Seq<char>>) -> ParseState
    decreases lines.len(),
{
    if lines.len() == 0 {
        state
    } else {
        run(step(state, lines[0]), lines.drop_first())
    }
}

/// The files of a sequence of lines.
pub open spec fn parse_lines(lines: Seq<Seq<char>>) -> Seq<DiffFileView> {
    closed_files(run(initial_state(), lines))
}

/// The files of a diff text.
pub open spec fn parse_spec(text: Seq<char>) -> Seq<DiffFileView> {
    parse_lines(split_lines(text))
}

pub proof fn lemma_leading_run(s: Seq<char>, ws: bool)
    ensures
        0 <= leading_run(s, ws) <= s.len(),
        leading_run(s, ws) < s.len() ==> is_whitespace(s[leading_run(s, ws)]) != ws,
        forall|k: int| 0 <= k < leading_run(s, ws) ==> is_whitespace(s[k]) == ws,
    decreases s.len(),
{
    if s.len() > 0 && is_whitespace(s[0]) == ws {
        let t = s.drop_first();
        lemma_leading_run(t, ws);
        assert forall|k: int| 0 <= k < leading_run(s, ws) implies is_whitespace(s[k]) == ws by {
            if k > 0 {
                assert(s[k] == t[k - 1]);
            }
        }
    }
}

pub proof fn lemma_leading_run_is(s: Seq<char>, ws: bool, i: int)
    requires
        0 <= i <= s.len(),
        i < s.len() ==> is_whitespace(s[i]) != ws,
        forall|k: int| 0 <= k < i ==> is_whitespace(s[k]) == ws,
    ensures
        leading_run(s, ws) == i,
    decreases s.len(),
{
    if s.len() > 0 && is_whitespace(s[0]) == ws {
        let t = s.drop_first();
        lemma_leading_run_is(t, ws, i - 1);
    }
}

pub proof fn lemma_decimal_value_prefix(digits: Seq<char>, k: int)
    requires
        0 <= k <= digits.len(),
    ensures
        decimal_value(digits.take(k)) <= decimal_value(digits),
    decreases digits.len() - k,
{
    if k < digits.len() {
        lemma_decimal_value_prefix(digits, k + 1);
        assert(digits.take(k + 1).drop_last() =~= digits.take(k));
    } else {
        assert(digits.take(k) =~= digits);
    }
}

/// Does `c` separate tokens?
pub fn is_whitespace_char(c: char) -> (r: bool)
    ensures
        r == is_whitespace(c),
{
    let n: u32 = c as u32;
    (0x09 <= n && n <= 0x0d) || n == 0x20 || n == 0x85 || n == 0xa0 || n == 0x1680 || (0x2000 <= n
        && n <= 0x200a) || n == 0x2028 || n == 0x2029 || n == 0x202f || n == 0x205f || n == 0x3000
}

/// Length of the run of whitespace, or of anything else, that `line` holds
/// from `from` on.
fn run_length(line: &[char], from: usize, ws: bool) -> (n: usize)
    requires
        from <= line@.len(),
    ensures
        n == leading_run(line@.skip(from as int), ws),
        from + n <= line@.len(),
{
    let mut i: usize = from;
    while i < line.len() && is_whitespace_char(line[i]) == ws
        invariant
            from <= i <= line@.len(),
            forall|k: int| from <= k < i ==> is_whitespace(line@[k]) == ws,
        decreases line@.len() - i,
    {
        i += 1;
    }
    proof {
        lemma_leading_run_is(line@.skip(from as int), ws, i - from);
    }
    i - from
}

/// Where the first token of `line` at or after `pos` begins and ends.
fn next_token(line: &[char], pos: usize) -> (r: Option<(usize, usize)>)
    requires
        pos <= line@.len(),
    ensures
        match r {
            Some((start, end)) => {
                &&& pos <= start < end <= line@.len()
                &&& whitespace_tokens(line@.skip(pos as int)) == seq![
                    line@.subrange(start as int, end as int),
                ] + whitespace_tokens(line@.skip(end as int))
            },
            None => whitespace_tokens(line@.skip(pos as int)) == Seq::<Seq<char>>::empty(),
        },
{
    let ghost rest = line@.skip(pos as int);
    let len = line.len();
    let a = run_length(line, pos, true);
    let start = pos + a;
    if start >= len {
        return None;
    }
    let b = run_length(line, start, false);
    proof {
        lemma_leading_run(rest, true);
        assert(rest.skip(a as int) =~= line@.skip(start as int));
        assert(b > 0) by {
            lemma_leading_run(line@.skip(start as int), false);
        }
        assert(rest.skip(a as int).skip(b as int) =~= line@.skip(start + b));
        assert(rest.skip(a as int).take(b as int) =~= line@.subrange(
            start as int,
            start + b,
        ));
    }
    Some((start, start + b))
}

/// The token of `line` at position `n`, counting from 0.
pub fn nth_token(line: &[char], n: usize) -> (r: Option<&[char]>)
    ensures
        match r {
            Some(token) => n < whitespace_tokens(line@).len() && token@ == whitespace_tokens(
                line@,
            )[n as int],
            None => whitespace_tokens(line@).len() <= n,
        },
{
    let mut pos: usize = 0;
    let mut k: usize = 0;
    let ghost mut found: Seq<Seq<char>> = Seq::empty();
    assert(line@.skip(0) =~= line@);
    loop
        invariant
            pos <= line@.len(),
            k <= n,
            found.len() == k,
            whitespace_tokens(line@) =~= found + whitespace_tokens(line@.skip(pos as int)),
        decreases line@.len() - pos,
    {
        match next_token(line, pos) {
            Some((start, end)) => {
                if k == n {
                    return Some(char_range(line, start, end));
                }
                proof {
                    found = found.push(line@.subrange(start as int, end as int));
                }
                k += 1;
                pos = end;
            },
            None => {
                return None;
            },
        }
    }
}

/// The tokens of `line`, in order.
pub fn split_whitespace(line: &[char]) -> (tokens: Vec<String>)
    ensures
        tokens.deep_view() == whitespace_tokens(line@),
{
    let mut tokens: Vec<String> = Vec::new();
    let mut pos: usize = 0;
    assert(line@.skip(0) =~= line@);
    loop
        invariant
            pos <= line@.len(),
            whitespace_tokens(line@) =~= tokens.deep_view() + whitespace_tokens(
                line@.skip(pos as int),
            ),
        ensures
            tokens.deep_view() == whitespace_tokens(line@),
        decreases line@.len() - pos,
    {
        match next_token(line, pos) {
            Some((start, end)) => {
                let ghost before = tokens.deep_view();
                tokens.push(string_from_chars(char_range(line, start, end)));
                assert(tokens.deep_view() =~= before.push(
                    line@.subrange(start as int, end as int),
                ));
                pos = end;
            },
            None => {
                break ;
            },
        }
    }
    tokens
}

/// The file name of a `diff --git` line.
fn file_name_of(line: &[char]) -> (r: Option<String>)
    ensures
        r.deep_view() == header_file_name(line@),
{
    match nth_token(line, 3) {
        Some(token) => {
            proof {
                reveal_strlit("b/");
            }
            if starts_with(token, "b/") {
                let rest = char_range(token, 2, token.len());
                Some(string_from_chars(rest))
            } else {
                Some(string_from_chars(token))
            }
        },
        None => None,
    }
}

pub fn classify(line: &[char]) -> (kind: LineKind)
    ensures
        kind == line_kind(line@),
{
    if starts_with(line, "diff --git") {
        LineKind::FileHeader
    } else if starts_with(line, "@@") {
        LineKind::HunkHeader
    } else if starts_with(line, "+") && !starts_with(line, "+++") {
        LineKind::Added
    } else if starts_with(line, "-") && !starts_with(line, "---") {
        LineKind::Removed
    } else if starts_with(line, " ") {
        LineKind::Context
    } else {
        LineKind::Other
    }
}

/// Reads an unsigned decimal number.
pub fn parse_decimal(s: &[char]) -> (r: Option<u32>)
    ensures
        r == parse_number(s@),
{
    let start: usize = if s.len() > 0 && s[0] == '+' {
        1
    } else {
        0
    };
    let ghost digits = if s@.len() > 0 && s@[0] == '+' {
        s@.drop_first()
    } else {
        s@
    };
    if start == s.len() {
        return None;
    }
    let mut acc: u64 = 0;
    let mut i: usize = start;
    while i < s.len()
        invariant
            start <= i <= s@.len(),
            digits == s@.skip(start as int),
            digits == if s@.len() > 0 && s@[0] == '+' {
                s@.drop_first()
            } else {
                s@
            },
            acc == decimal_value(digits.take(i - start)),
            acc <= u32::MAX,
            all_digits(digits.take(i - start)),
        decreases s@.len() - i,
    {
        let n: u32 = s[i] as u32;
        if n < 48 || n > 57 {
            assert(!is_digit(digits[i - start]));
            return None;
        }
        let ghost before = digits.take(i - start);
        let ghost after = digits.take(i - start + 1);
        assert(after.drop_last() =~= before);
        acc = acc * 10 + (n - 48) as u64;
        if acc > 0xffff_ffff {
            proof {
                lemma_decimal_value_prefix(digits, i - start + 1);
            }
            return None;
        }
        i += 1;
    }
    assert(digits.take(i - start) =~= digits);
    Some(acc as u32)
}

/// The starting line number that a range field of a hunk header gives.
fn start_of_field(field: &[char], marker: char) -> (n: u32)
    ensures
        n == hunk_start(field@, marker),
{
    let lead = count_leading(field, marker);
    let trimmed = char_range(field, lead, field.len());
    let comma = find_char(trimmed, ',');
    let number = char_range(trimmed, 0, comma);
    match parse_decimal(number) {
        Some(n) => n,
        None => 1,
    }
}

/// The two range fields of a hunk header.
fn fields_of(line: &[char]) -> (r: Option<(&[char], &[char])>)
    ensures
        match r {
            Some((a, b)) => hunk_fields(line@) == Some((a@, b@)),
            None => hunk_fields(line@) is None,
        },
{
    let first = find_char(line, ' ');
    if first >= line.len() {
        return None;
    }
    let rest = char_range(line, first + 1, line.len());
    let second = find_char(rest, ' ');
    if second >= rest.len() {
        return None;
    }
    let old_field = char_range(rest, 0, second);
    let tail = char_range(rest, second + 1, rest.len());
    let new_field = char_range(tail, 0, find_char(tail, ' '));
    Some((old_field, new_field))
}

fn next_line_number(n: u32) -> (r: u32)
    ensures
        r == next_number(n),
{
    if n == u32::MAX {
        0
    } else {
        n + 1
    }
}

/// A parse in progress.
struct Parser {
    files: Vec<DiffFile>,
    current_file: Option<DiffFile>,
    old_line_num: u32,
    new_line_num: u32,
}

impl View for Parser {
    type V = ParseState;

    closed spec fn view(&self) -> ParseState {
        ParseState {
            files: self.files.deep_view(),
            current: self.current_file.deep_view(),
            old_line: self.old_line_num,
            new_line: self.new_line_num,
        }
    }
}

impl Parser {
    fn new() -> (parser: Self)
        ensures
            parser@ == initial_state(),
    {
        let parser = Parser {
            files: Vec::new(),
            current_file: None,
            old_line_num: 0,
            new_line_num: 0,
        };
        assert(parser.files.deep_view() =~= Seq::empty());
        parser
    }

    /// Closes the current file, if one is open.
    fn close_file(&mut self)
        ensures
            final(self)@ == (ParseState { files: closed_files(old(self)@), current: None, ..old(self)@ }),
    {
        match self.current_file.take() {
            Some(file) => {
                self.files.push(file);
                assert(self.files.deep_view() =~= old(self).files.deep_view().push(file@));
            },
            None => {},
        }
    }

    /// Takes the next line of the text.
    fn feed_line(&mut self, line: &[char])
        ensures
            final(self)@ == step(old(self)@, line@),
    {
        let kind = classify(line);
        match kind {
            LineKind::FileHeader => {
                self.close_file();
                match file_name_of(line) {
                    Some(name) => {
                        self.current_file = Some(DiffFile::new(name.as_str()));
                    },
                    None => {},
                }
            },
            LineKind::Other => {},
            _ => {
                match self.current_file.take() {
                    None => {},
                    Some(mut file) => {
                        match kind {
                            LineKind::HunkHeader => {
                                match fields_of(line) {
                                    Some((old_field, new_field)) => {
                                        self.old_line_num = start_of_field(old_field, '-');
                                        self.new_line_num = start_of_field(new_field, '+');
                                    },
                                    None => {},
                                }
                                file.add_line(DiffLine::header_from_chars(line));
                            },
                            LineKind::Added => {
                                file.add_line(DiffLine::added_from_chars(line, self.new_line_num));
                                self.new_line_num = next_line_number(self.new_line_num);
                            },
                            LineKind::Removed => {
                                file.add_line(
                                    DiffLine::removed_from_chars(line, self.old_line_num),
                                );
                                self.old_line_num = next_line_number(self.old_line_num);
                            },
                            _ => {
                                file.add_line(
                                    DiffLine::context_from_chars(
                                        line,
                                        self.old_line_num,
                                        self.new_line_num,
                                    ),
                                );
                                self.old_line_num = next_line_number(self.old_line_num);
                                self.new_line_num = next_line_number(self.new_line_num);
                            },
                        }
                        self.current_file = Some(file);
                    },
                }
            },
        }
    }

    /// Ends the parse and hands out its files.
    fn finish(self) -> (files: Vec<DiffFile>)
        ensures
            files.deep_view() == closed_files(self@),
    {
        let mut parser = self;
        parser.close_file();
        parser.files
    }
}

/// Parses diff text. Never fails: what is not understood is left out.
pub fn parse_diff(diff_text: &str) -> (files: Vec<DiffFile>)
    ensures
        files.deep_view() == parse_spec(diff_text@),
{
    let text = collect_chars(diff_text);
    let mut parser = Parser::new();
    let mut pos: usize = 0;
    assert(text@.skip(0) =~= text@);
    while pos < text.len()
        invariant
            pos <= text@.len(),
            text@ == diff_text@,
            run(initial_state(), split_lines(text@)) == run(
                parser@,
                split_lines(text@.skip(pos as int)),
            ),
        decreases text@.len() - pos,
    {
        let rest = char_range(text.as_slice(), pos, text.len());
        let end = find_char(rest, '\n');
        let ghost lines = split_lines(rest@);
        if end < rest.len() {
            let line = if end > 0 && rest[end - 1] == '\r' {
                char_range(rest, 0, end - 1)
            } else {
                char_range(rest, 0, end)
            };
            assert(line@ =~= strip_cr(rest@.take(end as int)));
            assert(rest@.skip(end + 1) =~= text@.skip(pos + end + 1));
            assert(lines.drop_first() =~= split_lines(rest@.skip(end + 1)));
            parser.feed_line(line);
            pos = pos + end + 1;
        } else {
            assert(lines.drop_first() =~= Seq::<Seq<char>>::empty());
            parser.feed_line(rest);
            pos = text.len();
        }
    }
    parser.finish()
}

} // verus!
