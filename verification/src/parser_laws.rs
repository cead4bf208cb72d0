//! What holds of every parse.

use vstd::prelude::*;
use crate::diff_file::{DiffFileView, DiffLineView, LineType};
use crate::parser::{
    closed_files, header_file_name, initial_state, is_whitespace, leading_run,
    lemma_leading_run, lemma_leading_run_is, line_kind, next_number, parse_lines, parse_spec,
    run, split_lines, step, whitespace_tokens, LineKind, ParseState,
};

verus! {

/// Does `line` open a file: is it a `diff --git` line of at least four tokens?
pub open spec fn opens_file(line: Seq<char>) -> bool {
    line_kind(line) == LineKind::FileHeader && header_file_name(line) is Some
}

/// Number of lines that open a file.
pub open spec fn count_file_headers(lines: Seq<Seq<char>>) -> nat
    decreases lines.len(),
{
    if lines.len() == 0 {
        0
    } else {
        count_file_headers(lines.drop_first()) + if opens_file(lines[0]) {
            1nat
        } else {
            0nat
        }
    }
}

proof fn lemma_run_file_count(state: ParseState, lines: Seq<Seq<char>>)
    ensures
        closed_files(run(state, lines)).len() == closed_files(state).len() + count_file_headers(
            lines,
        ),
    decreases lines.len(),
{
    if lines.len() > 0 {
        lemma_run_file_count(step(state, lines[0]), lines.drop_first());
    }
}

/// A parse yields one file for each `diff --git` line that has at least four
/// whitespace-separated tokens.
pub proof fn lemma_file_count(text: Seq<char>)
    ensures
        parse_spec(text).len() == count_file_headers(split_lines(text)),
{
    lemma_run_file_count(initial_state(), split_lines(text));
}

/// All lines of `files` are well formed.
pub open spec fn all_well_formed(files: Seq<DiffFileView>) -> bool {
    forall|f: int| 0 <= f < files.len() ==> (#[trigger] files[f]).well_formed()
}

proof fn lemma_run_well_formed(state: ParseState, lines: Seq<Seq<char>>)
    requires
        all_well_formed(closed_files(state)),
    ensures
        all_well_formed(closed_files(run(state, lines))),
    decreases lines.len(),
{
    if lines.len() > 0 {
        let next = step(state, lines[0]);
        assert(all_well_formed(closed_files(next))) by {
            let before = closed_files(state);
            let after = closed_files(next);
            assert forall|f: int| 0 <= f < after.len() implies (#[trigger] after[f]).well_formed() by {
                if f < before.len() {
                    assert(before[f].well_formed());
                }
            }
        }
        lemma_run_well_formed(next, lines.drop_first());
    }
}

/// Every parsed line carries an old number exactly when it is a context or
/// removed line, and a new number exactly when it is a context or added line.
pub proof fn lemma_parse_well_formed(text: Seq<char>)
    ensures
        all_well_formed(parse_spec(text)),
{
    lemma_run_well_formed(initial_state(), split_lines(text));
}

/// The number of `line` on one side of the diff.
pub open spec fn line_number(line: DiffLineView, old_side: bool) -> Option<u32> {
    if old_side {
        line.old_line_num
    } else {
        line.new_line_num
    }
}

pub open spec fn is_numbered(line: DiffLineView, old_side: bool) -> bool {
    line_number(line, old_side) is Some
}

/// How many of `lines[i..j]` are numbered on the given side.
pub open spec fn numbered_between(lines: Seq<DiffLineView>, old_side: bool, i: int, j: int) -> nat
    decreases j - i,
{
    if j <= i {
        0
    } else {
        numbered_between(lines, old_side, i, j - 1) + if is_numbered(lines[j - 1], old_side) {
            1nat
        } else {
            0nat
        }
    }
}

/// Lines `i` and `j` belong to one hunk: no header stands after `i`, up to
/// and including `j`.
pub open spec fn same_hunk(lines: Seq<DiffLineView>, i: int, j: int) -> bool {
    forall|k: int| i < k <= j ==> (#[trigger] lines[k]).line_type != LineType::Header
}

/// The counter `n` after `count` increments.
pub open spec fn advance(n: u32, count: nat) -> u32 {
    ((n + count) % 0x1_0000_0000) as u32
}

/// Within a hunk, the numbers of one side count up by one from each numbered
/// line to the next.
pub open spec fn numbered_in_sequence(lines: Seq<DiffLineView>, old_side: bool) -> bool {
    forall|i: int, j: int|
        0 <= i <= j < lines.len() && #[trigger] same_hunk(lines, i, j) && is_numbered(
            lines[i],
            old_side,
        ) && is_numbered(lines[j], old_side) ==> line_number(lines[j], old_side)->0 == advance(
            line_number(lines[i], old_side)->0,
            numbered_between(lines, old_side, i, j),
        )
}

/// The counter continues the numbering of the hunk that `lines` ends with.
spec fn counter_follows(lines: Seq<DiffLineView>, old_side: bool, counter: u32) -> bool {
    forall|i: int|
        0 <= i < lines.len() && #[trigger] same_hunk(lines, i, lines.len() - 1) && is_numbered(
            lines[i],
            old_side,
        ) ==> counter == advance(
            line_number(lines[i], old_side)->0,
            numbered_between(lines, old_side, i, lines.len() as int),
        )
}

spec fn counter_of(state: ParseState, old_side: bool) -> u32 {
    if old_side {
        state.old_line
    } else {
        state.new_line
    }
}

spec fn numbering_holds(state: ParseState, old_side: bool) -> bool {
    &&& forall|f: int|
        0 <= f < state.files.len() ==> numbered_in_sequence(
            (#[trigger] state.files[f]).lines,
            old_side,
        )
    &&& state.current matches Some(file) ==> {
        &&& numbered_in_sequence(file.lines, old_side)
        &&& counter_follows(file.lines, old_side, counter_of(state, old_side))
    }
}

proof fn lemma_numbered_between_push(
    lines: Seq<DiffLineView>,
    line: DiffLineView,
    old_side: bool,
    i: int,
    j: int,
)
    requires
        0 <= i,
        j <= lines.len(),
    ensures
        numbered_between(lines.push(line), old_side, i, j) == numbered_between(
            lines,
            old_side,
            i,
            j,
        ),
    decreases j - i,
{
    if j > i {
        lemma_numbered_between_push(lines, line, old_side, i, j - 1);
    }
}

proof fn lemma_same_hunk_push(lines: Seq<DiffLineView>, line: DiffLineView, i: int, j: int)
    requires
        0 <= i,
        j < lines.len(),
    ensures
        same_hunk(lines.push(line), i, j) == same_hunk(lines, i, j),
{
    let pushed = lines.push(line);
    if same_hunk(pushed, i, j) {
        assert forall|k: int| i < k <= j implies (#[trigger] lines[k]).line_type
            != LineType::Header by {
            assert(pushed[k] == lines[k]);
        }
    }
}

/// Adding a line that carries the counter on its side, or that has no number
/// there, keeps the numbering in sequence.
proof fn lemma_push_keeps_numbering(
    lines: Seq<DiffLineView>,
    line: DiffLineView,
    old_side: bool,
    counter: u32,
)
    requires
        numbered_in_sequence(lines, old_side),
        counter_follows(lines, old_side, counter),
        line.line_type != LineType::Header,
        is_numbered(line, old_side) ==> line_number(line, old_side) == Some(counter),
    ensures
        numbered_in_sequence(lines.push(line), old_side),
        counter_follows(
            lines.push(line),
            old_side,
            if is_numbered(line, old_side) {
                next_number(counter)
            } else {
                counter
            },
        ),
{
    let pushed = lines.push(line);
    let n = lines.len() as int;
    let after = if is_numbered(line, old_side) {
        next_number(counter)
    } else {
        counter
    };
    assert forall|i: int| 0 <= i < n && same_hunk(pushed, i, n) implies same_hunk(
        lines,
        i,
        n - 1,
    ) by {
        assert forall|k: int| i < k <= n - 1 implies (#[trigger] lines[k]).line_type
            != LineType::Header by {
            assert(pushed[k] == lines[k]);
        }
    }
    assert forall|i: int, j: int|
        0 <= i <= j < pushed.len() && #[trigger] same_hunk(pushed, i, j) && is_numbered(
            pushed[i],
            old_side,
        ) && is_numbered(pushed[j], old_side) implies line_number(pushed[j], old_side)->0
        == advance(
        line_number(pushed[i], old_side)->0,
        numbered_between(pushed, old_side, i, j),
    ) by {
        lemma_numbered_between_push(lines, line, old_side, i, j);
        if j < n {
            lemma_same_hunk_push(lines, line, i, j);
        }
    }
    assert forall|i: int|
        0 <= i < pushed.len() && #[trigger] same_hunk(pushed, i, pushed.len() - 1) && is_numbered(
            pushed[i],
            old_side,
        ) implies after == advance(
        line_number(pushed[i], old_side)->0,
        numbered_between(pushed, old_side, i, pushed.len() as int),
    ) by {
        lemma_numbered_between_push(lines, line, old_side, i, n);
    }
}

/// Adding a header starts a hunk: whatever the counter is, it follows.
proof fn lemma_push_header_keeps_numbering(
    lines: Seq<DiffLineView>,
    line: DiffLineView,
    old_side: bool,
    counter: u32,
)
    requires
        numbered_in_sequence(lines, old_side),
        line.line_type == LineType::Header,
        !is_numbered(line, old_side),
    ensures
        numbered_in_sequence(lines.push(line), old_side),
        counter_follows(lines.push(line), old_side, counter),
{
    let pushed = lines.push(line);
    assert forall|i: int, j: int|
        0 <= i <= j < pushed.len() && #[trigger] same_hunk(pushed, i, j) && is_numbered(
            pushed[i],
            old_side,
        ) && is_numbered(pushed[j], old_side) implies line_number(pushed[j], old_side)->0
        == advance(
        line_number(pushed[i], old_side)->0,
        numbered_between(pushed, old_side, i, j),
    ) by {
        lemma_numbered_between_push(lines, line, old_side, i, j);
        lemma_same_hunk_push(lines, line, i, j);
    }
}

proof fn lemma_step_keeps_numbering(state: ParseState, line: Seq<char>, old_side: bool)
    requires
        numbering_holds(state, old_side),
    ensures
        numbering_holds(step(state, line), old_side),
{
    let next = step(state, line);
    let kind = line_kind(line);
    if kind != LineKind::FileHeader {
        match state.current {
            Some(file) => {
                let counter = counter_of(state, old_side);
                match kind {
                    LineKind::HunkHeader => {
                        lemma_push_header_keeps_numbering(
                            file.lines,
                            next.current->0.lines.last(),
                            old_side,
                            counter_of(next, old_side),
                        );
                    },
                    LineKind::Added | LineKind::Removed | LineKind::Context => {
                        lemma_push_keeps_numbering(
                            file.lines,
                            next.current->0.lines.last(),
                            old_side,
                            counter,
                        );
                    },
                    _ => {},
                }
            },
            None => {},
        }
    }
}

proof fn lemma_run_keeps_numbering(state: ParseState, lines: Seq<Seq<char>>, old_side: bool)
    requires
        numbering_holds(state, old_side),
    ensures
        numbering_holds(run(state, lines), old_side),
    decreases lines.len(),
{
    if lines.len() > 0 {
        lemma_step_keeps_numbering(state, lines[0], old_side);
        lemma_run_keeps_numbering(step(state, lines[0]), lines.drop_first(), old_side);
    }
}

/// In every parsed file and on either side, the numbers within a hunk count
/// up by one from each numbered line to the next. The counters are 32 bits
/// wide and wrap around.
pub proof fn lemma_numbers_in_sequence(text: Seq<char>, old_side: bool)
    ensures
        forall|f: int|
            0 <= f < parse_spec(text).len() ==> numbered_in_sequence(
                (#[trigger] parse_spec(text)[f]).lines,
                old_side,
            ),
{
    lemma_run_keeps_numbering(initial_state(), split_lines(text), old_side);
}

/// Line numbers never go down within a hunk: of two lines of one hunk that
/// are numbered on a side, the later has the greater or equal number, as long
/// as the counter did not pass `u32::MAX` between them.
pub proof fn lemma_line_numbers_ascend(text: Seq<char>, old_side: bool, f: int, i: int, j: int)
    requires
        0 <= f < parse_spec(text).len(),
        0 <= i <= j < parse_spec(text)[f].lines.len(),
        same_hunk(parse_spec(text)[f].lines, i, j),
        is_numbered(parse_spec(text)[f].lines[i], old_side),
        is_numbered(parse_spec(text)[f].lines[j], old_side),
        line_number(parse_spec(text)[f].lines[i], old_side)->0 + numbered_between(
            parse_spec(text)[f].lines,
            old_side,
            i,
            j,
        ) <= u32::MAX,
    ensures
        line_number(parse_spec(text)[f].lines[i], old_side)->0 <= line_number(
            parse_spec(text)[f].lines[j],
            old_side,
        )->0,
{
    lemma_numbers_in_sequence(text, old_side);
}

/// The marker that a line of the given type begins with in diff text. A
/// header has none: its content is the whole line.
pub open spec fn marker(line_type: LineType) -> Seq<char> {
    match line_type {
        LineType::Added => seq!['+'],
        LineType::Removed => seq!['-'],
        LineType::Context => seq![' '],
        LineType::Header => Seq::empty(),
    }
}

/// The line of diff text that a line of the model stands for.
pub open spec fn source_line(line: DiffLineView) -> Seq<char> {
    marker(line.line_type) + line.content
}

/// The lines of diff text that the lines of a file stand for, in order.
pub open spec fn source_lines(file: DiffFileView) -> Seq<Seq<char>> {
    Seq::new(file.lines.len(), |i: int| source_line(file.lines[i]))
}

/// Is `line` part of a hunk: its header, or an added, removed or context line?
pub open spec fn is_hunk_line(line: Seq<char>) -> bool {
    match line_kind(line) {
        LineKind::HunkHeader | LineKind::Added | LineKind::Removed | LineKind::Context => true,
        _ => false,
    }
}

/// The hunk lines among `lines`, up to the first `diff --git` line.
pub open spec fn leading_hunk_lines(lines: Seq<Seq<char>>) -> Seq<Seq<char>>
    decreases lines.len(),
{
    if lines.len() == 0 || line_kind(lines[0]) == LineKind::FileHeader {
        Seq::empty()
    } else if is_hunk_line(lines[0]) {
        seq![lines[0]] + leading_hunk_lines(lines.drop_first())
    } else {
        leading_hunk_lines(lines.drop_first())
    }
}

/// For each line that opens a file, in order: the hunk lines that follow it,
/// up to the next `diff --git` line.
pub open spec fn hunk_lines_by_file(lines: Seq<Seq<char>>) -> Seq<Seq<Seq<char>>>
    decreases lines.len(),
{
    if lines.len() == 0 {
        Seq::empty()
    } else if opens_file(lines[0]) {
        seq![leading_hunk_lines(lines.drop_first())] + hunk_lines_by_file(lines.drop_first())
    } else {
        hunk_lines_by_file(lines.drop_first())
    }
}

/// The source lines of each of `files`.
pub open spec fn sources(files: Seq<DiffFileView>) -> Seq<Seq<Seq<char>>> {
    Seq::new(files.len(), |f: int| source_lines(files[f]))
}

/// What the files of `state` stand for, and what they will stand for once
/// `lines` have been read.
spec fn sources_after(state: ParseState, lines: Seq<Seq<char>>) -> Seq<Seq<Seq<char>>> {
    match state.current {
        Some(file) => sources(state.files) + seq![source_lines(file) + leading_hunk_lines(lines)]
            + hunk_lines_by_file(lines),
        None => sources(state.files) + hunk_lines_by_file(lines),
    }
}

proof fn lemma_step_sources(state: ParseState, lines: Seq<Seq<char>>)
    requires
        lines.len() > 0,
    ensures
        sources_after(step(state, lines[0]), lines.drop_first()) =~~= sources_after(state, lines),
{
    reveal_strlit("+");
    reveal_strlit("-");
    reveal_strlit(" ");
    let line = lines[0];
    let next = step(state, line);
    if line_kind(line) != LineKind::FileHeader {
        match state.current {
            Some(file) => {
                if is_hunk_line(line) {
                    let added = next.current->0.lines.last();
                    assert(source_line(added) =~= line) by {
                        if line_kind(line) != LineKind::HunkHeader {
                            assert(line.subrange(0, 1)[0] == line[0]);
                        }
                    }
                }
            },
            None => {},
        }
    }
}

proof fn lemma_run_sources(state: ParseState, lines: Seq<Seq<char>>)
    ensures
        sources(closed_files(run(state, lines))) =~~= sources_after(state, lines),
    decreases lines.len(),
{
    if lines.len() == 0 {
        match state.current {
            Some(file) => {
            },
            None => {},
        }
    } else {
        lemma_step_sources(state, lines);
        lemma_run_sources(step(state, lines[0]), lines.drop_first());
    }
}

/// Nothing of a hunk is lost. The lines of each parsed file, a header as it
/// stands and every other line with its marker put back, are the hunk lines
/// of the text that follow the line which opened the file, in their order.
pub proof fn lemma_round_trip(text: Seq<char>)
    ensures
        sources(parse_spec(text)) == hunk_lines_by_file(split_lines(text)),
{
    lemma_run_sources(initial_state(), split_lines(text));
}

/// A `diff --git` line that opens a file of the given name.
pub open spec fn file_header_line(name: Seq<char>) -> Seq<char> {
    "diff --git a/"@ + name + " b/"@ + name
}

/// Diff text, line by line, that stands for the files: for each file the
/// line that opens it, then its lines.
pub open spec fn rendered_lines(files: Seq<DiffFileView>) -> Seq<Seq<char>>
    decreases files.len(),
{
    if files.len() == 0 {
        Seq::empty()
    } else {
        rendered_lines(files.drop_last()) + seq![file_header_line(files.last().name)]
            + source_lines(files.last())
    }
}

pub open spec fn is_word(s: Seq<char>) -> bool {
    forall|k: int| 0 <= k < s.len() ==> !is_whitespace(#[trigger] s[k])
}

proof fn lemma_run_concat(state: ParseState, a: Seq<Seq<char>>, b: Seq<Seq<char>>)
    ensures
        run(state, a + b) == run(run(state, a), b),
    decreases a.len(),
{
    if a.len() > 0 {
        assert((a + b).drop_first() =~= a.drop_first() + b);
        lemma_run_concat(step(state, a[0]), a.drop_first(), b);
    }
}

proof fn lemma_rendered_push(files: Seq<DiffFileView>, file: DiffFileView)
    ensures
        rendered_lines(files.push(file)) == rendered_lines(files) + seq![
            file_header_line(file.name),
        ] + source_lines(file),
{
    assert(files.push(file).drop_last() =~= files);
}

/// Every token is a word: it is not empty and holds no whitespace.
proof fn lemma_tokens_are_words(s: Seq<char>, i: int)
    requires
        0 <= i < whitespace_tokens(s).len(),
    ensures
        whitespace_tokens(s)[i].len() > 0,
        is_word(whitespace_tokens(s)[i]),
    decreases s.len(),
{
    let a = leading_run(s, true);
    let rest = s.skip(a);
    let b = leading_run(rest, false);
    lemma_leading_run(rest, false);
    if i > 0 {
        lemma_tokens_are_words(rest.skip(b), i - 1);
    }
}

/// A word at the start of a text, before whitespace or the end, is its first
/// token.
proof fn lemma_tokens_of_word(word: Seq<char>, rest: Seq<char>)
    requires
        word.len() > 0,
        is_word(word),
        rest.len() > 0 ==> is_whitespace(rest[0]),
    ensures
        whitespace_tokens(word + rest) == seq![word] + whitespace_tokens(rest),
{
    let s = word + rest;
    lemma_leading_run_is(s, true, 0);
    assert(s.skip(0) =~= s);
    lemma_leading_run_is(s, false, word.len() as int);
    assert(s.take(word.len() as int) =~= word);
    assert(s.skip(word.len() as int) =~= rest);
}

/// Whitespace at the start of a text belongs to no token.
proof fn lemma_tokens_after_space(c: char, rest: Seq<char>)
    requires
        is_whitespace(c),
    ensures
        whitespace_tokens(seq![c] + rest) == whitespace_tokens(rest),
{
    let s = seq![c] + rest;
    assert(s.drop_first() =~= rest);
    lemma_leading_run(rest, true);
    let a = leading_run(rest, true);
    assert(s.skip(a + 1) =~= rest.skip(a));
}

/// A word with two more characters in front, neither of them whitespace,
/// is a word.
proof fn lemma_path_is_word(first: char, second: char, name: Seq<char>)
    requires
        is_word(name),
        !is_whitespace(first),
        !is_whitespace(second),
    ensures
        is_word(seq![first, second] + name),
{
    let path = seq![first, second] + name;
    assert forall|k: int| 0 <= k < path.len() implies !is_whitespace(#[trigger] path[k]) by {
        if k >= 2 {
            assert(path[k] == name[k - 2]);
        }
    }
}

/// The tokens of four words with a space between each two.
proof fn lemma_four_words(a: Seq<char>, b: Seq<char>, c: Seq<char>, d: Seq<char>)
    requires
        a.len() > 0 && is_word(a),
        b.len() > 0 && is_word(b),
        c.len() > 0 && is_word(c),
        d.len() > 0 && is_word(d),
    ensures
        whitespace_tokens(a + (seq![' '] + (b + (seq![' '] + (c + (seq![' '] + d))))))
            == seq![a, b, c, d],
{
    let space = seq![' '];
    let none = Seq::<char>::empty();
    let after_c = space + d;
    let after_b = space + (c + after_c);
    let after_a = space + (b + after_b);
    lemma_tokens_of_word(d, none);
    lemma_tokens_after_space(' ', d);
    lemma_tokens_of_word(c, after_c);
    lemma_tokens_after_space(' ', c + after_c);
    lemma_tokens_of_word(b, after_b);
    lemma_tokens_after_space(' ', b + after_b);
    lemma_tokens_of_word(a, after_a);
}

/// The line that opens a file, character by character.
proof fn lemma_header_line_chars(name: Seq<char>)
    ensures
        file_header_line(name) == seq!['d', 'i', 'f', 'f'] + (seq![' '] + (seq![
            '-',
            '-',
            'g',
            'i',
            't',
        ] + (seq![' '] + ((seq!['a', '/'] + name) + (seq![' '] + (seq!['b', '/'] + name)))))),
        "diff --git"@.is_prefix_of(file_header_line(name)),
        "b/"@.is_prefix_of(seq!['b', '/'] + name),
        (seq!['b', '/'] + name).skip("b/"@.len() as int) == name,
{
    reveal_strlit("diff --git a/");
    reveal_strlit("diff --git");
    reveal_strlit(" b/");
    reveal_strlit("b/");
    let line = file_header_line(name);
    let new_path = seq!['b', '/'] + name;
}

/// The line that opens a file names the file.
proof fn lemma_header_line(name: Seq<char>)
    requires
        is_word(name),
    ensures
        line_kind(file_header_line(name)) == LineKind::FileHeader,
        header_file_name(file_header_line(name)) == Some(name),
{
    let diff = seq!['d', 'i', 'f', 'f'];
    let git = seq!['-', '-', 'g', 'i', 't'];
    let old_path = seq!['a', '/'] + name;
    let new_path = seq!['b', '/'] + name;
    lemma_header_line_chars(name);
    lemma_path_is_word('a', '/', name);
    lemma_path_is_word('b', '/', name);
    lemma_four_words(diff, git, old_path, new_path);
}

proof fn lemma_run_one(state: ParseState, line: Seq<char>)
    ensures
        run(state, seq![line]) == step(state, line),
{
    let one = seq![line];
    reveal_with_fuel(run, 2);
}

/// The parse of the lines that the files of `state` stand for.
spec fn reparsed(state: ParseState) -> ParseState {
    run(initial_state(), rendered_lines(closed_files(state)))
}

/// Parsing again what the files of `state` stand for leads to the same
/// files and the same counters, with the last file still open.
spec fn reparse_agrees(state: ParseState) -> bool {
    let files = closed_files(state);
    let again = reparsed(state);
    &&& again.old_line == state.old_line
    &&& again.new_line == state.new_line
    &&& files.len() > 0 ==> again.current == Some(files.last()) && again.files == files.drop_last()
    &&& files.len() == 0 ==> again.current is None && again.files == files
}

proof fn lemma_step_reparse(state: ParseState, line: Seq<char>)
    requires
        reparse_agrees(state),
    ensures
        reparse_agrees(step(state, line)),
{
    reveal_strlit("+");
    reveal_strlit("-");
    reveal_strlit(" ");
    let next = step(state, line);
    let files = closed_files(state);
    let again = reparsed(state);
    let rendered = rendered_lines(files);
    if files.len() > 0 {
        assert(closed_files(again) =~= files);
    }
    if line_kind(line) == LineKind::FileHeader {
        match header_file_name(line) {
            Some(name) => {
                let file = next.current->0;
                assert(is_word(name)) by {
                    lemma_tokens_are_words(line, 3);
                }
                lemma_header_line(name);
                lemma_rendered_push(files, file);
                let header = seq![file_header_line(name)];
                lemma_run_concat(initial_state(), rendered, header);
                lemma_run_one(again, file_header_line(name));
                assert(files.push(file).drop_last() =~= files);
            },
            None => {},
        }
    } else {
        match state.current {
            Some(file) => {
                if next.current != state.current {
                    let grown = next.current->0;
                    let added = grown.lines.last();
                    assert(source_line(added) =~= line) by {
                        if line_kind(line) != LineKind::HunkHeader {
                            assert(line.subrange(0, 1)[0] == line[0]);
                        }
                    }
                    lemma_rendered_push(state.files, file);
                    lemma_rendered_push(state.files, grown);
                    let one = seq![line];
                    assert(rendered_lines(state.files.push(grown)) =~= rendered + one);
                    lemma_run_concat(initial_state(), rendered, one);
                    lemma_run_one(again, line);
                    assert(state.files.push(grown).drop_last() =~= state.files);
                    assert(files.drop_last() =~= state.files);
                }
            },
            None => {},
        }
    }
}

proof fn lemma_run_reparse(state: ParseState, lines: Seq<Seq<char>>)
    requires
        reparse_agrees(state),
    ensures
        reparse_agrees(run(state, lines)),
    decreases lines.len(),
{
    if lines.len() > 0 {
        lemma_step_reparse(state, lines[0]);
        lemma_run_reparse(step(state, lines[0]), lines.drop_first());
    }
}

/// Parsing is idempotent: diff text that stands for the files of a parse is
/// parsed to the same files again, with the same names, lines and numbers.
pub proof fn lemma_reparse(text: Seq<char>)
    ensures
        parse_lines(rendered_lines(parse_spec(text))) == parse_spec(text),
{
    lemma_run_reparse(initial_state(), split_lines(text));
}

} // verus!
