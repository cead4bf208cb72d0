//! The unified view: every line of the window in one column.

use vstd::prelude::*;
use core::ops::Range;
use crate::diff_file::{DiffFile, DiffLine, DiffLineView, LineType};
use crate::text::byte_len;
use crate::ui::diff_utils::{
    apply_diff_highlight, changed_ranges, char_changes, compute_intra_line_diff,
    lemma_fit_projectable, on_background, project, range_pairs, ranges_fit,
};
use crate::ui::highlight_line::{
    highlight_fragments, highlight_line_content, lemma_highlight_covers, HighlightedText,
    HighlightedTextView,
};
use crate::ui::pairing::{
    lemma_units_follow_rule, pair_lines, render_units, window_end, RenderUnit,
};
use crate::ui::style::{Color, Fragment, FragmentView, Style, StyledLine};

verus! {

/// `n` spaces.
pub open spec fn spaces(n: int) -> Seq<char> {
    Seq::new(
        if n > 0 {
            n as nat
        } else {
            0
        },
        |i: int| ' ',
    )
}

/// The character of a decimal digit.
pub open spec fn digit_char(d: nat) -> char {
    (48 + d) as u8 as char
}

/// The decimal digits of a number, without leading zeros.
pub open spec fn decimal_digits(n: nat) -> Seq<char>
    decreases n,
{
    if n < 10 {
        seq![digit_char(n)]
    } else {
        decimal_digits(n / 10).push(digit_char(n % 10))
    }
}

/// A number in a field of four characters, aligned to the right. A number of
/// more than four digits takes the room it needs.
pub open spec fn padded_number(n: u32) -> Seq<char> {
    spaces(4 - decimal_digits(n as nat).len()) + decimal_digits(n as nat)
}

/// The field of a line number: the number, or four blanks for a side that
/// has none.
pub open spec fn number_field(number: Option<u32>) -> Seq<char> {
    match number {
        Some(n) => padded_number(n),
        None => spaces(4),
    }
}

/// The line numbers at the start of a row: the field of the old number, a
/// colon, the field of the new number and a space.
pub open spec fn line_number_text(old_number: Option<u32>, new_number: Option<u32>) -> Seq<char> {
    number_field(old_number) + seq![':'] + number_field(new_number) + seq![' ']
}

/// A number of at most four digits takes no more room than its field has.
pub open spec fn fits_field(number: Option<u32>) -> bool {
    number matches Some(n) ==> n < 10000
}

/// The background of removed lines.
pub open spec fn removed_background() -> Color {
    Color::Rgb(139, 0, 0)
}

/// The background of what a removed line has lost.
pub open spec fn removed_emphasis() -> Color {
    Color::Rgb(80, 0, 0)
}

/// The background of added lines.
pub open spec fn added_background() -> Color {
    Color::Rgb(0, 100, 0)
}

/// The background of what an added line has gained.
pub open spec fn added_emphasis() -> Color {
    Color::Rgb(0, 60, 0)
}

/// The background that lines of a type are shown on.
pub open spec fn line_background(line_type: LineType) -> Option<Color> {
    match line_type {
        LineType::Added => Some(added_background()),
        LineType::Removed => Some(removed_background()),
        LineType::Context => None,
        LineType::Header => Some(Color::Blue),
    }
}

/// The sign that a row of a type begins with.
pub open spec fn prefix_text(line_type: LineType) -> Seq<char> {
    match line_type {
        LineType::Added => seq!['+', ' '],
        LineType::Removed => seq!['-', ' '],
        LineType::Context => seq![' ', ' '],
        LineType::Header => seq!['@', ' '],
    }
}

pub open spec fn prefix_style(line_type: LineType) -> Style {
    match line_background(line_type) {
        Some(bg) => Style::plain().with_bg(bg).with_fg(Color::White),
        None => Style::plain().with_fg(Color::White),
    }
}

/// The style of the text of a hunk header.
pub open spec fn header_style() -> Style {
    Style::plain().with_bg(Color::Blue).with_fg(Color::White).with_bold()
}

/// Ranges to lay over a line, with the base and the emphasis background.
pub type IntraLine = Option<(Seq<(int, int)>, Color, Color)>;

/// The content of a row. A header is shown as it is. Any other line is shown
/// by its fragments: with the ranges laid over them where there are ranges,
/// on the background of its type where it has one, and as they are otherwise.
pub open spec fn content_fragments(
    line: DiffLineView,
    fragments: Seq<FragmentView>,
    intra_line: IntraLine,
) -> Seq<FragmentView> {
    if line.line_type == LineType::Header {
        seq![FragmentView { style: header_style(), text: line.content }]
    } else {
        match intra_line {
            Some((ranges, base, emphasis)) => project(fragments, ranges, base, emphasis),
            None => match line_background(line.line_type) {
                Some(bg) => Seq::new(fragments.len(), |k: int| on_background(fragments[k], bg)),
                None => fragments,
            },
        }
    }
}

/// A row: the line numbers, the sign of the line type, and the content.
pub open spec fn diff_line_fragments(
    line: DiffLineView,
    fragments: Seq<FragmentView>,
    intra_line: IntraLine,
) -> Seq<FragmentView> {
    seq![
        FragmentView {
            style: Style::plain().with_fg(Color::DarkGray),
            text: line_number_text(line.old_line_num, line.new_line_num),
        },
        FragmentView { style: prefix_style(line.line_type), text: prefix_text(line.line_type) },
    ] + content_fragments(line, fragments, intra_line)
}

/// What the highlighter made of line `i`, where the pieces of the window that
/// starts at `start` say it.
pub open spec fn window_highlight(
    highlighted: Seq<Option<Seq<HighlightedTextView>>>,
    start: int,
    i: int,
) -> Option<Seq<HighlightedTextView>> {
    if 0 <= i - start < highlighted.len() {
        highlighted[i - start]
    } else {
        None
    }
}

/// The fragments of line `i`.
pub open spec fn line_fragments(
    lines: Seq<DiffLineView>,
    highlighted: Seq<Option<Seq<HighlightedTextView>>>,
    start: int,
    i: int,
) -> Seq<FragmentView> {
    highlight_fragments(lines[i].content, window_highlight(highlighted, start, i))
}

/// The ranges of one line of a pair that the other line does not share.
pub open spec fn intra_ranges(old: Seq<char>, new: Seq<char>, old_side: bool) -> Seq<(int, int)> {
    changed_ranges(char_changes(old, new), old_side)
}

/// The row of the removed line of a pair.
pub open spec fn removed_row(
    lines: Seq<DiffLineView>,
    highlighted: Seq<Option<Seq<HighlightedTextView>>>,
    start: int,
    i: int,
    j: int,
) -> Seq<FragmentView> {
    diff_line_fragments(
        lines[i],
        line_fragments(lines, highlighted, start, i),
        Some(
            (
                intra_ranges(lines[i].content, lines[j].content, true),
                removed_background(),
                removed_emphasis(),
            ),
        ),
    )
}

/// The row of the added line of a pair.
pub open spec fn added_row(
    lines: Seq<DiffLineView>,
    highlighted: Seq<Option<Seq<HighlightedTextView>>>,
    start: int,
    i: int,
    j: int,
) -> Seq<FragmentView> {
    diff_line_fragments(
        lines[j],
        line_fragments(lines, highlighted, start, j),
        Some(
            (
                intra_ranges(lines[i].content, lines[j].content, false),
                added_background(),
                added_emphasis(),
            ),
        ),
    )
}

/// The row of a line that stands alone.
pub open spec fn single_row(
    lines: Seq<DiffLineView>,
    highlighted: Seq<Option<Seq<HighlightedTextView>>>,
    start: int,
    i: int,
) -> Seq<FragmentView> {
    diff_line_fragments(lines[i], line_fragments(lines, highlighted, start, i), None)
}

/// The rows of a unit in the unified view: one for a single line, the removed
/// row above the added row for a pair.
pub open spec fn unit_rows(
    lines: Seq<DiffLineView>,
    highlighted: Seq<Option<Seq<HighlightedTextView>>>,
    start: int,
    unit: RenderUnit,
) -> Seq<Seq<FragmentView>> {
    match unit {
        RenderUnit::Single(i) => seq![single_row(lines, highlighted, start, i as int)],
        RenderUnit::Pair(i, j) => seq![
            removed_row(lines, highlighted, start, i as int, j as int),
            added_row(lines, highlighted, start, i as int, j as int),
        ],
    }
}

/// The rows of the units, top down.
pub open spec fn unified_rows(
    lines: Seq<DiffLineView>,
    highlighted: Seq<Option<Seq<HighlightedTextView>>>,
    start: int,
    units: Seq<RenderUnit>,
) -> Seq<Seq<FragmentView>>
    decreases units.len(),
{
    if units.len() == 0 {
        Seq::empty()
    } else {
        unit_rows(lines, highlighted, start, units[0]) + unified_rows(
            lines,
            highlighted,
            start,
            units.drop_first(),
        )
    }
}

fn push_spaces(out: &mut String, n: usize)
    ensures
        final(out)@ == old(out)@ + spaces(n as int),
{
    let mut i: usize = 0;
    while i < n
        invariant
            i <= n,
            out@ == old(out)@ + spaces(i as int),
        decreases n - i,
    {
        out.push(' ');
        i += 1;
    }
}

fn digit_count(n: u32) -> (count: usize)
    ensures
        count == decimal_digits(n as nat).len(),
        1 <= count <= 10,
    decreases n,
{
    if n < 10 {
        1
    } else {
        let rest = digit_count(n / 10);
        proof {
            lemma_digit_bound(n as nat);
        }
        rest + 1
    }
}

proof fn lemma_digit_bound(n: nat)
    ensures
        n < 10 ==> decimal_digits(n).len() == 1,
        n < 100 ==> decimal_digits(n).len() <= 2,
        n < 1000 ==> decimal_digits(n).len() <= 3,
        n < 10000 ==> decimal_digits(n).len() <= 4,
        n < 100000 ==> decimal_digits(n).len() <= 5,
        n < 1000000 ==> decimal_digits(n).len() <= 6,
        n < 10000000 ==> decimal_digits(n).len() <= 7,
        n < 100000000 ==> decimal_digits(n).len() <= 8,
        n < 1000000000 ==> decimal_digits(n).len() <= 9,
        n < 10000000000 ==> decimal_digits(n).len() <= 10,
{
    reveal_with_fuel(decimal_digits, 11);
}

fn push_digits(out: &mut String, n: u32)
    ensures
        final(out)@ == old(out)@ + decimal_digits(n as nat),
    decreases n,
{
    if n >= 10 {
        push_digits(out, n / 10);
    }
    let digit: u8 = (n % 10) as u8;
    out.push((48 + digit) as char);
}

fn push_padded(out: &mut String, n: u32)
    ensures
        final(out)@ == old(out)@ + padded_number(n),
{
    let count = digit_count(n);
    if count < 4 {
        push_spaces(out, 4 - count);
    }
    push_digits(out, n);
}

fn push_field(out: &mut String, number: Option<u32>)
    ensures
        final(out)@ == old(out)@ + number_field(number),
{
    match number {
        Some(n) => push_padded(out, n),
        None => push_spaces(out, 4),
    }
}

/// The line numbers of all rows have one width, as long as no number has
/// more than four digits: ten characters, the colon in the middle and a
/// blank at the end.
pub proof fn lemma_line_number_width(old_number: Option<u32>, new_number: Option<u32>)
    requires
        fits_field(old_number),
        fits_field(new_number),
    ensures
        line_number_text(old_number, new_number).len() == 10,
        line_number_text(old_number, new_number)[4] == ':',
        line_number_text(old_number, new_number)[9] == ' ',
{
    match old_number {
        Some(n) => lemma_digit_bound(n as nat),
        None => {},
    }
    match new_number {
        Some(n) => lemma_digit_bound(n as nat),
        None => {},
    }
    assert(number_field(old_number).len() == 4);
    assert(number_field(new_number).len() == 4);
}

/// The line numbers at the start of a row.
pub fn format_line_numbers(old_number: Option<u32>, new_number: Option<u32>) -> (text: String)
    ensures
        text@ == line_number_text(old_number, new_number),
{
    let mut text = String::new();
    push_field(&mut text, old_number);
    text.push(':');
    push_field(&mut text, new_number);
    text.push(' ');
    text
}

pub fn background_of(line_type: LineType) -> (bg: Option<Color>)
    ensures
        bg == line_background(line_type),
{
    match line_type {
        LineType::Added => Some(Color::Rgb(0, 100, 0)),
        LineType::Removed => Some(Color::Rgb(139, 0, 0)),
        LineType::Context => None,
        LineType::Header => Some(Color::Blue),
    }
}

fn prefix_of(line_type: LineType) -> (fragment: Fragment)
    ensures
        fragment@ == (FragmentView {
            style: prefix_style(line_type),
            text: prefix_text(line_type),
        }),
{
    let mut text = String::new();
    match line_type {
        LineType::Added => text.push('+'),
        LineType::Removed => text.push('-'),
        LineType::Context => text.push(' '),
        LineType::Header => text.push('@'),
    }
    text.push(' ');
    assert(text@ =~= prefix_text(line_type));
    let style = match background_of(line_type) {
        Some(bg) => Style::new().bg(bg).fg(Color::White),
        None => Style::new().fg(Color::White),
    };
    Fragment::styled(text, style)
}

/// The view of ranges that come with their two backgrounds.
pub open spec fn intra_line_view(intra_line: Option<(&[Range<usize>], Color, Color)>) -> IntraLine {
    match intra_line {
        Some((ranges, base, emphasis)) => Some((range_pairs(ranges@), base, emphasis)),
        None => None,
    }
}

/// One row of a view: the line numbers, the sign of the line type and the
/// content of the line. `highlighted` is what a syntax highlighter made of
/// the content, if there was one; `intra_line_highlight` holds the ranges of
/// the content to bring out, with the base and the highlight background.
pub fn render_diff_line(
    diff_line: &DiffLine,
    highlighted: Option<&[HighlightedText]>,
    intra_line_highlight: Option<(&[Range<usize>], Color, Color)>,
) -> (line: StyledLine)
    requires
        diff_line.line_type != LineType::Header ==> (intra_line_highlight matches Some(
            (ranges, _, _),
        ) ==> ranges_fit(range_pairs(ranges@), diff_line.content@)),
    ensures
        line@ == diff_line_fragments(
            diff_line@,
            highlight_fragments(diff_line.content@, highlighted.deep_view()),
            intra_line_view(intra_line_highlight),
        ),
{
    let mut spans: Vec<Fragment> = Vec::new();
    spans.push(
        Fragment::styled(
            format_line_numbers(diff_line.old_line_num, diff_line.new_line_num),
            Style::new().fg(Color::DarkGray),
        ),
    );
    spans.push(prefix_of(diff_line.line_type));
    let content = diff_line.content.as_str();
    let mut body: Vec<Fragment> = if diff_line.line_type == LineType::Header {
        let mut body: Vec<Fragment> = Vec::new();
        body.push(
            Fragment::styled(
                diff_line.content.clone(),
                Style::new().bg(Color::Blue).fg(Color::White).bold(),
            ),
        );
        body
    } else {
        let fragments = highlight_line_content(content, highlighted);
        let size = content.as_bytes().len();
        proof {
            lemma_highlight_covers(diff_line.content@, highlighted.deep_view());
            assert(byte_len(diff_line.content@) == size);
        }
        match intra_line_highlight {
            Some((ranges, base_bg, highlight_bg)) => {
                proof {
                    lemma_fit_projectable(fragments.deep_view(), range_pairs(ranges@));
                }
                apply_diff_highlight(fragments, ranges, base_bg, highlight_bg)
            },
            None => match background_of(diff_line.line_type) {
                Some(bg) => {
                    let none: Vec<Range<usize>> = Vec::new();
                    apply_diff_highlight(fragments, none.as_slice(), bg, bg)
                },
                None => fragments,
            },
        }
    };
    spans.append(&mut body);
    StyledLine { fragments: spans }
}

/// What the highlighter made of line `i`, where the pieces of the window say it.
pub fn highlight_of<'a>(
    highlighted: &'a [Option<Vec<HighlightedText>>],
    scroll_offset: usize,
    i: usize,
) -> (pieces: Option<&'a [HighlightedText]>)
    ensures
        pieces.deep_view() == window_highlight(
            highlighted.deep_view(),
            scroll_offset as int,
            i as int,
        ),
{
    if i >= scroll_offset && i - scroll_offset < highlighted.len() {
        match &highlighted[i - scroll_offset] {
            Some(pieces) => Some(pieces.as_slice()),
            None => None,
        }
    } else {
        None
    }
}

/// The two rows of a pair: the removed line with what it lost brought out,
/// and the added line with what it gained brought out.
pub fn render_pair(
    lines: &[DiffLine],
    highlighted: &[Option<Vec<HighlightedText>>],
    scroll_offset: usize,
    i: usize,
    j: usize,
) -> (rows: (StyledLine, StyledLine))
    requires
        i < lines.len(),
        j < lines.len(),
    ensures
        rows.0@ == removed_row(
            lines.deep_view(),
            highlighted.deep_view(),
            scroll_offset as int,
            i as int,
            j as int,
        ),
        rows.1@ == added_row(
            lines.deep_view(),
            highlighted.deep_view(),
            scroll_offset as int,
            i as int,
            j as int,
        ),
{
    let removed = &lines[i];
    let added = &lines[j];
    let (old_ranges, new_ranges) = compute_intra_line_diff(
        removed.content.as_str(),
        added.content.as_str(),
    );
    let removed_row = render_diff_line(
        removed,
        highlight_of(highlighted, scroll_offset, i),
        Some((old_ranges.as_slice(), Color::Rgb(139, 0, 0), Color::Rgb(80, 0, 0))),
    );
    let added_row = render_diff_line(
        added,
        highlight_of(highlighted, scroll_offset, j),
        Some((new_ranges.as_slice(), Color::Rgb(0, 100, 0), Color::Rgb(0, 60, 0))),
    );
    (removed_row, added_row)
}

/// The row of a line that stands alone.
pub fn render_single(
    lines: &[DiffLine],
    highlighted: &[Option<Vec<HighlightedText>>],
    scroll_offset: usize,
    i: usize,
) -> (row: StyledLine)
    requires
        i < lines.len(),
    ensures
        row@ == single_row(
            lines.deep_view(),
            highlighted.deep_view(),
            scroll_offset as int,
            i as int,
        ),
{
    render_diff_line(&lines[i], highlight_of(highlighted, scroll_offset, i), None)
}

/// The rows of the unified view of a file: the window of `visible_lines`
/// lines that starts at `scroll_offset`. `highlighted` holds, for each line
/// of the window in order, what a syntax highlighter made of its content.
pub fn render_unified_diff(
    file: &DiffFile,
    scroll_offset: usize,
    visible_lines: usize,
    highlighted: &[Option<Vec<HighlightedText>>],
) -> (rows: Vec<StyledLine>)
    ensures
        rows.deep_view() == unified_rows(
            file@.lines,
            highlighted.deep_view(),
            scroll_offset as int,
            render_units(
                file@.lines,
                scroll_offset as int,
                window_end(file@.lines.len() as int, scroll_offset as int, visible_lines as int),
            ),
        ),
{
    let lines = file.lines.as_slice();
    let ghost all = file@.lines;
    let ghost pieces = highlighted.deep_view();
    let ghost end = window_end(all.len() as int, scroll_offset as int, visible_lines as int);
    let units = pair_lines(lines, scroll_offset, visible_lines);
    let mut rows: Vec<StyledLine> = Vec::new();
    let mut k: usize = 0;
    assert(units@.skip(0) =~= units@);
    while k < units.len()
        invariant
            k <= units.len(),
            lines.deep_view() == all,
            highlighted.deep_view() == pieces,
            all.len() == lines.len(),
            units@ == render_units(all, scroll_offset as int, end),
            scroll_offset <= end <= all.len() || units@.len() == 0,
            rows.deep_view() + unified_rows(all, pieces, scroll_offset as int, units@.skip(k as int))
                =~= unified_rows(all, pieces, scroll_offset as int, units@),
        decreases units.len() - k,
    {
        proof {
            lemma_units_follow_rule(all, scroll_offset as int, end, k as int);
            assert(units@.skip(k as int).drop_first() =~= units@.skip(k + 1));
        }
        match units[k] {
            RenderUnit::Single(i) => {
                let row = render_single(lines, highlighted, scroll_offset, i);
                rows.push(row);
            },
            RenderUnit::Pair(i, j) => {
                let (removed, added) = render_pair(lines, highlighted, scroll_offset, i, j);
                rows.push(removed);
                rows.push(added);
            },
        }
        k += 1;
    }
    rows
}

} // verus!
