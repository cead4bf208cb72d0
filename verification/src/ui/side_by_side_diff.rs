//! The side-by-side view: the old side and the new side in two columns,
//! row by row.

use vstd::prelude::*;
use crate::diff_file::{DiffFile, DiffLine, DiffLineView, LineType};
use crate::ui::highlight_line::{HighlightedText, HighlightedTextView};
use crate::ui::pairing::{
    lemma_units_follow_rule, pair_lines, render_units, window_end, RenderUnit,
};
use crate::ui::style::{Color, Fragment, FragmentView, Style, StyledLine};
use crate::ui::unified_diff::{
    added_row, header_style, removed_row, render_pair, render_single, single_row, spaces,
};

verus! {

/// The background of a row that has no line on its side.
pub open spec fn filler_background() -> Color {
    Color::Rgb(40, 40, 40)
}

/// A row without a line: blanks over the width of the panel.
pub open spec fn filler_row(panel_width: int) -> Seq<FragmentView> {
    seq![
        FragmentView {
            style: Style::plain().with_bg(filler_background()),
            text: spaces(panel_width),
        },
    ]
}

/// The row of a hunk header: its text alone, without numbers or sign.
pub open spec fn header_row(line: DiffLineView) -> Seq<FragmentView> {
    seq![FragmentView { style: header_style(), text: line.content }]
}

/// The rows of a unit in the old and in the new column. A pair has the
/// removed line on the old side and the added line on the new side. A context
/// line and a header stand on both sides. A removed or added line that stands
/// alone has a filler on the other side.
pub open spec fn unit_columns(
    lines: Seq<DiffLineView>,
    highlighted: Seq<Option<Seq<HighlightedTextView>>>,
    start: int,
    panel_width: int,
    unit: RenderUnit,
) -> (Seq<FragmentView>, Seq<FragmentView>) {
    match unit {
        RenderUnit::Pair(i, j) => (
            removed_row(lines, highlighted, start, i as int, j as int),
            added_row(lines, highlighted, start, i as int, j as int),
        ),
        RenderUnit::Single(i) => match lines[i as int].line_type {
            LineType::Context => (
                single_row(lines, highlighted, start, i as int),
                single_row(lines, highlighted, start, i as int),
            ),
            LineType::Removed => (
                single_row(lines, highlighted, start, i as int),
                filler_row(panel_width),
            ),
            LineType::Added => (
                filler_row(panel_width),
                single_row(lines, highlighted, start, i as int),
            ),
            LineType::Header => (header_row(lines[i as int]), header_row(lines[i as int])),
        },
    }
}

/// The rows of one column, top down: the old column or the new one.
pub open spec fn column_rows(
    lines: Seq<DiffLineView>,
    highlighted: Seq<Option<Seq<HighlightedTextView>>>,
    start: int,
    panel_width: int,
    units: Seq<RenderUnit>,
    old_side: bool,
) -> Seq<Seq<FragmentView>>
    decreases units.len(),
{
    if units.len() == 0 {
        Seq::empty()
    } else {
        let columns = unit_columns(lines, highlighted, start, panel_width, units[0]);
        seq![
            if old_side {
                columns.0
            } else {
                columns.1
            },
        ] + column_rows(lines, highlighted, start, panel_width, units.drop_first(), old_side)
    }
}

/// Each column has one row for each unit, so the rows of the two columns
/// stand side by side.
pub proof fn lemma_columns_aligned(
    lines: Seq<DiffLineView>,
    highlighted: Seq<Option<Seq<HighlightedTextView>>>,
    start: int,
    panel_width: int,
    units: Seq<RenderUnit>,
    old_side: bool,
)
    ensures
        column_rows(lines, highlighted, start, panel_width, units, old_side).len() == units.len(),
    decreases units.len(),
{
    if units.len() > 0 {
        lemma_columns_aligned(
            lines,
            highlighted,
            start,
            panel_width,
            units.drop_first(),
            old_side,
        );
    }
}

fn filler(panel_width: usize) -> (row: StyledLine)
    ensures
        row@ == filler_row(panel_width as int),
{
    let mut text = String::new();
    let mut i: usize = 0;
    while i < panel_width
        invariant
            i <= panel_width,
            text@ == spaces(i as int),
        decreases panel_width - i,
    {
        text.push(' ');
        i += 1;
    }
    let mut fragments: Vec<Fragment> = Vec::new();
    fragments.push(Fragment::styled(text, Style::new().bg(Color::Rgb(40, 40, 40))));
    StyledLine { fragments }
}

fn header_only(line: &DiffLine) -> (row: StyledLine)
    ensures
        row@ == header_row(line@),
{
    let mut fragments: Vec<Fragment> = Vec::new();
    fragments.push(
        Fragment::styled(
            line.content.clone(),
            Style::new().bg(Color::Blue).fg(Color::White).bold(),
        ),
    );
    StyledLine { fragments }
}

/// A row with the same fragments.
pub fn copy_row(row: &StyledLine) -> (copy: StyledLine)
    ensures
        copy@ == row@,
{
    let mut fragments: Vec<Fragment> = Vec::new();
    let mut i: usize = 0;
    while i < row.fragments.len()
        invariant
            i <= row.fragments.len(),
            fragments.deep_view() =~= row@.take(i as int),
        decreases row.fragments.len() - i,
    {
        let fragment = &row.fragments[i];
        let ghost before = fragments.deep_view();
        fragments.push(Fragment::styled(fragment.text.clone(), fragment.style));
        assert(fragments.deep_view() =~= before.push(fragment@));
        i += 1;
    }
    StyledLine { fragments }
}

/// The rows of the old and of the new column of the side-by-side view of a
/// file: the window of `visible_lines` lines that starts at `scroll_offset`.
/// `panel_width` is the width of a column. `highlighted` holds, for each line
/// of the window in order, what a syntax highlighter made of its content.
pub fn render_side_by_side_diff(
    file: &DiffFile,
    scroll_offset: usize,
    visible_lines: usize,
    panel_width: usize,
    highlighted: &[Option<Vec<HighlightedText>>],
) -> (columns: (Vec<StyledLine>, Vec<StyledLine>))
    ensures
        columns.0.deep_view() == column_rows(
            file@.lines,
            highlighted.deep_view(),
            scroll_offset as int,
            panel_width as int,
            render_units(
                file@.lines,
                scroll_offset as int,
                window_end(file@.lines.len() as int, scroll_offset as int, visible_lines as int),
            ),
            true,
        ),
        columns.1.deep_view() == column_rows(
            file@.lines,
            highlighted.deep_view(),
            scroll_offset as int,
            panel_width as int,
            render_units(
                file@.lines,
                scroll_offset as int,
                window_end(file@.lines.len() as int, scroll_offset as int, visible_lines as int),
            ),
            false,
        ),
{
    let lines = file.lines.as_slice();
    let ghost all = file@.lines;
    let ghost pieces = highlighted.deep_view();
    let ghost start = scroll_offset as int;
    let ghost width = panel_width as int;
    let ghost end = window_end(all.len() as int, start, visible_lines as int);
    let units = pair_lines(lines, scroll_offset, visible_lines);
    let mut old_lines: Vec<StyledLine> = Vec::new();
    let mut new_lines: Vec<StyledLine> = Vec::new();
    let mut k: usize = 0;
    assert(units@.skip(0) =~= units@);
    while k < units.len()
        invariant
            k <= units.len(),
            lines.deep_view() == all,
            highlighted.deep_view() == pieces,
            all.len() == lines.len(),
            start == scroll_offset,
            width == panel_width,
            units@ == render_units(all, start, end),
            scroll_offset <= end <= all.len() || units@.len() == 0,
            old_lines.deep_view() + column_rows(
                all,
                pieces,
                start,
                width,
                units@.skip(k as int),
                true,
            ) =~= column_rows(all, pieces, start, width, units@, true),
            new_lines.deep_view() + column_rows(
                all,
                pieces,
                start,
                width,
                units@.skip(k as int),
                false,
            ) =~= column_rows(all, pieces, start, width, units@, false),
        decreases units.len() - k,
    {
        proof {
            lemma_units_follow_rule(all, start, end, k as int);
            assert(units@.skip(k as int).drop_first() =~= units@.skip(k + 1));
        }
        let (old_row, new_row) = match units[k] {
            RenderUnit::Pair(i, j) => render_pair(lines, highlighted, scroll_offset, i, j),
            RenderUnit::Single(i) => {
                match lines[i].line_type {
                    LineType::Context => {
                        let row = render_single(lines, highlighted, scroll_offset, i);
                        (copy_row(&row), row)
                    },
                    LineType::Removed => (
                        render_single(lines, highlighted, scroll_offset, i),
                        filler(panel_width),
                    ),
                    LineType::Added => (
                        filler(panel_width),
                        render_single(lines, highlighted, scroll_offset, i),
                    ),
                    LineType::Header => (header_only(&lines[i]), header_only(&lines[i])),
                }
            },
        };
        old_lines.push(old_row);
        new_lines.push(new_row);
        k += 1;
    }
    (old_lines, new_lines)
}

} // verus!
