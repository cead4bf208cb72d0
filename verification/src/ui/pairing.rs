//! Which lines of a window are shown alone and which as a pair.

use vstd::prelude::*;
use crate::diff_file::{DiffLine, DiffLineView, LineType};

verus! {

/// What is rendered in one pass: a line alone, or a removed line together
/// with the added line that follows it. The numbers are positions in the
/// lines of the file.
#[derive(Debug, Clone, Copy, PartialEq, Eq, Structural)]
pub enum RenderUnit {
    Single(usize),
    Pair(usize, usize),
}

/// Where a window of `visible` lines that starts at `start` ends in a file of
/// `count` lines.
pub open spec fn window_end(count: int, start: int, visible: int) -> int {
    if start + visible < count {
        start + visible
    } else {
        count
    }
}

/// Line `i` is a removed line, and the line after it is an added line that
/// still lies before `end`.
pub open spec fn pairs_at(lines: Seq<DiffLineView>, i: int, end: int) -> bool {
    &&& i + 1 < end
    &&& lines[i].line_type == LineType::Removed
    &&& lines[i + 1].line_type == LineType::Added
}

/// The units of the lines `i..end`, scanning forward: a removed line takes
/// the added line right after it, every other line stands alone.
pub open spec fn render_units(lines: Seq<DiffLineView>, i: int, end: int) -> Seq<RenderUnit>
    decreases end - i,
{
    if i < 0 || i >= end {
        Seq::empty()
    } else if pairs_at(lines, i, end) {
        seq![RenderUnit::Pair(i as usize, (i + 1) as usize)] + render_units(lines, i + 2, end)
    } else {
        seq![RenderUnit::Single(i as usize)] + render_units(lines, i + 1, end)
    }
}

/// The positions that a unit shows.
pub open spec fn unit_positions(unit: RenderUnit) -> Seq<int> {
    match unit {
        RenderUnit::Single(i) => seq![i as int],
        RenderUnit::Pair(i, j) => seq![i as int, j as int],
    }
}

/// The positions that units show, in order.
pub open spec fn positions(units: Seq<RenderUnit>) -> Seq<int>
    decreases units.len(),
{
    if units.len() == 0 {
        Seq::empty()
    } else {
        unit_positions(units[0]) + positions(units.drop_first())
    }
}

/// The units of a window show each of its lines once, in order.
pub proof fn lemma_units_cover_window(lines: Seq<DiffLineView>, i: int, end: int)
    requires
        0 <= i <= end <= lines.len(),
        end <= usize::MAX,
    ensures
        positions(render_units(lines, i, end)) == Seq::new((end - i) as nat, |k: int| i + k),
    decreases end - i,
{
    let units = render_units(lines, i, end);
    if i < end {
        if pairs_at(lines, i, end) {
            lemma_units_cover_window(lines, i + 2, end);
            assert(units.drop_first() =~= render_units(lines, i + 2, end));
        } else {
            lemma_units_cover_window(lines, i + 1, end);
            assert(units.drop_first() =~= render_units(lines, i + 1, end));
        }
    }
}

/// A pair is a removed line and the added line after it; a line that stands
/// alone is no removed line with an added line after it in the window.
pub proof fn lemma_units_follow_rule(lines: Seq<DiffLineView>, i: int, end: int, k: int)
    requires
        0 <= i <= end <= lines.len(),
        end <= usize::MAX,
        0 <= k < render_units(lines, i, end).len(),
    ensures
        match render_units(lines, i, end)[k] {
            RenderUnit::Pair(a, b) => i <= a && b == a + 1 && pairs_at(lines, a as int, end),
            RenderUnit::Single(a) => i <= a < end && !pairs_at(lines, a as int, end),
        },
    decreases end - i,
{
    if k > 0 {
        if pairs_at(lines, i, end) {
            lemma_units_follow_rule(lines, i + 2, end, k - 1);
        } else {
            lemma_units_follow_rule(lines, i + 1, end, k - 1);
        }
    }
}

/// The end of the window that starts at `scroll_offset`.
pub fn end_of_window(count: usize, scroll_offset: usize, visible_lines: usize) -> (end: usize)
    ensures
        end == window_end(count as int, scroll_offset as int, visible_lines as int),
{
    if visible_lines < count && scroll_offset < count - visible_lines {
        scroll_offset + visible_lines
    } else {
        count
    }
}

/// The units of the window of `visible_lines` lines that starts at
/// `scroll_offset`.
pub fn pair_lines(lines: &[DiffLine], scroll_offset: usize, visible_lines: usize) -> (units: Vec<
    RenderUnit,
>)
    ensures
        units@ == render_units(
            lines.deep_view(),
            scroll_offset as int,
            window_end(lines.len() as int, scroll_offset as int, visible_lines as int),
        ),
{
    let ghost all = lines.deep_view();
    let end = end_of_window(lines.len(), scroll_offset, visible_lines);
    let mut units: Vec<RenderUnit> = Vec::new();
    let mut i = scroll_offset;
    while i < end
        invariant
            all == lines.deep_view(),
            end <= lines.len(),
            scroll_offset <= i,
            units@ + render_units(all, i as int, end as int) =~= render_units(
                all,
                scroll_offset as int,
                end as int,
            ),
        decreases end - i,
    {
        if i + 1 < end && lines[i].line_type == LineType::Removed && lines[i + 1].line_type
            == LineType::Added {
            units.push(RenderUnit::Pair(i, i + 1));
            i += 2;
        } else {
            units.push(RenderUnit::Single(i));
            i += 1;
        }
    }
    units
}

} // verus!
