//! What the screen shows besides the diff itself: the list of files, the
//! titles of the panels, and the measures of the window.

use vstd::prelude::*;
use vstd::string::StringExecFns;
use crate::app::{App, AppView, SPLIT_WIDTH};
use crate::diff_file::{DiffFile, DiffFileView};
use crate::ui::style::{Color, Fragment, FragmentView, Style, StyledLine};

verus! {

/// The two kinds of view.
#[derive(Debug, Clone, Copy, PartialEq, Eq, Structural)]
pub enum ViewMode {
    Unified,
    SideBySide,
}

/// The colour that the status of a file is shown in.
pub open spec fn status_color(status: char) -> Color {
    if status == 'A' {
        Color::Green
    } else if status == 'D' {
        Color::Red
    } else if status == 'M' {
        Color::Yellow
    } else {
        Color::White
    }
}

/// The entry of a file in the list of files: its status, then its name.
pub open spec fn file_entry(file: DiffFileView) -> Seq<FragmentView> {
    seq![
        FragmentView {
            style: Style::plain().with_fg(status_color(file.status)).with_bold(),
            text: seq![file.status, ' '],
        },
        FragmentView { style: Style::plain(), text: file.name },
    ]
}

/// The view that a diff area of the given width is drawn in: the split view
/// if it is asked for and the area is wide enough, else the unified view.
pub open spec fn view_mode_at(app: AppView, width: u16) -> ViewMode {
    if app.show_side_by_side && width >= SPLIT_WIDTH {
        ViewMode::SideBySide
    } else {
        ViewMode::Unified
    }
}

pub fn color_of_status(status: char) -> (color: Color)
    ensures
        color == status_color(status),
{
    if status == 'A' {
        Color::Green
    } else if status == 'D' {
        Color::Red
    } else if status == 'M' {
        Color::Yellow
    } else {
        Color::White
    }
}

/// The entry of a file in the list of files.
pub fn file_list_item(file: &DiffFile) -> (item: StyledLine)
    ensures
        item@ == file_entry(file@),
{
    let mut status = String::new();
    status.push(file.get_status());
    status.push(' ');
    assert(status@ =~= seq![file@.status, ' ']);
    let mut fragments: Vec<Fragment> = Vec::new();
    fragments.push(
        Fragment::styled(status, Style::new().fg(color_of_status(file.get_status())).bold()),
    );
    fragments.push(Fragment::raw(String::from_str(file.get_name())));
    StyledLine { fragments }
}

/// The list of files, one entry for each.
pub fn file_list_items(files: &[DiffFile]) -> (items: Vec<StyledLine>)
    ensures
        items.deep_view() == Seq::new(
            files.deep_view().len(),
            |i: int| file_entry(files.deep_view()[i]),
        ),
{
    let mut items: Vec<StyledLine> = Vec::new();
    let mut i: usize = 0;
    while i < files.len()
        invariant
            i <= files.len(),
            items.deep_view() =~= Seq::new(i as nat, |k: int| file_entry(files.deep_view()[k])),
        decreases files.len() - i,
    {
        let ghost before = items.deep_view();
        let item = file_list_item(&files[i]);
        items.push(item);
        assert(items.deep_view() =~= before.push(item@));
        i += 1;
    }
    items
}

/// The view that a diff area of the given width is drawn in.
pub fn view_mode(app: &App, width: u16) -> (mode: ViewMode)
    ensures
        mode == view_mode_at(app@, width),
{
    if app.show_side_by_side && width >= SPLIT_WIDTH {
        ViewMode::SideBySide
    } else {
        ViewMode::Unified
    }
}

/// Number of lines that fit a bordered area of the given height.
pub fn visible_line_count(area_height: u16) -> (count: usize)
    requires
        area_height >= 2,
    ensures
        count == area_height - 2,
{
    (area_height - 2) as usize
}

/// Width of the text in a bordered panel of the given width.
pub fn panel_width(width: u16) -> (inner: usize)
    ensures
        inner == if width >= 2 {
            width - 2
        } else {
            0
        },
{
    if width >= 2 {
        (width - 2) as usize
    } else {
        0
    }
}

/// A scrollbar is shown when a file has more lines than fit the area.
pub fn needs_scrollbar(total_lines: usize, visible_lines: usize) -> (shown: bool)
    ensures
        shown == (total_lines > visible_lines),
{
    total_lines > visible_lines
}

/// The titles of the old and of the new panel of the split view.
pub fn panel_titles(name: &str) -> (titles: (String, String))
    ensures
        titles.0@ == "Old: "@ + name@,
        titles.1@ == "New: "@ + name@,
{
    (String::from_str("Old: ").concat(name), String::from_str("New: ").concat(name))
}

} // verus!
