//! The state of a viewing session and the actions that change it.

use vstd::prelude::*;
use vstd::arithmetic::div_mod::{
    lemma_add_mod_noop, lemma_mod_add_multiples_vanish, lemma_mod_bound, lemma_small_mod,
};
use crate::diff_file::{DiffFile, DiffFileView};
use crate::parser::{parse_diff, parse_spec};

verus! {

/// The least width at which the view can be split in two columns.
pub const SPLIT_WIDTH: u16 = 120;

/// What the operator can ask for.
#[derive(Debug, Clone, Copy, PartialEq, Eq, Structural)]
pub enum Action {
    Quit,
    NextFile,
    PrevFile,
    ScrollDown { amount: usize },
    ScrollUp { amount: usize },
    ToggleSplit { width: u16 },
    Help,
    Top,
    Bottom,
    ScrollLeft { amount: usize },
    ScrollRight { amount: usize },
}

/// The state of a session: the files of the diff, the file that is shown and
/// how far it is scrolled, the kind of view, and whether the help is shown.
#[derive(Debug, Clone)]
pub struct App {
    pub files: Vec<DiffFile>,
    pub selected_file: usize,
    pub scroll_offset: usize,
    pub horizontal_scroll_offset: usize,
    pub show_side_by_side: bool,
    pub show_shortcuts: bool,
    pub running: bool,
}

/// The mathematical value of an [`App`].
pub struct AppView {
    pub files: Seq<DiffFileView>,
    pub selected_file: nat,
    pub scroll_offset: nat,
    pub horizontal_scroll_offset: nat,
    pub show_side_by_side: bool,
    pub show_shortcuts: bool,
    pub running: bool,
}

impl View for App {
    type V = AppView;

    open spec fn view(&self) -> AppView {
        AppView {
            files: self.files.deep_view(),
            selected_file: self.selected_file as nat,
            scroll_offset: self.scroll_offset as nat,
            horizontal_scroll_offset: self.horizontal_scroll_offset as nat,
            show_side_by_side: self.show_side_by_side,
            show_shortcuts: self.show_shortcuts,
            running: self.running,
        }
    }
}

impl AppView {
    /// Number of lines of the selected file; 0 where no file is selected.
    pub open spec fn line_count(self) -> nat {
        if self.selected_file < self.files.len() {
            self.files[self.selected_file as int].lines.len()
        } else {
            0
        }
    }

    /// The greatest scroll offset: that of the last line of the selected
    /// file, or 0 where there is no line.
    pub open spec fn last_line(self) -> nat {
        if self.line_count() > 0 {
            (self.line_count() - 1) as nat
        } else {
            0
        }
    }

    /// A file is selected whenever there are files, and the first visible
    /// line is a line of it.
    pub open spec fn well_formed(self) -> bool {
        &&& self.files.len() > 0 ==> self.selected_file < self.files.len()
        &&& self.scroll_offset <= self.last_line()
    }

    /// The state after the selection has moved to the next file, or from the
    /// last file to the first. Both scroll offsets start again at 0.
    pub open spec fn next_file(self) -> AppView {
        if self.files.len() == 0 {
            self
        } else {
            AppView {
                selected_file: successor(self.selected_file, self.files.len()),
                scroll_offset: 0,
                horizontal_scroll_offset: 0,
                ..self
            }
        }
    }

    /// The state after the selection has moved to the file before, or from
    /// the first file to the last. Both scroll offsets start again at 0.
    pub open spec fn previous_file(self) -> AppView {
        if self.files.len() == 0 {
            self
        } else {
            AppView {
                selected_file: if self.selected_file == 0 {
                    (self.files.len() - 1) as nat
                } else {
                    (self.selected_file - 1) as nat
                },
                scroll_offset: 0,
                horizontal_scroll_offset: 0,
                ..self
            }
        }
    }

    /// One line down, unless the last line is reached.
    pub open spec fn scroll_down(self) -> AppView {
        if self.scroll_offset + 1 < self.line_count() {
            AppView { scroll_offset: self.scroll_offset + 1, ..self }
        } else {
            self
        }
    }

    /// One line up, unless the first line is reached.
    pub open spec fn scroll_up(self) -> AppView {
        if self.scroll_offset > 0 {
            AppView { scroll_offset: (self.scroll_offset - 1) as nat, ..self }
        } else {
            self
        }
    }

    /// `amount` lines down, but not past the last line.
    pub open spec fn scroll_down_by(self, amount: nat) -> AppView {
        AppView {
            scroll_offset: if self.scroll_offset + amount < self.last_line() {
                self.scroll_offset + amount
            } else {
                self.last_line()
            },
            ..self
        }
    }

    /// `amount` lines up, but not past the first line.
    pub open spec fn scroll_up_by(self, amount: nat) -> AppView {
        AppView {
            scroll_offset: if self.scroll_offset <= amount {
                0
            } else if self.scroll_offset - amount < self.last_line() {
                (self.scroll_offset - amount) as nat
            } else {
                self.last_line()
            },
            ..self
        }
    }

    /// `amount` columns to the left, but not past the first column.
    pub open spec fn scroll_left(self, amount: nat) -> AppView {
        AppView {
            horizontal_scroll_offset: if self.horizontal_scroll_offset <= amount {
                0
            } else {
                (self.horizontal_scroll_offset - amount) as nat
            },
            ..self
        }
    }

    /// `amount` columns to the right. There is no last column; the offset
    /// stops at the greatest number that the machine holds.
    pub open spec fn scroll_right(self, amount: nat) -> AppView {
        AppView {
            horizontal_scroll_offset: if self.horizontal_scroll_offset + amount <= usize::MAX {
                self.horizontal_scroll_offset + amount
            } else {
                usize::MAX as nat
            },
            ..self
        }
    }

    /// The other kind of view. The split view is entered only at a width of
    /// at least [`SPLIT_WIDTH`].
    pub open spec fn toggle_view_mode(self, width: u16) -> AppView {
        AppView { show_side_by_side: width >= SPLIT_WIDTH && !self.show_side_by_side, ..self }
    }

    pub open spec fn toggle_shortcuts(self) -> AppView {
        AppView { show_shortcuts: !self.show_shortcuts, ..self }
    }

    pub open spec fn top(self) -> AppView {
        AppView { scroll_offset: 0, ..self }
    }

    pub open spec fn bottom(self) -> AppView {
        AppView { scroll_offset: self.last_line(), ..self }
    }

    pub open spec fn quit(self) -> AppView {
        AppView { running: false, ..self }
    }

    /// The state after an action.
    pub open spec fn apply(self, action: Action) -> AppView {
        match action {
            Action::Quit => self.quit(),
            Action::NextFile => self.next_file(),
            Action::PrevFile => self.previous_file(),
            Action::ScrollDown { amount } => self.scroll_down_by(amount as nat),
            Action::ScrollUp { amount } => self.scroll_up_by(amount as nat),
            Action::ToggleSplit { width } => self.toggle_view_mode(width),
            Action::Help => self.toggle_shortcuts(),
            Action::Top => self.top(),
            Action::Bottom => self.bottom(),
            Action::ScrollLeft { amount } => self.scroll_left(amount as nat),
            Action::ScrollRight { amount } => self.scroll_right(amount as nat),
        }
    }

    /// The state after the actions, in order.
    pub open spec fn apply_all(self, actions: Seq<Action>) -> AppView
        decreases actions.len(),
    {
        if actions.len() == 0 {
            self
        } else {
            self.apply(actions[0]).apply_all(actions.drop_first())
        }
    }

    /// The state after `count` moves to the next file.
    pub open spec fn next_file_times(self, count: nat) -> AppView
        decreases count,
    {
        if count == 0 {
            self
        } else {
            self.next_file().next_file_times((count - 1) as nat)
        }
    }

    /// The state with the files of a diff text, the first of them selected.
    pub open spec fn load_diff(self, diff_text: Seq<char>) -> AppView {
        AppView {
            files: parse_spec(diff_text),
            selected_file: 0,
            scroll_offset: 0,
            horizontal_scroll_offset: 0,
            ..self
        }
    }
}

/// The position after `position` among `count` positions in a circle.
pub open spec fn successor(position: nat, count: nat) -> nat {
    ((position as int + 1) % (count as int)) as nat
}

/// Every action keeps the state well formed.
pub proof fn lemma_apply_well_formed(state: AppView, action: Action)
    requires
        state.well_formed(),
    ensures
        state.apply(action).well_formed(),
{
    if state.files.len() > 0 {
        lemma_mod_bound(state.selected_file as int + 1, state.files.len() as int);
    }
}

/// Whatever the operator does, a file stays selected and the first visible
/// line stays a line of it.
pub proof fn lemma_apply_all_well_formed(state: AppView, actions: Seq<Action>)
    requires
        state.well_formed(),
    ensures
        state.apply_all(actions).well_formed(),
    decreases actions.len(),
{
    if actions.len() > 0 {
        lemma_apply_well_formed(state, actions[0]);
        lemma_apply_all_well_formed(state.apply(actions[0]), actions.drop_first());
    }
}

proof fn lemma_next_file_advances(state: AppView, count: nat)
    requires
        state.files.len() > 0,
        count > 0,
    ensures
        state.next_file_times(count).selected_file as int == (state.selected_file as int
            + count as int) % (state.files.len() as int),
        state.next_file_times(count).files == state.files,
    decreases count,
{
    let n = state.files.len() as int;
    let s = state.selected_file as int;
    let next = state.next_file();
    lemma_mod_bound(s + 1, n);
    if count > 1 {
        lemma_next_file_advances(next, (count - 1) as nat);
        lemma_add_mod_noop(s + 1, count - 1, n);
        lemma_add_mod_noop((s + 1) % n, count - 1, n);
        vstd::arithmetic::div_mod::lemma_mod_twice(s + 1, n);
    } else {
        assert(next.next_file_times(0) == next);
    }
}

/// Moving to the next file as many times as there are files leads back to
/// the file that was selected.
pub proof fn lemma_next_file_cycle(state: AppView)
    requires
        state.well_formed(),
    ensures
        state.next_file_times(state.files.len()).selected_file == state.selected_file,
{
    let n = state.files.len();
    if n > 0 {
        lemma_next_file_advances(state, n);
        lemma_mod_add_multiples_vanish(state.selected_file as int, n as int);
        lemma_small_mod(state.selected_file, n);
    }
}

/// Scrolling up never leaves the lines of the file: after any number of
/// steps up, by any amounts, the offset is at most what it was.
pub proof fn lemma_scroll_up_stays(state: AppView, amounts: Seq<nat>)
    requires
        state.well_formed(),
    ensures
        scroll_up_all(state, amounts).scroll_offset <= state.scroll_offset,
        scroll_up_all(state, amounts).well_formed(),
    decreases amounts.len(),
{
    if amounts.len() > 0 {
        lemma_scroll_up_stays(state.scroll_up_by(amounts[0]), amounts.drop_first());
    }
}

/// The state after scrolling up by each of the amounts in turn.
pub open spec fn scroll_up_all(state: AppView, amounts: Seq<nat>) -> AppView
    decreases amounts.len(),
{
    if amounts.len() == 0 {
        state
    } else {
        scroll_up_all(state.scroll_up_by(amounts[0]), amounts.drop_first())
    }
}

impl App {
    /// A session without files, at the top and the left, with the help shown.
    pub fn new(show_side_by_side: bool) -> (app: Self)
        ensures
            app@ == (AppView {
                files: Seq::empty(),
                selected_file: 0,
                scroll_offset: 0,
                horizontal_scroll_offset: 0,
                show_side_by_side,
                show_shortcuts: true,
                running: true,
            }),
            app@.well_formed(),
    {
        let app = Self {
            files: Vec::new(),
            selected_file: 0,
            scroll_offset: 0,
            horizontal_scroll_offset: 0,
            show_side_by_side,
            show_shortcuts: true,
            running: true,
        };
        assert(app.files.deep_view() =~= Seq::empty());
        app
    }

    /// Replaces the files by those of a diff text and selects the first.
    pub fn load_diff(&mut self, diff_text: &str)
        ensures
            final(self)@ == old(self)@.load_diff(diff_text@),
            final(self)@.well_formed(),
    {
        self.files = parse_diff(diff_text);
        self.selected_file = 0;
        self.scroll_offset = 0;
        self.horizontal_scroll_offset = 0;
    }

    /// Number of lines of the selected file; 0 where no file is selected.
    pub fn line_count(&self) -> (count: usize)
        ensures
            count == self@.line_count(),
    {
        if self.selected_file < self.files.len() {
            self.files[self.selected_file].line_count()
        } else {
            0
        }
    }

    fn last_line(&self) -> (last: usize)
        ensures
            last == self@.last_line(),
    {
        let count = self.line_count();
        if count > 0 {
            count - 1
        } else {
            0
        }
    }

    pub fn next_file(&mut self)
        ensures
            final(self)@ == old(self)@.next_file(),
    {
        let count = self.files.len();
        if count > 0 {
            proof {
                lemma_mod_bound(self.selected_file as int, count as int);
                lemma_add_mod_noop(self.selected_file as int, 1, count as int);
                if count > 1 {
                    lemma_small_mod(1, count as nat);
                }
            }
            self.selected_file = (self.selected_file % count + 1) % count;
            self.scroll_offset = 0;
            self.horizontal_scroll_offset = 0;
        }
    }

    pub fn previous_file(&mut self)
        ensures
            final(self)@ == old(self)@.previous_file(),
    {
        if self.files.len() > 0 {
            self.selected_file = if self.selected_file == 0 {
                self.files.len() - 1
            } else {
                self.selected_file - 1
            };
            self.scroll_offset = 0;
            self.horizontal_scroll_offset = 0;
        }
    }

    pub fn scroll_down(&mut self)
        ensures
            final(self)@ == old(self)@.scroll_down(),
    {
        let count = self.line_count();
        if count > 0 && self.scroll_offset < count - 1 {
            self.scroll_offset += 1;
        }
    }

    pub fn scroll_up(&mut self)
        ensures
            final(self)@ == old(self)@.scroll_up(),
    {
        if self.scroll_offset > 0 {
            self.scroll_offset -= 1;
        }
    }

    pub fn toggle_view_mode(&mut self, width: u16)
        ensures
            final(self)@ == old(self)@.toggle_view_mode(width),
    {
        self.show_side_by_side = width >= SPLIT_WIDTH && !self.show_side_by_side;
    }

    pub fn toggle_shortcuts(&mut self)
        ensures
            final(self)@ == old(self)@.toggle_shortcuts(),
    {
        self.show_shortcuts = !self.show_shortcuts;
    }

    /// Carries out an action.
    pub fn perform_action(&mut self, action: Action)
        ensures
            final(self)@ == old(self)@.apply(action),
            old(self)@.well_formed() ==> final(self)@.well_formed(),
    {
        proof {
            if self@.well_formed() {
                lemma_apply_well_formed(self@, action);
            }
        }
        match action {
            Action::Quit => {
                self.running = false;
            },
            Action::NextFile => self.next_file(),
            Action::PrevFile => self.previous_file(),
            Action::ScrollDown { amount } => {
                let last = self.last_line();
                self.scroll_offset = if amount < last && self.scroll_offset < last - amount {
                    self.scroll_offset + amount
                } else {
                    last
                };
            },
            Action::ScrollUp { amount } => {
                let last = self.last_line();
                self.scroll_offset = if self.scroll_offset <= amount {
                    0
                } else if self.scroll_offset - amount < last {
                    self.scroll_offset - amount
                } else {
                    last
                };
            },
            Action::ToggleSplit { width } => self.toggle_view_mode(width),
            Action::Help => self.toggle_shortcuts(),
            Action::Top => {
                self.scroll_offset = 0;
            },
            Action::Bottom => {
                self.scroll_offset = self.last_line();
            },
            Action::ScrollLeft { amount } => {
                self.horizontal_scroll_offset = if self.horizontal_scroll_offset <= amount {
                    0
                } else {
                    self.horizontal_scroll_offset - amount
                };
            },
            Action::ScrollRight { amount } => {
                self.horizontal_scroll_offset = if amount <= usize::MAX
                    - self.horizontal_scroll_offset {
                    self.horizontal_scroll_offset + amount
                } else {
                    usize::MAX
                };
            },
        }
    }
}

} // verus!
