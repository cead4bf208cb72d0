//! The line of keyboard shortcuts at the foot of the screen.

use vstd::prelude::*;
use vstd::string::StringExecFns;
use crate::ui::style::{Color, Fragment, FragmentView, Style, StyledLine};

verus! {

/// The style of a key in the footer.
pub open spec fn key_style() -> Style {
    Style::plain().with_fg(Color::Yellow).with_bold()
}

pub open spec fn key_fragment(text: Seq<char>) -> FragmentView {
    FragmentView { style: key_style(), text }
}

pub open spec fn label_fragment(text: Seq<char>) -> FragmentView {
    FragmentView { style: Style::plain(), text }
}

/// The shortcuts: each key, and what it does.
pub open spec fn footer_fragments() -> Seq<FragmentView> {
    seq![
        key_fragment("q"@),
        label_fragment(":Quit  "@),
        key_fragment("j/k"@),
        label_fragment(":Files  "@),
        key_fragment("d/u"@),
        label_fragment(":Scroll  "@),
        key_fragment("g/G"@),
        label_fragment(":Top/Bottom  "@),
        key_fragment("←/→/h/l/H/L"@),
        label_fragment(":H-Scroll  "@),
        key_fragment("s"@),
        label_fragment(":Toggle View  "@),
        key_fragment("?"@),
        label_fragment(":Hide Help"@),
    ]
}

fn push_shortcut(fragments: &mut Vec<Fragment>, key: &str, label: &str)
    ensures
        final(fragments).deep_view() == old(fragments).deep_view().push(key_fragment(key@)).push(
            label_fragment(label@),
        ),
{
    fragments.push(Fragment::styled(String::from_str(key), Style::new().fg(Color::Yellow).bold()));
    fragments.push(Fragment::raw(String::from_str(label)));
}

/// The line of shortcuts.
pub fn render_footer() -> (line: StyledLine)
    ensures
        line@ == footer_fragments(),
{
    let mut fragments: Vec<Fragment> = Vec::new();
    push_shortcut(&mut fragments, "q", ":Quit  ");
    push_shortcut(&mut fragments, "j/k", ":Files  ");
    push_shortcut(&mut fragments, "d/u", ":Scroll  ");
    push_shortcut(&mut fragments, "g/G", ":Top/Bottom  ");
    push_shortcut(&mut fragments, "←/→/h/l/H/L", ":H-Scroll  ");
    push_shortcut(&mut fragments, "s", ":Toggle View  ");
    push_shortcut(&mut fragments, "?", ":Hide Help");
    StyledLine { fragments }
}

} // verus!
