//! Colours, styles and styled fragments of text.

use vstd::prelude::*;

verus! {

/// A colour of the display.
#[derive(Debug, Clone, Copy, PartialEq, Eq, Structural)]
pub enum Color {
    White,
    Red,
    Green,
    Yellow,
    Blue,
    DarkGray,
    Rgb(u8, u8, u8),
}

/// How a fragment of text is shown.
#[derive(Debug, Clone, Copy, PartialEq, Eq)]
pub struct Style {
    pub fg: Option<Color>,
    pub bg: Option<Color>,
    pub bold: bool,
    pub italic: bool,
    pub underlined: bool,
}

impl Style {
    /// The style that sets nothing.
    pub open spec fn plain() -> Style {
        Style { fg: None, bg: None, bold: false, italic: false, underlined: false }
    }

    pub open spec fn with_fg(self, color: Color) -> Style {
        Style { fg: Some(color), ..self }
    }

    pub open spec fn with_bg(self, color: Color) -> Style {
        Style { bg: Some(color), ..self }
    }

    pub open spec fn with_bold(self) -> Style {
        Style { bold: true, ..self }
    }

    pub open spec fn with_italic(self) -> Style {
        Style { italic: true, ..self }
    }

    pub open spec fn with_underlined(self) -> Style {
        Style { underlined: true, ..self }
    }

    pub fn new() -> (style: Style)
        ensures
            style == Style::plain(),
    {
        Style { fg: None, bg: None, bold: false, italic: false, underlined: false }
    }

    /// The same style with the given foreground.
    pub fn fg(self, color: Color) -> (style: Style)
        ensures
            style == self.with_fg(color),
    {
        Style { fg: Some(color), ..self }
    }

    /// The same style with the given background.
    pub fn bg(self, color: Color) -> (style: Style)
        ensures
            style == self.with_bg(color),
    {
        Style { bg: Some(color), ..self }
    }

    pub fn bold(self) -> (style: Style)
        ensures
            style == self.with_bold(),
    {
        Style { bold: true, ..self }
    }

    pub fn italic(self) -> (style: Style)
        ensures
            style == self.with_italic(),
    {
        Style { italic: true, ..self }
    }

    pub fn underlined(self) -> (style: Style)
        ensures
            style == self.with_underlined(),
    {
        Style { underlined: true, ..self }
    }
}

/// A run of text in one style.
#[derive(Debug, Clone, PartialEq, Eq)]
pub struct Fragment {
    pub style: Style,
    pub text: String,
}

/// The mathematical value of a [`Fragment`].
pub struct FragmentView {
    pub style: Style,
    pub text: Seq<char>,
}

impl View for Fragment {
    type V = FragmentView;

    open spec fn view(&self) -> FragmentView {
        FragmentView { style: self.style, text: self.text@ }
    }
}

impl DeepView for Fragment {
    type V = FragmentView;

    open spec fn deep_view(&self) -> FragmentView {
        self@
    }
}

impl Fragment {
    pub fn styled(text: String, style: Style) -> (fragment: Fragment)
        ensures
            fragment@ == (FragmentView { style, text: text@ }),
    {
        Fragment { style, text }
    }

    /// Text in the style that sets nothing.
    pub fn raw(text: String) -> (fragment: Fragment)
        ensures
            fragment@ == (FragmentView { style: Style::plain(), text: text@ }),
    {
        Fragment { style: Style::new(), text }
    }
}

/// One line of the display: fragments from left to right.
#[derive(Debug, Clone, PartialEq, Eq)]
pub struct StyledLine {
    pub fragments: Vec<Fragment>,
}

impl View for StyledLine {
    type V = Seq<FragmentView>;

    open spec fn view(&self) -> Seq<FragmentView> {
        self.fragments.deep_view()
    }
}

impl DeepView for StyledLine {
    type V = Seq<FragmentView>;

    open spec fn deep_view(&self) -> Seq<FragmentView> {
        self@
    }
}

/// The text of all fragments, one after the other.
pub open spec fn joined_text(fragments: Seq<FragmentView>) -> Seq<char>
    decreases fragments.len(),
{
    if fragments.len() == 0 {
        Seq::empty()
    } else {
        joined_text(fragments.drop_last()) + fragments.last().text
    }
}

} // verus!
