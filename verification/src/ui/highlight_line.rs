//! Styled fragments from what a syntax highlighter says of a line.

use vstd::prelude::*;
use vstd::string::StringExecFns;
use crate::diff_file::{DiffFile, DiffLineView, LineType};
use crate::ui::pairing::{end_of_window, window_end};
use crate::ui::style::{joined_text, Color, Fragment, FragmentView, Style};

verus! {

/// The theme that lines are highlighted in.
pub const THEME: &'static str = "base16-ocean.dark";

/// The style that a syntax highlighter gives to a piece of text: a foreground
/// colour and whether the font is bold, italic or underlined.
#[derive(Debug, Clone, Copy, PartialEq, Eq)]
pub struct SyntaxStyle {
    pub red: u8,
    pub green: u8,
    pub blue: u8,
    pub bold: bool,
    pub italic: bool,
    pub underline: bool,
}

/// A piece of a line as a syntax highlighter hands it out.
#[derive(Debug, Clone, PartialEq, Eq)]
pub struct HighlightedText {
    pub style: SyntaxStyle,
    pub text: String,
}

/// The mathematical value of a [`HighlightedText`].
pub struct HighlightedTextView {
    pub style: SyntaxStyle,
    pub text: Seq<char>,
}

impl View for HighlightedText {
    type V = HighlightedTextView;

    open spec fn view(&self) -> HighlightedTextView {
        HighlightedTextView { style: self.style, text: self.text@ }
    }
}

impl DeepView for HighlightedText {
    type V = HighlightedTextView;

    open spec fn deep_view(&self) -> HighlightedTextView {
        self@
    }
}

/// The style of a fragment that shows highlighted text: the highlighter's
/// foreground, and its font attributes.
pub open spec fn fragment_style(style: SyntaxStyle) -> Style {
    Style {
        fg: Some(Color::Rgb(style.red, style.green, style.blue)),
        bg: None,
        bold: style.bold,
        italic: style.italic,
        underlined: style.underline,
    }
}

/// The fragments that show the pieces of a highlighter.
pub open spec fn styled_fragments(pieces: Seq<HighlightedTextView>) -> Seq<FragmentView> {
    Seq::new(
        pieces.len(),
        |i: int| FragmentView { style: fragment_style(pieces[i].style), text: pieces[i].text },
    )
}

/// The one fragment that shows a line as it is.
pub open spec fn raw_fragments(content: Seq<char>) -> Seq<FragmentView> {
    seq![FragmentView { style: Style::plain(), text: content }]
}

/// The fragments of a line. Where a highlighter has cut the line into pieces
/// that make up the line, they are its pieces; where there is no highlighter,
/// or its pieces do not make up the line, the line is one raw fragment.
pub open spec fn highlight_fragments(
    content: Seq<char>,
    highlighted: Option<Seq<HighlightedTextView>>,
) -> Seq<FragmentView> {
    match highlighted {
        Some(pieces) => if joined_text(styled_fragments(pieces)) == content {
            styled_fragments(pieces)
        } else {
            raw_fragments(content)
        },
        None => raw_fragments(content),
    }
}

/// The fragments of a line always make up the line.
pub proof fn lemma_highlight_covers(
    content: Seq<char>,
    highlighted: Option<Seq<HighlightedTextView>>,
)
    ensures
        joined_text(highlight_fragments(content, highlighted)) == content,
{
    let raw = raw_fragments(content);
    assert(joined_text(raw) =~= content) by {
        reveal_with_fuel(joined_text, 2);
    }
}

/// The style of a fragment for a style of the highlighter.
pub fn to_fragment_style(style: SyntaxStyle) -> (r: Style)
    ensures
        r == fragment_style(style),
{
    let mut r = Style::new().fg(Color::Rgb(style.red, style.green, style.blue));
    if style.bold {
        r = r.bold();
    }
    if style.italic {
        r = r.italic();
    }
    if style.underline {
        r = r.underlined();
    }
    r
}

/// The fragments of a line, from what a highlighter made of it, if there was
/// one for the file.
pub fn highlight_line_content(content: &str, highlighted: Option<&[HighlightedText]>) -> (fragments:
    Vec<Fragment>)
    ensures
        fragments.deep_view() == highlight_fragments(content@, highlighted.deep_view()),
{
    match highlighted {
        Some(pieces) => {
            let ghost views = styled_fragments(pieces.deep_view());
            let mut fragments: Vec<Fragment> = Vec::new();
            let mut joined = String::new();
            let mut i: usize = 0;
            while i < pieces.len()
                invariant
                    i <= pieces.len(),
                    views == styled_fragments(pieces.deep_view()),
                    fragments.deep_view() =~= views.take(i as int),
                    joined@ == joined_text(views.take(i as int)),
                decreases pieces.len() - i,
            {
                let piece = &pieces[i];
                assert(views.take(i + 1).drop_last() =~= views.take(i as int));
                joined.append(piece.text.as_str());
                fragments.push(
                    Fragment::styled(piece.text.clone(), to_fragment_style(piece.style)),
                );
                i += 1;
            }
            assert(views.take(i as int) =~= views);
            let whole = String::from_str(content);
            if joined == whole {
                fragments
            } else {
                raw_line(content)
            }
        },
        None => raw_line(content),
    }
}

fn raw_line(content: &str) -> (fragments: Vec<Fragment>)
    ensures
        fragments.deep_view() == raw_fragments(content@),
{
    let mut fragments: Vec<Fragment> = Vec::new();
    fragments.push(Fragment::raw(String::from_str(content)));
    fragments
}

/// What a highlighter is asked to work on for a line: the content of the
/// line, but nothing for a hunk header.
pub open spec fn content_to_highlight(line: DiffLineView) -> Option<Seq<char>> {
    if line.line_type == LineType::Header {
        None
    } else {
        Some(line.content)
    }
}

/// For each line of the window of `visible_lines` lines that starts at
/// `scroll_offset`, in order: what a highlighter is asked to work on.
pub fn window_contents<'a>(file: &'a DiffFile, scroll_offset: usize, visible_lines: usize) -> (contents:
    Vec<Option<&'a str>>)
    ensures
        contents.len() == if scroll_offset <= window_end(
            file@.lines.len() as int,
            scroll_offset as int,
            visible_lines as int,
        ) {
            window_end(file@.lines.len() as int, scroll_offset as int, visible_lines as int)
                - scroll_offset
        } else {
            0
        },
        forall|p: int|
            0 <= p < contents.len() ==> (#[trigger] contents[p]).deep_view()
                == content_to_highlight(file@.lines[scroll_offset + p]),
{
    let end = end_of_window(file.lines.len(), scroll_offset, visible_lines);
    let mut contents: Vec<Option<&'a str>> = Vec::new();
    let mut i = scroll_offset;
    while i < end
        invariant
            end <= file.lines.len(),
            end == window_end(
                file@.lines.len() as int,
                scroll_offset as int,
                visible_lines as int,
            ),
            scroll_offset <= i,
            scroll_offset <= end ==> i <= end,
            scroll_offset > end ==> contents.len() == 0,
            i <= end ==> contents.len() == i - scroll_offset,
            forall|p: int|
                0 <= p < contents.len() ==> (#[trigger] contents[p]).deep_view()
                    == content_to_highlight(file@.lines[scroll_offset + p]),
        decreases end - i,
    {
        let line = &file.lines[i];
        assert(file@.lines[i as int] == line@);
        if line.line_type == LineType::Header {
            contents.push(None);
        } else {
            contents.push(Some(line.content.as_str()));
        }
        i += 1;
    }
    contents
}

} // verus!
