use diffview::parse_diff;
use diffview::ui::highlight_line::{
    highlight_line_content, to_fragment_style, window_contents, HighlightedText, SyntaxStyle,
    THEME,
};
use diffview::ui::side_by_side_diff::{copy_row, render_side_by_side_diff};
use diffview::ui::style::{Color, Fragment, Style, StyledLine};
use diffview::ui::unified_diff::{format_line_numbers, render_diff_line, render_unified_diff};
use diffview::{DiffLine, LineType};

const PLAIN: Style = Style { fg: None, bg: None, bold: false, italic: false, underlined: false };
const REMOVED: Color = Color::Rgb(139, 0, 0);
const REMOVED_CHANGE: Color = Color::Rgb(80, 0, 0);
const ADDED: Color = Color::Rgb(0, 100, 0);
const ADDED_CHANGE: Color = Color::Rgb(0, 60, 0);
const FILLER: Color = Color::Rgb(40, 40, 40);

fn piece(text: &str, style: Style) -> Fragment {
    Fragment { style, text: text.to_string() }
}

fn numbers(text: &str) -> Fragment {
    piece(text, Style { fg: Some(Color::DarkGray), ..PLAIN })
}

fn sign(text: &str, bg: Option<Color>) -> Fragment {
    piece(text, Style { fg: Some(Color::White), bg, ..PLAIN })
}

fn on(text: &str, bg: Color) -> Fragment {
    piece(text, Style { bg: Some(bg), ..PLAIN })
}

fn header_text(text: &str) -> Fragment {
    piece(text, Style { fg: Some(Color::White), bg: Some(Color::Blue), bold: true, ..PLAIN })
}

fn row(fragments: Vec<Fragment>) -> StyledLine {
    StyledLine { fragments }
}

#[test]
fn line_numbers_fill_their_fields() {
    assert_eq!(format_line_numbers(Some(1), Some(2)), "   1:   2 ");
    assert_eq!(format_line_numbers(Some(12), Some(3456)), "  12:3456 ");
    assert_eq!(format_line_numbers(Some(0), Some(0)), "   0:   0 ");
    assert_eq!(format_line_numbers(Some(7), None), "   7:     ");
    assert_eq!(format_line_numbers(None, Some(7)), "    :   7 ");
    assert_eq!(format_line_numbers(None, None), "    :     ");
    assert_eq!(format_line_numbers(Some(9999), Some(10000)), "9999:10000 ");
    assert_eq!(format_line_numbers(Some(4294967295), None), "4294967295:     ");
    assert_eq!(format_line_numbers(None, Some(123456)), "    :123456 ");
}

#[test]
fn line_numbers_have_one_width() {
    for old in [None, Some(0u32), Some(7), Some(42), Some(999), Some(9999)] {
        for new in [None, Some(1u32), Some(10), Some(100), Some(1000), Some(9999)] {
            let text = format_line_numbers(old, new);
            let chars: Vec<char> = text.chars().collect();
            assert_eq!(chars.len(), 10);
            assert_eq!(chars[4], ':');
            assert_eq!(chars[9], ' ');
        }
    }
}

#[test]
fn line_numbers_look_as_the_formatter_prints_them() {
    for n in [0u32, 5, 9, 10, 99, 100, 999, 1000, 9999, 10000, 65536, 1234567890, u32::MAX] {
        assert_eq!(format_line_numbers(Some(n), Some(n)), format!("{:4}:{:4} ", n, n));
        assert_eq!(format_line_numbers(Some(n), None), format!("{:4}:     ", n));
        assert_eq!(format_line_numbers(None, Some(n)), format!("    :{:4} ", n));
    }
}

const SAMPLE: &str = "diff --git a/t.txt b/t.txt\n@@ -1,2 +1,2 @@\n-old\n+new\n context\n";

fn header_row() -> StyledLine {
    row(vec![numbers("    :     "), sign("@ ", Some(Color::Blue)), header_text("@@ -1,2 +1,2 @@")])
}

fn removed_pair_row() -> StyledLine {
    row(vec![numbers("   1:     "), sign("- ", Some(REMOVED)), on("old", REMOVED_CHANGE)])
}

fn added_pair_row() -> StyledLine {
    row(vec![numbers("    :   1 "), sign("+ ", Some(ADDED)), on("new", ADDED_CHANGE)])
}

fn context_row() -> StyledLine {
    row(vec![numbers("   2:   2 "), sign("  ", None), piece("context", PLAIN)])
}

#[test]
fn unified_view_of_the_sample() {
    let files = parse_diff(SAMPLE);
    let rows = render_unified_diff(&files[0], 0, 10, &[]);
    assert_eq!(rows, vec![header_row(), removed_pair_row(), added_pair_row(), context_row()]);
}

#[test]
fn unified_view_of_a_window() {
    let files = parse_diff(SAMPLE);
    // the added line lies outside the window, so the removed line stands alone
    let rows = render_unified_diff(&files[0], 0, 2, &[]);
    let removed_alone =
        row(vec![numbers("   1:     "), sign("- ", Some(REMOVED)), on("old", REMOVED)]);
    assert_eq!(rows, vec![header_row(), removed_alone]);
    // the removed line lies outside the window, so the added line stands alone
    let rows = render_unified_diff(&files[0], 2, 5, &[]);
    let added_alone = row(vec![numbers("    :   1 "), sign("+ ", Some(ADDED)), on("new", ADDED)]);
    assert_eq!(rows, vec![added_alone, context_row()]);
    assert_eq!(render_unified_diff(&files[0], 4, 5, &[]), vec![]);
    assert_eq!(render_unified_diff(&files[0], 0, 0, &[]), vec![]);
}

fn keyword() -> SyntaxStyle {
    SyntaxStyle { red: 180, green: 142, blue: 173, bold: true, italic: false, underline: false }
}

fn name() -> SyntaxStyle {
    SyntaxStyle { red: 143, green: 161, blue: 179, bold: false, italic: true, underline: true }
}

fn highlighted(parts: &[(SyntaxStyle, &str)]) -> Vec<HighlightedText> {
    parts.iter().map(|(style, text)| HighlightedText { style: *style, text: text.to_string() }).collect()
}

#[test]
fn highlighter_styles_become_fragment_styles() {
    assert_eq!(
        to_fragment_style(keyword()),
        Style { fg: Some(Color::Rgb(180, 142, 173)), bg: None, bold: true, italic: false, underlined: false }
    );
    assert_eq!(
        to_fragment_style(name()),
        Style { fg: Some(Color::Rgb(143, 161, 179)), bg: None, bold: false, italic: true, underlined: true }
    );
}

#[test]
fn line_is_shown_by_the_pieces_of_the_highlighter() {
    let pieces = highlighted(&[(keyword(), "let"), (name(), " x"), (keyword(), "")]);
    let fragments = highlight_line_content("let x", Some(&pieces));
    assert_eq!(
        fragments,
        vec![
            piece("let", to_fragment_style(keyword())),
            piece(" x", to_fragment_style(name())),
            piece("", to_fragment_style(keyword())),
        ]
    );
}

#[test]
fn line_without_highlighter_is_raw() {
    assert_eq!(highlight_line_content("let x", None), vec![piece("let x", PLAIN)]);
    assert_eq!(highlight_line_content("", None), vec![piece("", PLAIN)]);
}

#[test]
fn pieces_that_do_not_make_up_the_line_are_not_used() {
    let short = highlighted(&[(keyword(), "let")]);
    assert_eq!(highlight_line_content("let x", Some(&short)), vec![piece("let x", PLAIN)]);
    let other = highlighted(&[(keyword(), "let"), (name(), " y")]);
    assert_eq!(highlight_line_content("let x", Some(&other)), vec![piece("let x", PLAIN)]);
    assert_eq!(highlight_line_content("let x", Some(&[])), vec![piece("let x", PLAIN)]);
    assert_eq!(highlight_line_content("", Some(&[])), vec![]);
}

#[test]
fn row_of_a_highlighted_line_with_ranges() {
    let line = DiffLine::new_removed("-let x", 12);
    let pieces = highlighted(&[(keyword(), "let"), (name(), " x")]);
    let ranges = vec![2..4];
    let rendered = render_diff_line(&line, Some(&pieces), Some((&ranges, REMOVED, REMOVED_CHANGE)));
    let k = to_fragment_style(keyword());
    let n = to_fragment_style(name());
    assert_eq!(
        rendered,
        row(vec![
            numbers("  12:     "),
            sign("- ", Some(REMOVED)),
            piece("le", Style { bg: Some(REMOVED), ..k }),
            piece("t", Style { bg: Some(REMOVED_CHANGE), ..k }),
            piece(" ", Style { bg: Some(REMOVED_CHANGE), ..n }),
            piece("x", Style { bg: Some(REMOVED), ..n }),
        ])
    );
}

#[test]
fn rows_by_line_type() {
    let pieces = highlighted(&[(keyword(), "let"), (name(), " x")]);
    let k = to_fragment_style(keyword());
    let n = to_fragment_style(name());
    let added = render_diff_line(&DiffLine::new_added("+let x", 3), Some(&pieces), None);
    assert_eq!(
        added,
        row(vec![
            numbers("    :   3 "),
            sign("+ ", Some(ADDED)),
            piece("let", Style { bg: Some(ADDED), ..k }),
            piece(" x", Style { bg: Some(ADDED), ..n }),
        ])
    );
    let context = render_diff_line(&DiffLine::new_context(" let x", 3, 4), Some(&pieces), None);
    assert_eq!(
        context,
        row(vec![numbers("   3:   4 "), sign("  ", None), piece("let", k), piece(" x", n)])
    );
    let ranges = vec![0..2];
    for intra in [None, Some((&ranges[..], ADDED, ADDED_CHANGE))] {
        let header = render_diff_line(&DiffLine::new_header("@@ -1 +1 @@"), Some(&pieces), intra);
        assert_eq!(
            header,
            row(vec![numbers("    :     "), sign("@ ", Some(Color::Blue)), header_text("@@ -1 +1 @@")])
        );
    }
}

#[test]
fn unified_view_uses_the_pieces_of_each_line() {
    let files = parse_diff("diff --git a/f b/f\n@@ -1 +1 @@\n let x\n-let y\n+let z\n");
    let window = vec![
        None,
        Some(highlighted(&[(keyword(), "let"), (name(), " x")])),
        Some(highlighted(&[(keyword(), "let"), (name(), " y")])),
        Some(highlighted(&[(keyword(), "nonsense")])),
    ];
    let rows = render_unified_diff(&files[0], 0, 4, &window);
    let k = to_fragment_style(keyword());
    let n = to_fragment_style(name());
    assert_eq!(rows.len(), 4);
    assert_eq!(
        rows[1],
        row(vec![numbers("   1:   1 "), sign("  ", None), piece("let", k), piece(" x", n)])
    );
    assert_eq!(
        rows[2],
        row(vec![
            numbers("   2:     "),
            sign("- ", Some(REMOVED)),
            piece("let", Style { bg: Some(REMOVED), ..k }),
            piece(" ", Style { bg: Some(REMOVED), ..n }),
            piece("y", Style { bg: Some(REMOVED_CHANGE), ..n }),
        ])
    );
    assert_eq!(
        rows[3],
        row(vec![
            numbers("    :   2 "),
            sign("+ ", Some(ADDED)),
            on("let ", ADDED),
            on("z", ADDED_CHANGE),
        ])
    );
    // the pieces belong to the lines of the window, wherever it starts
    let rows = render_unified_diff(&files[0], 1, 1, &window[1..2]);
    assert_eq!(
        rows,
        vec![row(vec![numbers("   1:   1 "), sign("  ", None), piece("let", k), piece(" x", n)])]
    );
}

fn filler(width: usize) -> StyledLine {
    row(vec![on(&" ".repeat(width), FILLER)])
}

#[test]
fn side_by_side_view_of_the_sample() {
    let files = parse_diff(SAMPLE);
    let (old, new) = render_side_by_side_diff(&files[0], 0, 10, 7, &[]);
    let header = row(vec![header_text("@@ -1,2 +1,2 @@")]);
    assert_eq!(old, vec![header.clone(), removed_pair_row(), context_row()]);
    assert_eq!(new, vec![header, added_pair_row(), context_row()]);
}

#[test]
fn side_by_side_view_fills_the_other_side() {
    let files = parse_diff("diff --git a/f b/f\n@@ -1 +1 @@\n+a\n-b\n-c\n c\n");
    let (old, new) = render_side_by_side_diff(&files[0], 1, 10, 5, &[]);
    let added = row(vec![numbers("    :   1 "), sign("+ ", Some(ADDED)), on("a", ADDED)]);
    let removed_b = row(vec![numbers("   1:     "), sign("- ", Some(REMOVED)), on("b", REMOVED)]);
    let removed_c = row(vec![numbers("   2:     "), sign("- ", Some(REMOVED)), on("c", REMOVED)]);
    let context = row(vec![numbers("   3:   2 "), sign("  ", None), piece("c", PLAIN)]);
    assert_eq!(old, vec![filler(5), removed_b, removed_c, context.clone()]);
    assert_eq!(new, vec![added, filler(5), filler(5), context]);
    let (old, new) = render_side_by_side_diff(&files[0], 1, 1, 0, &[]);
    assert_eq!(old, vec![filler(0)]);
    assert_eq!(new.len(), 1);
}

#[test]
fn columns_have_the_same_number_of_rows() {
    let files = parse_diff(
        "diff --git a/f b/f\n@@ -1 +1 @@\n-a\n+b\n+c\n-d\n e\n@@ -9 +9 @@\n-f\n-g\n+h\n",
    );
    for start in 0..12 {
        for visible in 0..12 {
            let (old, new) = render_side_by_side_diff(&files[0], start, visible, 20, &[]);
            assert_eq!(old.len(), new.len());
            let unified = render_unified_diff(&files[0], start, visible, &[]);
            let shown = files[0].lines.len().min(start + visible).saturating_sub(start);
            assert_eq!(unified.len(), shown);
            assert!(old.len() <= shown);
        }
    }
}

#[test]
fn copy_of_a_row_is_the_row() {
    let row_of_context = context_row();
    assert_eq!(copy_row(&row_of_context), row_of_context);
    assert_eq!(copy_row(&row(vec![])), row(vec![]));
}

#[test]
fn every_type_has_its_sign() {
    for (line, text) in [
        (DiffLine::new_added("+x", 1), "+ "),
        (DiffLine::new_removed("-x", 1), "- "),
        (DiffLine::new_context(" x", 1, 1), "  "),
        (DiffLine::new_header("@@"), "@ "),
    ] {
        let rendered = render_diff_line(&line, None, None);
        assert_eq!(rendered.fragments[1].text, text);
        assert_eq!(rendered.fragments[1].style.fg, Some(Color::White));
        assert_eq!(rendered.fragments[1].style.bg.is_some(), line.line_type != LineType::Context);
    }
}

#[test]
fn highlighter_is_asked_for_the_lines_of_the_window() {
    let files = parse_diff(SAMPLE);
    assert_eq!(
        window_contents(&files[0], 0, 10),
        vec![None, Some("old"), Some("new"), Some("context")]
    );
    assert_eq!(window_contents(&files[0], 1, 2), vec![Some("old"), Some("new")]);
    assert_eq!(window_contents(&files[0], 0, 1), vec![None]);
    assert_eq!(window_contents(&files[0], 3, usize::MAX), vec![Some("context")]);
    assert_eq!(window_contents(&files[0], 4, 3), Vec::<Option<&str>>::new());
    assert_eq!(window_contents(&files[0], 9, 3), Vec::<Option<&str>>::new());
    assert_eq!(window_contents(&files[0], 0, 0), Vec::<Option<&str>>::new());
    assert_eq!(THEME, "base16-ocean.dark");
}
