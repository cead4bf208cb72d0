use diffview::ui::diff_utils::compute_intra_line_diff;

#[test]
fn test_compute_intra_line_diff() {
    let old = "foo bar baz";
    let new = "foo qux baz";
    let (old_ranges, new_ranges) = compute_intra_line_diff(old, new);

    // "bar" (4..7) -> "qux" (4..7)
    assert_eq!(old_ranges, vec![4..7]);
    assert_eq!(new_ranges, vec![4..7]);
}

#[test]
fn test_compute_intra_line_diff_multiple() {
    let old = "abc 123 xyz";
    let new = "abc 456 xyz";
    let (old_ranges, new_ranges) = compute_intra_line_diff(old, new);

    assert_eq!(old_ranges, vec![4..7]);
    assert_eq!(new_ranges, vec![4..7]);
}

use diffview::ui::diff_utils::{apply_diff_highlight, ranges_of_changes, Change, ChangeTag};
use diffview::ui::style::{Color, Fragment, Style};

#[test]
fn equal_lines_have_no_ranges() {
    for text in ["", "a", "same line", "héllo wörld \u{1F600}", "    let x = 1;"] {
        let (old_ranges, new_ranges) = compute_intra_line_diff(text, text);
        assert!(old_ranges.is_empty());
        assert!(new_ranges.is_empty());
    }
    let long = "abcdefghij".repeat(30);
    let (old_ranges, new_ranges) = compute_intra_line_diff(&long, &long);
    assert!(old_ranges.is_empty());
    assert!(new_ranges.is_empty());
}

#[test]
fn one_side_empty() {
    assert_eq!(compute_intra_line_diff("", "abc"), (vec![], vec![0..3]));
    assert_eq!(compute_intra_line_diff("abc", ""), (vec![0..3], vec![]));
}

#[test]
fn insertion_and_deletion() {
    assert_eq!(compute_intra_line_diff("let x = 1;", "let xy = 1;"), (vec![], vec![5..6]));
    assert_eq!(compute_intra_line_diff("let xy = 1;", "let x = 1;"), (vec![5..6], vec![]));
}

#[test]
fn several_ranges_in_order() {
    let (old_ranges, new_ranges) = compute_intra_line_diff("a1b2c", "a9b8c");
    assert_eq!(old_ranges, vec![1..2, 3..4]);
    assert_eq!(new_ranges, vec![1..2, 3..4]);
}

#[test]
fn ranges_count_bytes() {
    let (old_ranges, new_ranges) = compute_intra_line_diff("é=1", "é=22");
    assert_eq!(old_ranges, vec![3..4]);
    assert_eq!(new_ranges, vec![3..5]);
    let (old_ranges, new_ranges) = compute_intra_line_diff("aéb", "aüb");
    assert_eq!(old_ranges, vec![1..3]);
    assert_eq!(new_ranges, vec![1..3]);
}

fn change(tag: ChangeTag, value: &str) -> Change {
    Change { tag, value: value.to_string() }
}

#[test]
fn touching_edits_are_joined() {
    let changes = vec![
        change(ChangeTag::Equal, "ab"),
        change(ChangeTag::Delete, "c"),
        change(ChangeTag::Delete, "d"),
        change(ChangeTag::Insert, "XY"),
        change(ChangeTag::Insert, "Z"),
        change(ChangeTag::Equal, "e"),
        change(ChangeTag::Delete, "é"),
        change(ChangeTag::Equal, "f"),
        change(ChangeTag::Insert, "g"),
    ];
    let (old_ranges, new_ranges) = ranges_of_changes(&changes);
    assert_eq!(old_ranges, vec![2..4, 5..7]);
    assert_eq!(new_ranges, vec![2..5, 7..8]);
}

#[test]
fn edits_apart_stay_apart() {
    let changes = vec![
        change(ChangeTag::Delete, "a"),
        change(ChangeTag::Equal, "b"),
        change(ChangeTag::Delete, "c"),
    ];
    assert_eq!(ranges_of_changes(&changes), (vec![0..1, 2..3], vec![]));
    assert_eq!(ranges_of_changes(&[]), (vec![], vec![]));
}

fn style(red: u8) -> Style {
    Style { fg: Some(Color::Rgb(red, 0, 0)), bg: None, bold: red % 2 == 1, italic: false, underlined: true }
}

fn fragment(text: &str, red: u8) -> Fragment {
    Fragment { style: style(red), text: text.to_string() }
}

fn on(text: &str, red: u8, bg: Color) -> Fragment {
    Fragment { style: Style { bg: Some(bg), ..style(red) }, text: text.to_string() }
}

const BASE: Color = Color::Rgb(1, 2, 3);
const EMPH: Color = Color::Rgb(4, 5, 6);

#[test]
fn without_ranges_only_the_background_changes() {
    let fragments = vec![fragment("let ", 1), fragment("", 2), fragment("x = 1;", 3)];
    let out = apply_diff_highlight(fragments, &[], BASE, EMPH);
    assert_eq!(out, vec![on("let ", 1, BASE), on("", 2, BASE), on("x = 1;", 3, BASE)]);
    assert_eq!(apply_diff_highlight(vec![], &[], BASE, EMPH), vec![]);
}

#[test]
fn a_range_inside_one_fragment() {
    let out = apply_diff_highlight(vec![fragment("hello world", 1)], &[3..8], BASE, EMPH);
    assert_eq!(out, vec![on("hel", 1, BASE), on("lo wo", 1, EMPH), on("rld", 1, BASE)]);
}

#[test]
fn a_range_across_fragments() {
    let fragments = vec![fragment("hello ", 1), fragment("world", 2)];
    let out = apply_diff_highlight(fragments, &[3..8], BASE, EMPH);
    assert_eq!(
        out,
        vec![on("hel", 1, BASE), on("lo ", 1, EMPH), on("wo", 2, EMPH), on("rld", 2, BASE)]
    );
}

#[test]
fn ranges_at_the_ends_and_ends_of_fragments() {
    let fragments = vec![fragment("abc", 1), fragment("def", 2), fragment("ghi", 3)];
    let out = apply_diff_highlight(fragments, &[0..3, 6..9], BASE, EMPH);
    assert_eq!(out, vec![on("abc", 1, EMPH), on("def", 2, BASE), on("ghi", 3, EMPH)]);
}

#[test]
fn several_ranges_in_one_fragment() {
    let out = apply_diff_highlight(vec![fragment("abcdefgh", 1)], &[1..2, 2..4, 6..7], BASE, EMPH);
    assert_eq!(
        out,
        vec![
            on("a", 1, BASE),
            on("b", 1, EMPH),
            on("cd", 1, EMPH),
            on("ef", 1, BASE),
            on("g", 1, EMPH),
            on("h", 1, BASE),
        ]
    );
}

#[test]
fn ranges_past_the_text_are_cut_off() {
    let out = apply_diff_highlight(vec![fragment("abc", 1)], &[2..10, 12..20], BASE, EMPH);
    assert_eq!(out, vec![on("ab", 1, BASE), on("c", 1, EMPH)]);
}

#[test]
fn fragments_without_text_leave_nothing_under_ranges() {
    let fragments = vec![fragment("", 1), fragment("ab", 2), fragment("", 3)];
    let out = apply_diff_highlight(fragments, &[1..2], BASE, EMPH);
    assert_eq!(out, vec![on("a", 2, BASE), on("b", 2, EMPH)]);
}

#[test]
fn cuts_fall_between_characters() {
    let out = apply_diff_highlight(vec![fragment("héllo", 1)], &[1..3], BASE, EMPH);
    assert_eq!(out, vec![on("h", 1, BASE), on("é", 1, EMPH), on("llo", 1, BASE)]);
}

#[test]
fn the_text_of_the_line_stays() {
    let fragments = vec![fragment("fn ", 1), fragment("main", 2), fragment("() {}", 3)];
    let whole: String = fragments.iter().map(|f| f.text.as_str()).collect();
    let out = apply_diff_highlight(fragments, &[1..5, 5..6, 9..12], BASE, EMPH);
    let joined: String = out.iter().map(|f| f.text.as_str()).collect();
    assert_eq!(joined, whole);
    let mut at = 0;
    for piece in &out {
        let end = at + piece.text.len();
        let inside = [1..5, 5..6, 9..12].iter().any(|r| r.start <= at && end <= r.end);
        let expected = if inside { EMPH } else { BASE };
        assert_eq!(piece.style.bg, Some(expected));
        at = end;
    }
}

#[test]
fn fragment_without_text_inside_a_range_leaves_an_empty_piece() {
    let fragments = vec![fragment("ab", 1), fragment("", 2), fragment("cd", 3)];
    let out = apply_diff_highlight(fragments, &[1..3], BASE, EMPH);
    assert_eq!(
        out,
        vec![on("a", 1, BASE), on("b", 1, EMPH), on("", 2, EMPH), on("c", 3, EMPH), on("d", 3, BASE)]
    );
    // where the range begins or ends at the fragment, nothing is left of it
    let fragments = vec![fragment("ab", 1), fragment("", 2), fragment("cd", 3)];
    let out = apply_diff_highlight(fragments, &[2..3], BASE, EMPH);
    assert_eq!(out, vec![on("ab", 1, BASE), on("c", 3, EMPH), on("d", 3, BASE)]);
    let fragments = vec![fragment("ab", 1), fragment("", 2), fragment("cd", 3)];
    let out = apply_diff_highlight(fragments, &[1..2], BASE, EMPH);
    assert_eq!(out, vec![on("a", 1, BASE), on("b", 1, EMPH), on("cd", 3, BASE)]);
}

fn without(text: &str, ranges: &[std::ops::Range<usize>]) -> Vec<u8> {
    text.bytes()
        .enumerate()
        .filter(|(i, _)| !ranges.iter().any(|r| r.start <= *i && *i < r.end))
        .map(|(_, b)| b)
        .collect()
}

const PAIRS: [(&str, &str); 9] = [
    ("", ""),
    ("same", "same"),
    ("", "new"),
    ("old", ""),
    ("foo bar baz", "foo qux baz"),
    ("let x = compute(a, b);", "let y = compute(b, a, c);"),
    ("héllo wörld", "hello world"),
    ("\u{1F600} smile", "smile \u{1F600}"),
    ("abcabcabc", "cbacbacba"),
];

#[test]
fn ranges_hold_at_least_one_byte_and_never_touch() {
    for (old, new) in PAIRS {
        let (old_ranges, new_ranges) = compute_intra_line_diff(old, new);
        for (text, ranges) in [(old, &old_ranges), (new, &new_ranges)] {
            let mut last_end: Option<usize> = None;
            for range in ranges.iter() {
                assert!(range.start < range.end);
                assert!(range.end <= text.len());
                assert!(text.is_char_boundary(range.start));
                assert!(text.is_char_boundary(range.end));
                if let Some(end) = last_end {
                    assert!(end < range.start);
                }
                last_end = Some(range.end);
            }
        }
    }
}

#[test]
fn what_the_ranges_leave_is_the_same_on_both_sides() {
    for (old, new) in PAIRS {
        let (old_ranges, new_ranges) = compute_intra_line_diff(old, new);
        assert_eq!(without(old, &old_ranges), without(new, &new_ranges));
        assert_eq!(old_ranges.is_empty() && new_ranges.is_empty(), old == new);
    }
}

#[test]
fn ranges_of_any_script_leave_what_both_sides_share() {
    let changes = vec![
        change(ChangeTag::Equal, "ab"),
        change(ChangeTag::Delete, "cd"),
        change(ChangeTag::Insert, "é"),
        change(ChangeTag::Equal, ""),
        change(ChangeTag::Equal, "e"),
        change(ChangeTag::Insert, "fg"),
    ];
    let (old_ranges, new_ranges) = ranges_of_changes(&changes);
    assert_eq!(old_ranges, vec![2..4]);
    assert_eq!(new_ranges, vec![2..4, 5..7]);
    assert_eq!(without("abcde", &old_ranges), b"abe".to_vec());
    assert_eq!(without("abéefg", &new_ranges), b"abe".to_vec());
    // a script of equal steps alone, and no other, leaves no range
    let equal = vec![change(ChangeTag::Equal, "a"), change(ChangeTag::Equal, "")];
    assert_eq!(ranges_of_changes(&equal), (vec![], vec![]));
    let empty_edit = vec![change(ChangeTag::Equal, "a"), change(ChangeTag::Delete, "")];
    assert_eq!(ranges_of_changes(&empty_edit), (vec![1..1], vec![]));
}
