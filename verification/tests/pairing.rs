use diffview::ui::pairing::{end_of_window, pair_lines, RenderUnit};
use diffview::{DiffLine, LineType};

fn line(line_type: LineType) -> DiffLine {
    match line_type {
        LineType::Added => DiffLine::new_added("+a", 1),
        LineType::Removed => DiffLine::new_removed("-r", 1),
        LineType::Context => DiffLine::new_context(" c", 1, 1),
        LineType::Header => DiffLine::new_header("@@ -1 +1 @@"),
    }
}

fn lines(types: &[LineType]) -> Vec<DiffLine> {
    types.iter().map(|t| line(*t)).collect()
}

use LineType::{Added, Context, Header, Removed};
use RenderUnit::{Pair, Single};

#[test]
fn removed_then_added_is_a_pair() {
    let window = lines(&[Removed, Added, Context]);
    assert_eq!(pair_lines(&window, 0, 3), vec![Pair(0, 1), Single(2)]);
}

#[test]
fn only_the_removed_line_next_to_the_added_one_pairs() {
    let window = lines(&[Removed, Removed, Added]);
    assert_eq!(pair_lines(&window, 0, 3), vec![Single(0), Pair(1, 2)]);
}

#[test]
fn partner_outside_the_window_is_no_partner() {
    let file = lines(&[Context, Removed, Added, Context]);
    assert_eq!(pair_lines(&file, 0, 2), vec![Single(0), Single(1)]);
    assert_eq!(pair_lines(&file, 1, 1), vec![Single(1)]);
    assert_eq!(pair_lines(&file, 1, 2), vec![Pair(1, 2)]);
    assert_eq!(pair_lines(&file, 2, 2), vec![Single(2), Single(3)]);
}

#[test]
fn other_lines_stand_alone() {
    let file = lines(&[Header, Added, Removed, Context, Added, Added, Removed]);
    assert_eq!(
        pair_lines(&file, 0, 100),
        vec![Single(0), Single(1), Single(2), Single(3), Single(4), Single(5), Single(6)]
    );
}

#[test]
fn runs_pair_up_two_by_two() {
    let file = lines(&[Removed, Added, Removed, Added, Removed, Added]);
    assert_eq!(pair_lines(&file, 0, 6), vec![Pair(0, 1), Pair(2, 3), Pair(4, 5)]);
    assert_eq!(pair_lines(&file, 1, 6), vec![Single(1), Pair(2, 3), Pair(4, 5)]);
    assert_eq!(pair_lines(&file, 0, 5), vec![Pair(0, 1), Pair(2, 3), Single(4)]);
}

#[test]
fn windows_outside_the_file_are_empty() {
    let file = lines(&[Removed, Added]);
    assert_eq!(pair_lines(&file, 2, 5), Vec::<RenderUnit>::new());
    assert_eq!(pair_lines(&file, 7, 5), Vec::<RenderUnit>::new());
    assert_eq!(pair_lines(&file, 0, 0), Vec::<RenderUnit>::new());
    assert_eq!(pair_lines(&[], 0, 5), Vec::<RenderUnit>::new());
    assert_eq!(pair_lines(&file, usize::MAX, usize::MAX), Vec::<RenderUnit>::new());
    assert_eq!(pair_lines(&file, 0, usize::MAX), vec![Pair(0, 1)]);
}

#[test]
fn every_line_of_the_window_is_shown_once() {
    let file = lines(&[Header, Removed, Removed, Added, Added, Context, Removed, Added, Removed]);
    for start in 0..=file.len() {
        for visible in 0..=file.len() + 1 {
            let mut shown = Vec::new();
            for unit in pair_lines(&file, start, visible) {
                match unit {
                    Single(i) => shown.push(i),
                    Pair(i, j) => {
                        assert_eq!(j, i + 1);
                        assert_eq!(file[i].line_type, Removed);
                        assert_eq!(file[j].line_type, Added);
                        shown.push(i);
                        shown.push(j);
                    }
                }
            }
            let end = end_of_window(file.len(), start, visible);
            let expected: Vec<usize> = (start..end).collect();
            assert_eq!(shown, expected);
        }
    }
}

#[test]
fn window_ends_with_the_file() {
    assert_eq!(end_of_window(10, 0, 4), 4);
    assert_eq!(end_of_window(10, 8, 4), 10);
    assert_eq!(end_of_window(10, 6, 4), 10);
    assert_eq!(end_of_window(10, 12, 4), 10);
    assert_eq!(end_of_window(0, 0, 4), 0);
    assert_eq!(end_of_window(10, usize::MAX, 4), 10);
}
