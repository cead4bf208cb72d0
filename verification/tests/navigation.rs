use diffview::app::{Action, App};
use diffview::keys::{action_for_key, needs_width, Key};
use diffview::command::{diff_arguments, git_arguments, starts_side_by_side};

const DIFF: &str = "diff --git a/one b/one\n@@ -1 +1 @@\n a\n b\n c\n d\n e\n\
                    diff --git a/two b/two\n\
                    diff --git a/three b/three\n@@ -1 +1 @@\n+x\n";

fn loaded() -> App {
    let mut app = App::new(false);
    app.load_diff(DIFF);
    app
}

#[test]
fn a_new_session_is_empty() {
    let app = App::new(true);
    assert!(app.files.is_empty());
    assert_eq!(app.selected_file, 0);
    assert_eq!(app.scroll_offset, 0);
    assert_eq!(app.horizontal_scroll_offset, 0);
    assert!(app.show_side_by_side);
    assert!(app.show_shortcuts);
    assert!(app.running);
    assert!(!App::new(false).show_side_by_side);
}

#[test]
fn loading_replaces_the_files() {
    let mut app = loaded();
    assert_eq!(app.files.len(), 3);
    assert_eq!(app.files[0].line_count(), 6);
    assert_eq!(app.line_count(), 6);
    app.next_file();
    app.perform_action(Action::ScrollRight { amount: 3 });
    app.load_diff("diff --git a/only b/only\n+x\n+y\n");
    assert_eq!(app.files.len(), 1);
    assert_eq!(app.selected_file, 0);
    assert_eq!(app.scroll_offset, 0);
    assert_eq!(app.horizontal_scroll_offset, 0);
    assert_eq!(app.line_count(), 2);
}

#[test]
fn next_file_goes_round() {
    let mut app = loaded();
    app.scroll_down();
    app.perform_action(Action::ScrollRight { amount: 5 });
    app.next_file();
    assert_eq!(app.selected_file, 1);
    assert_eq!(app.scroll_offset, 0);
    assert_eq!(app.horizontal_scroll_offset, 0);
    app.next_file();
    assert_eq!(app.selected_file, 2);
    app.next_file();
    assert_eq!(app.selected_file, 0);
}

#[test]
fn as_many_next_files_as_files_lead_back() {
    for start in 0..3 {
        let mut app = loaded();
        app.selected_file = start;
        for _ in 0..app.files.len() {
            app.perform_action(Action::NextFile);
        }
        assert_eq!(app.selected_file, start);
    }
}

#[test]
fn previous_file_goes_round() {
    let mut app = loaded();
    app.previous_file();
    assert_eq!(app.selected_file, 2);
    app.scroll_offset = 0;
    app.previous_file();
    assert_eq!(app.selected_file, 1);
    app.perform_action(Action::PrevFile);
    assert_eq!(app.selected_file, 0);
}

#[test]
fn without_files_nothing_moves() {
    let mut app = App::new(false);
    for action in [
        Action::NextFile,
        Action::PrevFile,
        Action::ScrollDown { amount: 10 },
        Action::ScrollUp { amount: 10 },
        Action::Top,
        Action::Bottom,
    ] {
        app.perform_action(action);
        assert_eq!(app.selected_file, 0);
        assert_eq!(app.scroll_offset, 0);
    }
    app.scroll_down();
    app.scroll_up();
    app.next_file();
    app.previous_file();
    assert_eq!(app.selected_file, 0);
    assert_eq!(app.scroll_offset, 0);
    assert_eq!(app.line_count(), 0);
}

#[test]
fn scrolling_stops_at_the_last_line() {
    let mut app = loaded();
    for expected in [1, 2, 3, 4, 5, 5, 5] {
        app.scroll_down();
        assert_eq!(app.scroll_offset, expected);
    }
    app.perform_action(Action::Top);
    app.perform_action(Action::ScrollDown { amount: 4 });
    assert_eq!(app.scroll_offset, 4);
    app.perform_action(Action::ScrollDown { amount: 4 });
    assert_eq!(app.scroll_offset, 5);
    app.perform_action(Action::ScrollDown { amount: usize::MAX });
    assert_eq!(app.scroll_offset, 5);
}

#[test]
fn scrolling_up_stops_at_the_first_line() {
    let mut app = loaded();
    app.perform_action(Action::Bottom);
    assert_eq!(app.scroll_offset, 5);
    app.perform_action(Action::ScrollUp { amount: 2 });
    assert_eq!(app.scroll_offset, 3);
    for _ in 0..10 {
        app.perform_action(Action::ScrollUp { amount: 2 });
    }
    assert_eq!(app.scroll_offset, 0);
    app.perform_action(Action::ScrollUp { amount: usize::MAX });
    assert_eq!(app.scroll_offset, 0);
    app.scroll_offset = 2;
    for expected in [1, 0, 0, 0] {
        app.scroll_up();
        assert_eq!(app.scroll_offset, expected);
    }
}

#[test]
fn a_file_without_lines_stays_at_the_top() {
    let mut app = loaded();
    app.next_file();
    assert_eq!(app.line_count(), 0);
    app.perform_action(Action::ScrollDown { amount: 3 });
    assert_eq!(app.scroll_offset, 0);
    app.perform_action(Action::Bottom);
    assert_eq!(app.scroll_offset, 0);
    app.scroll_down();
    assert_eq!(app.scroll_offset, 0);
}

#[test]
fn sideways_scrolling_has_a_floor_and_no_ceiling() {
    let mut app = loaded();
    app.perform_action(Action::ScrollLeft { amount: 1 });
    assert_eq!(app.horizontal_scroll_offset, 0);
    app.perform_action(Action::ScrollRight { amount: 10 });
    app.perform_action(Action::ScrollRight { amount: 1 });
    assert_eq!(app.horizontal_scroll_offset, 11);
    app.perform_action(Action::ScrollLeft { amount: 10 });
    assert_eq!(app.horizontal_scroll_offset, 1);
    app.perform_action(Action::ScrollLeft { amount: 10 });
    assert_eq!(app.horizontal_scroll_offset, 0);
    app.perform_action(Action::ScrollRight { amount: 100_000 });
    assert_eq!(app.horizontal_scroll_offset, 100_000);
    app.perform_action(Action::ScrollRight { amount: usize::MAX });
    assert_eq!(app.horizontal_scroll_offset, usize::MAX);
    assert_eq!(app.scroll_offset, 0);
}

#[test]
fn split_view_needs_width() {
    let mut app = App::new(false);
    app.toggle_view_mode(119);
    assert!(!app.show_side_by_side);
    app.toggle_view_mode(120);
    assert!(app.show_side_by_side);
    app.toggle_view_mode(200);
    assert!(!app.show_side_by_side);
    app.perform_action(Action::ToggleSplit { width: 300 });
    assert!(app.show_side_by_side);
    app.perform_action(Action::ToggleSplit { width: 80 });
    assert!(!app.show_side_by_side);
    app.perform_action(Action::ToggleSplit { width: 80 });
    assert!(!app.show_side_by_side);
}

#[test]
fn help_and_quit() {
    let mut app = App::new(false);
    app.toggle_shortcuts();
    assert!(!app.show_shortcuts);
    app.perform_action(Action::Help);
    assert!(app.show_shortcuts);
    assert!(app.running);
    app.perform_action(Action::Quit);
    assert!(!app.running);
    assert!(app.show_shortcuts);
}

#[test]
fn keys_ask_for_actions() {
    let expected = [
        (Key::Char('q'), Some(Action::Quit)),
        (Key::Char('j'), Some(Action::NextFile)),
        (Key::Down, Some(Action::NextFile)),
        (Key::Char('k'), Some(Action::PrevFile)),
        (Key::Up, Some(Action::PrevFile)),
        (Key::Char('d'), Some(Action::ScrollDown { amount: 10 })),
        (Key::PageDown, Some(Action::ScrollDown { amount: 10 })),
        (Key::Char('u'), Some(Action::ScrollUp { amount: 10 })),
        (Key::PageUp, Some(Action::ScrollUp { amount: 10 })),
        (Key::Char('s'), Some(Action::ToggleSplit { width: 133 })),
        (Key::Char('?'), Some(Action::Help)),
        (Key::Char('g'), Some(Action::Top)),
        (Key::Char('G'), Some(Action::Bottom)),
        (Key::Left, Some(Action::ScrollLeft { amount: 1 })),
        (Key::Char('h'), Some(Action::ScrollLeft { amount: 1 })),
        (Key::Right, Some(Action::ScrollRight { amount: 1 })),
        (Key::Char('l'), Some(Action::ScrollRight { amount: 1 })),
        (Key::Char('H'), Some(Action::ScrollLeft { amount: 10 })),
        (Key::Char('L'), Some(Action::ScrollRight { amount: 10 })),
        (Key::Char('x'), None),
        (Key::Char('Q'), None),
        (Key::Other, None),
    ];
    for (key, action) in expected {
        assert_eq!(action_for_key(key, 133), action);
        assert_eq!(needs_width(key), key == Key::Char('s'));
    }
}

#[test]
fn what_is_compared() {
    assert_eq!(diff_arguments(Some("abc123"), false, "HEAD~1"), "abc123^..abc123");
    assert_eq!(diff_arguments(Some("abc123"), true, ""), "abc123^..abc123");
    assert_eq!(diff_arguments(None, true, "HEAD~1"), "--cached");
    assert_eq!(diff_arguments(None, false, "HEAD~1"), "HEAD~1");
    assert_eq!(diff_arguments(None, false, ""), "");
}

#[test]
fn arguments_of_the_diff_command() {
    assert_eq!(git_arguments(""), vec!["diff", "--no-prefix"]);
    assert_eq!(git_arguments("   "), vec!["diff", "--no-prefix"]);
    assert_eq!(git_arguments("HEAD~1"), vec!["diff", "--no-prefix", "HEAD~1"]);
    assert_eq!(
        git_arguments("  main..feature \t -- src/ "),
        vec!["diff", "--no-prefix", "main..feature", "--", "src/"]
    );
}

#[test]
fn wide_terminals_start_split() {
    assert!(!starts_side_by_side(99));
    assert!(starts_side_by_side(100));
    assert!(starts_side_by_side(250));
}
