use diffview::{parse_diff, LineType};

#[test]
fn test_parse_diff() {
    let sample_diff = r#"diff --git a/test.txt b/test.txt
index 1234567..abcdefg 100644
--- a/test.txt
+++ b/test.txt
@@ -1,5 +1,6 @@
-This is the original file.
+This is the MODIFIED file.
 It has multiple lines.
-Some content here.
+Some NEW content here.
 More content.
+Additional line added.
 Final line."#;

    let files = parse_diff(sample_diff);

    assert_eq!(files.len(), 1);
    assert_eq!(files[0].name, "test.txt");
    assert_eq!(files[0].status, 'M');

    // Check that we have the right number of lines
    assert!(files[0].lines.len() > 0);

    // Check for different line types
    let has_added = files[0]
        .lines
        .iter()
        .any(|l| l.line_type == LineType::Added);
    let has_removed = files[0]
        .lines
        .iter()
        .any(|l| l.line_type == LineType::Removed);
    let has_context = files[0]
        .lines
        .iter()
        .any(|l| l.line_type == LineType::Context);

    assert!(has_added, "Should have added lines");
    assert!(has_removed, "Should have removed lines");
    assert!(has_context, "Should have context lines");
}

#[test]
fn test_parse_real_git_diff() {
    let real_diff = r#"diff --git test.txt test.txt
index 6643ba4..0b4147a 100644
--- test.txt
+++ test.txt
@@ -1,5 +1,6 @@
-This is the original file.
+This is the MODIFIED file.
 It has multiple lines.
-Some content here.
+Some NEW content here.
 More content.
+Additional line added.
 Final line."#;

    let files = parse_diff(real_diff);

    assert_eq!(files.len(), 1);
    assert_eq!(files[0].name, "test.txt");

    // Verify we parsed the correct line types
    let added_lines: Vec<_> = files[0]
        .lines
        .iter()
        .filter(|l| l.line_type == LineType::Added)
        .collect();
    let removed_lines: Vec<_> = files[0]
        .lines
        .iter()
        .filter(|l| l.line_type == LineType::Removed)
        .collect();

    assert!(added_lines.len() >= 3, "Should have at least 3 added lines");
    assert!(
        removed_lines.len() >= 2,
        "Should have at least 2 removed lines"
    );

    // Verify content of some lines
    assert!(added_lines.iter().any(|l| l.content.contains("MODIFIED")));
    assert!(
        added_lines
            .iter()
            .any(|l| l.content.contains("NEW content"))
    );
    assert!(
        added_lines
            .iter()
            .any(|l| l.content.contains("Additional line"))
    );

    assert!(
        removed_lines
            .iter()
            .any(|l| l.content.contains("original file"))
    );
    assert!(
        removed_lines
            .iter()
            .any(|l| l.content.contains("Some content here"))
    );
}

#[test]
fn parses_the_sample_hunk() {
    let files = parse_diff("diff --git a/t.txt b/t.txt\n@@ -1,2 +1,2 @@\n-old\n+new\n context\n");
    assert_eq!(files.len(), 1);
    assert_eq!(files[0].get_name(), "t.txt");
    let lines = &files[0].lines;
    assert_eq!(lines.len(), 4);
    assert_eq!(lines[0].line_type, LineType::Header);
    assert_eq!(lines[0].content, "@@ -1,2 +1,2 @@");
    assert_eq!(lines[0].old_line_num, None);
    assert_eq!(lines[0].new_line_num, None);
    assert_eq!(lines[1].line_type, LineType::Removed);
    assert_eq!(lines[1].content, "old");
    assert_eq!(lines[1].old_line_num, Some(1));
    assert_eq!(lines[1].new_line_num, None);
    assert_eq!(lines[2].line_type, LineType::Added);
    assert_eq!(lines[2].content, "new");
    assert_eq!(lines[2].old_line_num, None);
    assert_eq!(lines[2].new_line_num, Some(1));
    assert_eq!(lines[3].line_type, LineType::Context);
    assert_eq!(lines[3].content, "context");
    assert_eq!(lines[3].old_line_num, Some(2));
    assert_eq!(lines[3].new_line_num, Some(2));
}

fn numbers(text: &str) -> Vec<(LineType, Option<u32>, Option<u32>, String)> {
    let files = parse_diff(text);
    assert_eq!(files.len(), 1);
    files[0]
        .lines
        .iter()
        .map(|l| (l.line_type, l.old_line_num, l.new_line_num, l.content.clone()))
        .collect()
}

#[test]
fn empty_text_has_no_files() {
    assert_eq!(parse_diff("").len(), 0);
    assert_eq!(parse_diff("\n\n").len(), 0);
    assert_eq!(parse_diff("+added\n-removed\n context\n@@ -1 +1 @@\n").len(), 0);
}

#[test]
fn one_file_for_each_header_of_four_tokens() {
    let text = "diff --git a/one b/one\n\
                diff --git short\n\
                diff --git a/two b/two\n\
                diff --git\n\
                diff --git a/three b/three extra\n";
    let files = parse_diff(text);
    assert_eq!(files.len(), 3);
    assert_eq!(files[0].get_name(), "one");
    assert_eq!(files[1].get_name(), "two");
    assert_eq!(files[2].get_name(), "three");
    for file in &files {
        assert_eq!(file.get_status(), 'M');
        assert_eq!(file.line_count(), 0);
    }
}

#[test]
fn lines_after_a_short_header_are_dropped() {
    let text = "diff --git a/one b/one\n\
                @@ -1 +1 @@\n\
                +kept\n\
                diff --git short\n\
                @@ -5 +5 @@\n\
                +dropped\n\
                \x20dropped too\n\
                -and this\n";
    let files = parse_diff(text);
    assert_eq!(files.len(), 1);
    assert_eq!(files[0].lines.len(), 2);
    assert_eq!(files[0].lines[1].content, "kept");
}

#[test]
fn file_name_is_the_fourth_token_without_one_prefix() {
    assert_eq!(parse_diff("diff --git a/x.rs b/x.rs")[0].get_name(), "x.rs");
    assert_eq!(parse_diff("diff --git x.rs x.rs")[0].get_name(), "x.rs");
    assert_eq!(parse_diff("diff --git\t  a/x.rs \u{a0} b/dir/x.rs  ")[0].get_name(), "dir/x.rs");
    assert_eq!(parse_diff("diff --git a/b/x b/b/x")[0].get_name(), "b/x");
    assert_eq!(parse_diff("diff --git a b/")[0].get_name(), "");
    assert_eq!(parse_diff("diff --gitx y b/w z")[0].get_name(), "w");
}

#[test]
fn hunk_header_sets_the_counters() {
    let lines = numbers("diff --git a/f b/f\n@@ -10,3 +20,4 @@ fn main()\n context\n-old\n+new\n+more\n last\n");
    assert_eq!(lines.len(), 6);
    assert_eq!(lines[0], (LineType::Header, None, None, "@@ -10,3 +20,4 @@ fn main()".to_string()));
    assert_eq!(lines[1], (LineType::Context, Some(10), Some(20), "context".to_string()));
    assert_eq!(lines[2], (LineType::Removed, Some(11), None, "old".to_string()));
    assert_eq!(lines[3], (LineType::Added, None, Some(21), "new".to_string()));
    assert_eq!(lines[4], (LineType::Added, None, Some(22), "more".to_string()));
    assert_eq!(lines[5], (LineType::Context, Some(12), Some(23), "last".to_string()));
}

fn first_numbers(header: &str) -> (Option<u32>, Option<u32>) {
    let text = format!("diff --git a/f b/f\n{}\n context\n", header);
    let lines = numbers(&text);
    assert_eq!(lines[0].0, LineType::Header);
    assert_eq!(lines[0].3, header);
    (lines[1].1, lines[1].2)
}

#[test]
fn hunk_header_fields() {
    assert_eq!(first_numbers("@@ -3,4 +5,6 @@"), (Some(3), Some(5)));
    // a field without a comma is a number as a whole
    assert_eq!(first_numbers("@@ -7 +9"), (Some(7), Some(9)));
    // the new field ends at the next space
    assert_eq!(first_numbers("@@ -7 +9 @@"), (Some(7), Some(9)));
    assert_eq!(first_numbers("@@ -7 +9 @@ fn main()"), (Some(7), Some(9)));
    assert_eq!(first_numbers("@@ -7 +9,3 more,4"), (Some(7), Some(9)));
    assert_eq!(first_numbers("@@ -7 +9x @@"), (Some(7), Some(1)));
    // and is empty where two spaces follow each other
    assert_eq!(first_numbers("@@ -7  +9 @@"), (Some(7), Some(1)));
    assert_eq!(first_numbers("@@  -7 +9 @@"), (Some(1), Some(1)));
    // what is no number counts as 1
    assert_eq!(first_numbers("@@ -x,1 +y,2 @@"), (Some(1), Some(1)));
    assert_eq!(first_numbers("@@ -,1 +,2 @@"), (Some(1), Some(1)));
    assert_eq!(first_numbers("@@ - +"), (Some(1), Some(1)));
    // all leading markers go, and one sign may stand before the digits
    assert_eq!(first_numbers("@@ ---12,1 +++34,1 @@"), (Some(12), Some(34)));
    assert_eq!(first_numbers("@@ -+12,1 +-34,1 @@"), (Some(12), Some(1)));
    assert_eq!(first_numbers("@@ 0012,1 0034,1 @@"), (Some(12), Some(34)));
    // the greatest number, and one too great
    assert_eq!(first_numbers("@@ -4294967295 +4294967296,1"), (Some(4294967295), Some(1)));
    assert_eq!(first_numbers("@@ -99999999999999999999999,1 +2,1"), (Some(1), Some(2)));
    // digits of other scripts are no digits
    assert_eq!(first_numbers("@@ -\u{0661},1 +2,1"), (Some(1), Some(2)));
}

#[test]
fn hunk_header_without_two_spaces_keeps_the_counters() {
    let lines = numbers("diff --git a/f b/f\n@@ -5 +8\n context\n@@\n context\n@@ -1,1\n context\n");
    assert_eq!(lines.len(), 6);
    assert_eq!((lines[1].1, lines[1].2), (Some(5), Some(8)));
    assert_eq!(lines[2].0, LineType::Header);
    assert_eq!((lines[3].1, lines[3].2), (Some(6), Some(9)));
    assert_eq!(lines[4].0, LineType::Header);
    assert_eq!((lines[5].1, lines[5].2), (Some(7), Some(10)));
}

#[test]
fn lines_before_the_first_hunk_count_from_zero() {
    let lines = numbers("diff --git a/f b/f\n+a\n-b\n c\n");
    assert_eq!(lines[0], (LineType::Added, None, Some(0), "a".to_string()));
    assert_eq!(lines[1], (LineType::Removed, Some(0), None, "b".to_string()));
    assert_eq!(lines[2], (LineType::Context, Some(1), Some(1), "c".to_string()));
}

#[test]
fn counters_carry_over_to_the_next_file() {
    let files = parse_diff("diff --git a/f b/f\n@@ -5 +8\n context\ndiff --git a/g b/g\n context\n");
    assert_eq!(files.len(), 2);
    assert_eq!(files[1].lines[0].old_line_num, Some(6));
    assert_eq!(files[1].lines[0].new_line_num, Some(9));
}

#[test]
fn counters_wrap_around() {
    let lines = numbers("diff --git a/f b/f\n@@ -4294967295 +4294967294\n a\n b\n c\n");
    assert_eq!((lines[1].1, lines[1].2), (Some(4294967295), Some(4294967294)));
    assert_eq!((lines[2].1, lines[2].2), (Some(0), Some(4294967295)));
    assert_eq!((lines[3].1, lines[3].2), (Some(1), Some(0)));
}

#[test]
fn other_lines_are_ignored() {
    let lines = numbers(
        "diff --git a/f b/f\nindex 1..2 100644\n--- a/f\n+++ b/f\n@@ -1 +1 @@\n\\ No newline\n\n+++\n---\n++x\n--y\n",
    );
    assert_eq!(lines.len(), 3);
    assert_eq!(lines[0].0, LineType::Header);
    assert_eq!(lines[1], (LineType::Added, None, Some(1), "+x".to_string()));
    assert_eq!(lines[2], (LineType::Removed, Some(1), None, "-y".to_string()));
}

#[test]
fn line_endings() {
    let lines = numbers("diff --git a/f b/f\r\n@@ -1 +1\r\n+one\r\n+two\r\r\n+three\n+four\r");
    assert_eq!(lines[0].3, "@@ -1 +1");
    assert_eq!(lines[1].3, "one");
    assert_eq!(lines[2].3, "two\r");
    assert_eq!(lines[3].3, "three");
    assert_eq!(lines[4].3, "four\r");
    assert_eq!(lines[4].2, Some(4));
}

#[test]
fn content_keeps_everything_after_the_marker() {
    let lines = numbers("diff --git a/f b/f\n+\n-\n \n+ é \u{1F600}\n");
    assert_eq!(lines[0].3, "");
    assert_eq!(lines[1].3, "");
    assert_eq!(lines[2].3, "");
    assert_eq!(lines[3].3, " é \u{1F600}");
}

#[test]
fn numbers_go_up_within_a_hunk() {
    let text = "diff --git a/f b/f\n@@ -3,9 +7,9 @@\n a\n-b\n-c\n+d\n e\n+f\n-g\n h\n@@ -1 +1 @@\n i\n";
    let files = parse_diff(text);
    let lines = &files[0].lines;
    let mut last_old: Option<u32> = None;
    let mut last_new: Option<u32> = None;
    let mut old_seen = Vec::new();
    let mut new_seen = Vec::new();
    for line in lines {
        if line.line_type == LineType::Header {
            last_old = None;
            last_new = None;
            continue;
        }
        if let Some(old) = line.old_line_num {
            if let Some(before) = last_old {
                assert_eq!(old, before + 1);
            }
            last_old = Some(old);
            old_seen.push(old);
        }
        if let Some(new) = line.new_line_num {
            if let Some(before) = last_new {
                assert_eq!(new, before + 1);
            }
            last_new = Some(new);
            new_seen.push(new);
        }
    }
    assert_eq!(old_seen, vec![3, 4, 5, 6, 7, 8, 1]);
    assert_eq!(new_seen, vec![7, 8, 9, 10, 11, 1]);
}

#[test]
fn lines_are_well_formed() {
    let text = "diff --git a/f b/f\n@@ -3,9 +7,9 @@\n a\n-b\n+d\n";
    for line in &parse_diff(text)[0].lines {
        let old = matches!(line.line_type, LineType::Context | LineType::Removed);
        let new = matches!(line.line_type, LineType::Context | LineType::Added);
        assert_eq!(line.old_line_num.is_some(), old);
        assert_eq!(line.new_line_num.is_some(), new);
    }
}

fn source_line(line_type: LineType, content: &str) -> String {
    match line_type {
        LineType::Added => format!("+{}", content),
        LineType::Removed => format!("-{}", content),
        LineType::Context => format!(" {}", content),
        LineType::Header => content.to_string(),
    }
}

#[test]
fn hunk_lines_come_back() {
    let text = "noise\ndiff --git a/f b/f\nindex 1..2\n--- a/f\n+++ b/f\n@@ -1,2 +1,2 @@\n-old\n+new\n context\n\
                diff --git a/g b/g\n@@ -4 +4 @@ tail\n+ indented\n--dashes\n";
    let files = parse_diff(text);
    assert_eq!(files.len(), 2);
    let first: Vec<String> =
        files[0].lines.iter().map(|l| source_line(l.line_type, &l.content)).collect();
    let second: Vec<String> =
        files[1].lines.iter().map(|l| source_line(l.line_type, &l.content)).collect();
    assert_eq!(first, vec!["@@ -1,2 +1,2 @@", "-old", "+new", " context"]);
    assert_eq!(second, vec!["@@ -4 +4 @@ tail", "+ indented", "--dashes"]);

    // parsing what came back gives the same files again
    let mut again = String::new();
    for (file, lines) in files.iter().zip([&first, &second]) {
        again.push_str(&format!("diff --git a/{} b/{}\n", file.get_name(), file.get_name()));
        for line in lines {
            again.push_str(line);
            again.push('\n');
        }
    }
    let reparsed = parse_diff(&again);
    assert_eq!(reparsed.len(), files.len());
    for (a, b) in reparsed.iter().zip(files.iter()) {
        assert_eq!(a.get_name(), b.get_name());
        assert_eq!(a.lines.len(), b.lines.len());
        for (x, y) in a.lines.iter().zip(b.lines.iter()) {
            assert_eq!(x.line_type, y.line_type);
            assert_eq!(x.old_line_num, y.old_line_num);
            assert_eq!(x.new_line_num, y.new_line_num);
            assert_eq!(x.content, y.content);
        }
    }
}

fn rendered(files: &[diffview::DiffFile]) -> String {
    let mut text = String::new();
    for file in files {
        text.push_str(&format!("diff --git a/{} b/{}\n", file.get_name(), file.get_name()));
        for line in &file.lines {
            text.push_str(&source_line(line.line_type, &line.content));
            text.push('\n');
        }
    }
    text
}

#[test]
fn parsing_again_gives_the_same_files() {
    let text = [
        "+before any file",
        "diff --git a/b/x b/b/x",
        " numbered from zero",
        "@@ -7,2 +9,2 @@",
        "-seven",
        "diff --git short",
        "@@ -100 +100 @@",
        " dropped",
        "diff --git a b/",
        " goes on after seven",
        "+and nine",
        "diff --git \u{2003}x\t\u{a0}b/é.rs",
        "@@ nonsense",
        "-kept",
    ]
    .join("\n");
    let files = parse_diff(&text);
    assert_eq!(files.len(), 3);
    assert_eq!(files[0].get_name(), "b/x");
    assert_eq!(files[1].get_name(), "");
    assert_eq!(files[2].get_name(), "é.rs");
    assert_eq!(files[0].lines.len(), 3);
    assert_eq!(files[1].lines.len(), 2);
    assert_eq!(files[1].lines[0].old_line_num, Some(8));
    assert_eq!(files[1].lines[0].new_line_num, Some(9));
    assert_eq!(files[1].lines[1].new_line_num, Some(10));
    assert_eq!(files[2].lines[1].old_line_num, Some(9));

    let again = parse_diff(&rendered(&files));
    assert_eq!(again.len(), files.len());
    for (a, b) in again.iter().zip(files.iter()) {
        assert_eq!(a.get_name(), b.get_name());
        assert_eq!(a.get_status(), b.get_status());
        assert_eq!(a.lines.len(), b.lines.len());
        for (x, y) in a.lines.iter().zip(b.lines.iter()) {
            assert_eq!(x.line_type, y.line_type);
            assert_eq!(x.old_line_num, y.old_line_num);
            assert_eq!(x.new_line_num, y.new_line_num);
            assert_eq!(x.content, y.content);
        }
    }
}

#[test]
fn start_without_a_comma_is_taken_whole() {
    let lines = numbers("diff --git a/f b/f\n@@ -5 +7 @@\n-a\n+b\n");
    assert_eq!(lines.len(), 3);
    assert_eq!(lines[0], (LineType::Header, None, None, "@@ -5 +7 @@".to_string()));
    assert_eq!(lines[1], (LineType::Removed, Some(5), None, "a".to_string()));
    assert_eq!(lines[2], (LineType::Added, None, Some(7), "b".to_string()));
}
