use diffview::{DiffFile, DiffLine, LineType};

#[test]
fn new_file_is_modified_and_empty() {
    let file = DiffFile::new("src/main.rs");
    assert_eq!(file.get_name(), "src/main.rs");
    assert_eq!(file.get_status(), 'M');
    assert_eq!(file.line_count(), 0);
    assert!(file.lines.is_empty());
}

#[test]
fn added_lines_keep_their_order() {
    let mut file = DiffFile::new("f");
    file.add_line(DiffLine::new_header("@@ -1 +1 @@"));
    file.add_line(DiffLine::new_removed("-a", 1));
    file.add_line(DiffLine::new_added("+b", 1));
    file.add_line(DiffLine::new_context(" c", 2, 2));
    assert_eq!(file.line_count(), 4);
    let kinds: Vec<LineType> = file.lines.iter().map(|l| l.line_type).collect();
    assert_eq!(
        kinds,
        vec![LineType::Header, LineType::Removed, LineType::Added, LineType::Context]
    );
    assert_eq!(file.get_name(), "f");
    assert_eq!(file.get_status(), 'M');
}

#[test]
fn header_keeps_the_whole_line() {
    let line = DiffLine::new_header("@@ -1,2 +3,4 @@ fn f()");
    assert_eq!(line.line_type, LineType::Header);
    assert_eq!(line.old_line_num, None);
    assert_eq!(line.new_line_num, None);
    assert_eq!(line.content, "@@ -1,2 +3,4 @@ fn f()");
}

#[test]
fn added_line_loses_its_marker() {
    let line = DiffLine::new_added("+let x = 1;", 7);
    assert_eq!(line.line_type, LineType::Added);
    assert_eq!(line.old_line_num, None);
    assert_eq!(line.new_line_num, Some(7));
    assert_eq!(line.content, "let x = 1;");
}

#[test]
fn removed_line_loses_its_marker() {
    let line = DiffLine::new_removed("-let x = 1;", 9);
    assert_eq!(line.line_type, LineType::Removed);
    assert_eq!(line.old_line_num, Some(9));
    assert_eq!(line.new_line_num, None);
    assert_eq!(line.content, "let x = 1;");
}

#[test]
fn context_line_loses_its_marker() {
    let line = DiffLine::new_context("  indented", 3, 4);
    assert_eq!(line.line_type, LineType::Context);
    assert_eq!(line.old_line_num, Some(3));
    assert_eq!(line.new_line_num, Some(4));
    assert_eq!(line.content, " indented");
}

#[test]
fn only_the_first_character_is_the_marker() {
    assert_eq!(DiffLine::new_added("++", 1).content, "+");
    assert_eq!(DiffLine::new_added("+", 1).content, "");
    assert_eq!(DiffLine::new_added("", 1).content, "");
    assert_eq!(DiffLine::new_removed("émile", 1).content, "mile");
}
