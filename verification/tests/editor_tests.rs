use toolshed::wordie::{CursorPos, Editor, GapBuffer};

#[test]
fn demo_two_lefts_then_insert() {
    let mut ed = Editor::from_str("Hello World");
    ed.move_left();
    ed.move_left();
    ed.insert_str("! ");
    // Two steps left from the end put the cursor before "ld".
    assert_eq!(ed.text(), "Hello Wor! ld");
}

#[test]
fn readme_library_example() {
    let mut ed = Editor::from_str("Hello\nWorld");
    ed.move_down();
    ed.move_right();
    ed.insert_char('!');
    assert_eq!(ed.text(), "Hello\nWorld!");
}

#[test]
fn gap_grows_past_initial_capacity() {
    let mut gb = GapBuffer::with_capacity(2);
    for _ in 0..100 {
        gb.insert_char('x');
    }
    assert_eq!(gb.len(), 100);
    assert_eq!(gb.cursor_offset(), 100);
    assert_eq!(gb.text(), "x".repeat(100));
}

#[test]
fn len_and_is_empty() {
    let mut gb = GapBuffer::with_capacity(0);
    assert!(gb.is_empty());
    assert_eq!(gb.len(), 0);
    gb.insert_str("héllo");
    assert_eq!(gb.len(), 5);
    assert!(!gb.is_empty());
}

#[test]
fn moves_at_the_ends_report_false() {
    let mut gb = GapBuffer::from_str("ab");
    assert!(!gb.move_right());
    assert!(!gb.delete());
    assert!(gb.move_left());
    assert!(gb.move_left());
    assert!(!gb.move_left());
    assert!(!gb.backspace());
    assert_eq!(gb.cursor_offset(), 0);
    assert_eq!(gb.text(), "ab");
}

#[test]
fn backspace_undoes_insert_char() {
    let mut gb = GapBuffer::from_str("abc");
    gb.move_left();
    gb.insert_char('Z');
    assert_eq!(gb.text(), "abZc");
    assert!(gb.backspace());
    assert_eq!(gb.text(), "abc");
    assert_eq!(gb.cursor_offset(), 2);
}

#[test]
fn right_undoes_left() {
    let mut gb = GapBuffer::from_str("xyz");
    gb.move_left();
    gb.move_right();
    assert_eq!(gb.cursor_offset(), 3);
    assert_eq!(gb.text(), "xyz");
}

#[test]
fn text_keeps_every_character_outside_the_gap() {
    let mut gb = GapBuffer::with_capacity(8);
    gb.insert_char('\0');
    gb.insert_str("ab");
    assert_eq!(gb.text(), "\0ab");
    assert_eq!(gb.text().chars().count(), gb.len());
    gb.move_left();
    gb.move_left();
    assert!(gb.backspace());
    assert_eq!(gb.text(), "ab");
    gb.move_left();
    gb.insert_char('\0');
    assert!(gb.delete());
    assert_eq!(gb.text(), "\0b");
}

#[test]
fn line_follows_str_lines() {
    let ed = Editor::from_str("one\r\ntwo\n\nfour\n");
    assert_eq!(ed.line(0).as_deref(), Some("one"));
    assert_eq!(ed.line(1).as_deref(), Some("two"));
    assert_eq!(ed.line(2).as_deref(), Some(""));
    assert_eq!(ed.line(3).as_deref(), Some("four"));
    assert_eq!(ed.line(4), None);
    let empty = Editor::new();
    assert_eq!(empty.line(0), None);
    let cr_at_end = Editor::from_str("a\r");
    assert_eq!(cr_at_end.line(0).as_deref(), Some("a\r"));
}

#[test]
fn cursor_pos_counts_lines_and_columns() {
    let mut ed = Editor::from_str("ab\ncde\nf");
    assert_eq!(ed.cursor_pos(), CursorPos { line: 2, col: 1 });
    ed.move_to(1, 2);
    assert_eq!(ed.cursor_pos(), CursorPos { line: 1, col: 2 });
    ed.move_to(0, 0);
    assert_eq!(ed.cursor_pos(), CursorPos { line: 0, col: 0 });
}

#[test]
fn move_to_clamps_line_and_column() {
    let mut ed = Editor::from_str("ab\ncde\nf");
    ed.move_to(0, 10);
    assert_eq!(ed.cursor_pos(), CursorPos { line: 0, col: 2 });
    ed.move_to(10, 10);
    assert_eq!(ed.cursor_pos(), CursorPos { line: 2, col: 1 });
    assert_eq!(ed.text(), "ab\ncde\nf");
}

#[test]
fn move_up_and_down_keep_column() {
    let mut ed = Editor::from_str("abcd\nxy\nlmnop");
    ed.move_to(0, 3);
    ed.move_down();
    assert_eq!(ed.cursor_pos(), CursorPos { line: 1, col: 2 });
    ed.move_down();
    assert_eq!(ed.cursor_pos(), CursorPos { line: 2, col: 2 });
    ed.move_up();
    ed.move_up();
    assert_eq!(ed.cursor_pos(), CursorPos { line: 0, col: 2 });
    ed.move_up();
    assert_eq!(ed.cursor_pos(), CursorPos { line: 0, col: 2 });
}

#[test]
fn editor_delete_and_backspace() {
    let mut ed = Editor::new();
    ed.insert_str("hello");
    ed.move_left();
    assert!(ed.delete());
    assert!(ed.backspace());
    assert_eq!(ed.text(), "hel");
}
