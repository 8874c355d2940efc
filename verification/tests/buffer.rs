use medit::buffer::Buffer;

#[test]
fn edits_and_undo() {
    let mut b = Buffer::empty(None);
    b.insert_str("hello\nworld");
    assert_eq!(b.line_count(), 2);
    b.set_cursor(5, false);
    b.insert_str(", there");
    assert_eq!(b.text(), "hello, there\nworld");
    assert!(b.undo());
    assert_eq!(b.text(), "hello\nworld");
    assert!(b.redo());
    assert_eq!(b.text(), "hello, there\nworld");
}

#[test]
fn line_index_and_columns() {
    let mut b = Buffer::empty(None);
    b.insert_str("ab\ncd\n\nxyz");
    assert_eq!(b.len(), 10);
    assert_eq!(b.line_count(), 4);
    assert_eq!(b.line_start(1), 3);
    assert_eq!(b.line_end(1), 5);
    assert_eq!(b.line_start(9), 10);
    assert_eq!(b.line_text(3), "xyz");
    assert_eq!(b.line_text(2), "");
    assert_eq!(b.line_col(), (3, 3));
    assert_eq!(b.line_col_for_offset(4), (1, 1));
    assert_eq!(b.line_col_for_offset(99), (3, 3));
    assert_eq!(b.offset_for_line_col(1, 10), 5);
    assert_eq!(b.offset_for_line_col(9, 1), 8);
}

#[test]
fn line_col_round_trips_through_offsets() {
    let mut b = Buffer::empty(None);
    b.insert_str("one\ntwo\nthree");
    for offset in 0..=b.len() {
        let (line, col) = b.line_col_for_offset(offset);
        assert_eq!(b.offset_for_line_col(line, col), offset);
    }
}

#[test]
fn undo_and_redo_report_when_there_is_nothing() {
    let mut b = Buffer::empty(None);
    assert!(!b.undo());
    assert!(!b.redo());
    b.insert_str("x");
    assert!(b.is_modified());
    assert_eq!(b.version(), 1);
    assert!(b.undo());
    assert_eq!(b.text(), "");
    assert_eq!(b.version(), 2);
    assert!(!b.undo());
    assert!(b.redo());
    assert_eq!(b.text(), "x");
}

#[test]
fn a_new_edit_clears_redo() {
    let mut b = Buffer::empty(None);
    b.insert_str("a");
    assert!(b.undo());
    b.insert_str("b");
    assert!(!b.redo());
    assert_eq!(b.text(), "b");
}

#[test]
fn replace_then_undo_restores_the_text() {
    let mut b = Buffer::empty(None);
    b.insert_str("let x = 1;");
    b.replace_range(4..5, "value");
    assert_eq!(b.text(), "let value = 1;");
    assert_eq!(b.cursor(), 9);
    assert!(b.undo());
    assert_eq!(b.text(), "let x = 1;");
    assert!(b.redo());
    assert_eq!(b.text(), "let value = 1;");
}

#[test]
fn selection_cut_and_replace() {
    let mut b = Buffer::empty(None);
    b.insert_str("hello world");
    b.set_cursor(0, false);
    b.set_cursor(5, true);
    assert_eq!(b.selected_range(), Some(0..5));
    assert_eq!(b.selected_text(), Some("hello".to_string()));
    assert_eq!(b.cut_selection(), Some("hello".to_string()));
    assert_eq!(b.text(), " world");
    assert_eq!(b.cursor(), 0);
    assert_eq!(b.cut_selection(), None);
    b.select_all();
    assert_eq!(b.selected_range(), Some(0..6));
    b.insert_str("bye");
    assert_eq!(b.text(), "bye");
    assert_eq!(b.selected_range(), None);
}

#[test]
fn word_and_char_boundaries() {
    let mut b = Buffer::empty(None);
    b.insert_str("foo_bar  baz.qux é");
    assert_eq!(b.len(), 19);
    assert_eq!(b.next_word_boundary(0), 7);
    assert_eq!(b.next_word_boundary(7), 12);
    assert_eq!(b.next_word_boundary(12), 13);
    assert_eq!(b.next_word_boundary(19), 19);
    assert_eq!(b.prev_word_boundary(12), 9);
    assert_eq!(b.prev_word_boundary(9), 0);
    assert_eq!(b.prev_word_boundary(0), 0);
    assert_eq!(b.prev_char_boundary(19), 17);
    assert_eq!(b.next_char_boundary(17), 19);
    assert_eq!(b.next_char_boundary(0), 1);
}

#[test]
fn deleting_characters() {
    let mut b = Buffer::empty(None);
    b.insert_str("aé");
    b.delete_backward();
    assert_eq!(b.text(), "a");
    b.set_cursor(0, false);
    b.delete_forward();
    assert_eq!(b.text(), "");
    assert!(b.try_delete_backward());
    assert_eq!(b.text(), "");
}

#[test]
fn open_reads_text_and_names_language() {
    let b = Buffer::open("src/main.rs".to_string(), "fn main() {}\n");
    assert_eq!(b.cursor(), 0);
    assert_eq!(b.line_count(), 2);
    assert!(!b.is_modified());
    assert_eq!(b.version(), 0);
    assert_eq!(b.file_name(), "src/main.rs");
    assert_eq!(b.path(), Some("src/main.rs"));
    assert_eq!(b.language_name(), "Rust");
    assert_eq!(b.text(), "fn main() {}\n");
    assert_eq!(Buffer::empty(None).file_name(), "[No Name]");
    assert_eq!(Buffer::empty(Some("notes.txt".into())).language_name(), "Plain Text");
    assert_eq!(Buffer::open("a.yml".into(), "").language_name(), "YAML");
    assert_eq!(Buffer::open("b.tsx".into(), "").language_name(), "TypeScript");
}

#[test]
fn saving_marks_the_buffer_unmodified() {
    let mut b = Buffer::empty(Some("x.txt".into()));
    b.insert_str("data");
    assert!(b.is_modified());
    b.mark_saved();
    assert!(!b.is_modified());
    assert_eq!(b.text(), "data");
}

#[test]
fn replacing_between_characters_keeps_the_text_whole() {
    let mut b = Buffer::open("/t.txt".to_string(), "héllo");
    assert_eq!(b.len(), 6);
    b.replace_range(1..3, "e");
    assert_eq!(b.text(), "hello");
    assert_eq!(b.len(), b.text().len());
    assert_eq!(b.cursor(), 2);
    assert_eq!(b.version(), 1);
    assert!(b.undo());
    assert_eq!(b.text(), "héllo");
    assert_eq!(b.len(), 6);
    assert_eq!(b.cursor(), 3);
    assert_eq!(b.version(), 2);
    assert!(b.is_modified());
    assert_eq!(b.selected_range(), None);
    assert!(b.redo());
    assert_eq!(b.text(), "hello");
    assert_eq!(b.cursor(), 2);
    assert_eq!(b.version(), 3);
}
