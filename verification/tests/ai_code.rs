use aether_win32::ai_code::{apply_ai_code, code_block_file_name};
use aether_win32::state::{CursorPosition, EditorState, StatusMessage, TabContent, Viewport};
use aether_win32::text_buffer::TextBuffer;

fn editor(text: &str) -> EditorState {
    let viewport = Viewport {
        line_height: 20,
        char_width: 8,
        editor_width: 800,
        editor_height: 600,
        content_height: 580,
    };
    EditorState::new(TabContent::with_buffer(None, TextBuffer::from_str(text)), viewport)
}

fn text_of(s: &EditorState) -> String {
    String::from_utf8(s.content.buffer.all_bytes()).unwrap()
}

fn undo_last(s: &EditorState) -> Vec<u8> {
    let rec = s.content.history.records.last().unwrap();
    let now = s.content.buffer.all_bytes();
    let mut t = now[..rec.pos].to_vec();
    t.extend_from_slice(&rec.removed);
    t.extend_from_slice(&now[rec.pos + rec.inserted.len()..]);
    t
}

#[test]
fn empty_code_is_not_applied() {
    let mut s = editor("abc");
    assert!(!apply_ai_code(&mut s, ""));
    assert_eq!(text_of(&s), "abc");
    assert!(s.content.history.records.is_empty());
    assert_eq!(s.status, StatusMessage::Empty);
}

#[test]
fn single_line_code_is_inserted_at_cursor() {
    let mut s = editor("fn main() {}");
    s.content.cursor_col = 11;
    assert!(apply_ai_code(&mut s, "x();"));
    assert_eq!(text_of(&s), "fn main() {x();}");
    assert_eq!((s.content.cursor_line, s.content.cursor_col), (0, 15));
    assert_eq!(s.status, StatusMessage::AiCodeInserted);
    assert!(s.content.is_dirty);
    assert_eq!(s.content.buffer_version, 1);
    let rec = s.content.history.records.last().unwrap();
    assert_eq!(rec.pos, 11);
    assert!(rec.removed.is_empty());
    assert_eq!(rec.inserted, b"x();".to_vec());
    assert_eq!(rec.cursor_before, CursorPosition { line: 0, column: 11 });
    assert_eq!(rec.cursor_after, CursorPosition { line: 0, column: 15 });
}

#[test]
fn multi_line_insert_puts_cursor_after_last_line() {
    let mut s = editor("ab");
    s.content.cursor_col = 1;
    assert!(apply_ai_code(&mut s, "x\nyz\nw"));
    assert_eq!(text_of(&s), "ax\nyz\nwb");
    assert_eq!((s.content.cursor_line, s.content.cursor_col), (2, 1));
}

#[test]
fn insert_ending_in_newline_puts_cursor_at_next_line_start() {
    let mut s = editor("b");
    assert!(apply_ai_code(&mut s, "a\n"));
    assert_eq!(text_of(&s), "a\nb");
    assert_eq!((s.content.cursor_line, s.content.cursor_col), (1, 0));
}

#[test]
fn selection_is_replaced_in_order_of_its_ends() {
    let mut s = editor("hello world");
    s.content.selection_start = Some((0, 11));
    s.content.selection_end = Some((0, 6));
    assert!(apply_ai_code(&mut s, "there"));
    assert_eq!(text_of(&s), "hello there");
    assert_eq!((s.content.cursor_line, s.content.cursor_col), (0, 11));
    assert_eq!(s.content.selection_start, None);
    assert_eq!(s.content.selection_end, None);
    assert_eq!(s.status, StatusMessage::AiCodeApplied);
    let rec = s.content.history.records.last().unwrap();
    assert_eq!(rec.pos, 6);
    assert_eq!(rec.removed, b"world".to_vec());
}

#[test]
fn selection_replaced_by_several_lines_counts_lines_like_str_lines() {
    let mut s = editor("a\nbc\nd");
    s.content.selection_start = Some((1, 0));
    s.content.selection_end = Some((1, 2));
    assert!(apply_ai_code(&mut s, "x\r\nyy\r\n"));
    assert_eq!(text_of(&s), "a\nx\r\nyy\r\n\nd");
    // two lines: the cursor goes to the second line, at its length without "\r"
    assert_eq!((s.content.cursor_line, s.content.cursor_col), (2, 2));
}

#[test]
fn selection_replaced_by_one_line_ending_in_newline_keeps_line() {
    let mut s = editor("abc");
    s.content.selection_start = Some((0, 0));
    s.content.selection_end = Some((0, 1));
    assert!(apply_ai_code(&mut s, "z\n"));
    assert_eq!(text_of(&s), "z\nbc");
    assert_eq!((s.content.cursor_line, s.content.cursor_col), (0, 2));
}

#[test]
fn only_one_selection_end_inserts_at_cursor() {
    let mut s = editor("abc");
    s.content.selection_start = Some((0, 0));
    s.content.cursor_col = 3;
    assert!(apply_ai_code(&mut s, "!"));
    assert_eq!(text_of(&s), "abc!");
    assert_eq!(s.status, StatusMessage::AiCodeInserted);
}

#[test]
fn undoing_the_recorded_edit_restores_the_text() {
    let mut s = editor("keep this\nand that");
    s.content.selection_start = Some((0, 5));
    s.content.selection_end = Some((1, 3));
    assert!(apply_ai_code(&mut s, "X\nY"));
    assert_eq!(undo_last(&s), b"keep this\nand that".to_vec());
    let mut s = editor("abc");
    s.content.cursor_col = 2;
    assert!(apply_ai_code(&mut s, "123"));
    assert_eq!(undo_last(&s), b"abc".to_vec());
}

#[test]
fn method_delegates() {
    let mut s = editor("");
    assert!(s.apply_ai_code("x"));
    assert_eq!(text_of(&s), "x");
}

#[test]
fn a_suggested_file_name_is_kept() {
    assert_eq!(code_block_file_name("fn main() {}", Some("src/x.rs")), "src/x.rs");
}

#[test]
fn the_extension_is_guessed_from_the_code() {
    assert_eq!(code_block_file_name("fn main() {}", None), "ai_generated.rs");
    assert_eq!(code_block_file_name("def f():\n  pass", None), "ai_generated.py");
    assert_eq!(code_block_file_name("import java.util.List;", None), "ai_generated.py");
    assert_eq!(code_block_file_name("function f() {}", None), "ai_generated.js");
    assert_eq!(code_block_file_name("package main", None), "ai_generated.java");
    assert_eq!(code_block_file_name("#include <stdio.h>", None), "ai_generated.c");
    assert_eq!(code_block_file_name("<?php echo 1; ?>", None), "ai_generated.php");
    assert_eq!(code_block_file_name("<!DOCTYPE html>", None), "ai_generated.html");
    assert_eq!(code_block_file_name("body { margin: 0 }", None), "ai_generated.css");
    assert_eq!(code_block_file_name("hello", None), "ai_generated.txt");
    assert_eq!(code_block_file_name("", None), "ai_generated.txt");
}
