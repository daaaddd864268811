use std::path::PathBuf;
use std::time::{Duration, Instant};

use aether_win32::state::{EditorState, Tab, TabContent, Viewport};
use aether_win32::text_buffer::TextBuffer;
use aether_win32::undo_delete::{
    clear_deleted_mark, deleted_file_text, pop_last_delete, pop_last_delete_with_ages,
    DeleteRecord,
};

fn editor_with(path: &str, text: &str) -> EditorState {
    let viewport = Viewport {
        line_height: 20,
        char_width: 8,
        editor_width: 800,
        editor_height: 600,
        content_height: 580,
    };
    EditorState::new(
        TabContent::with_buffer(Some(path.to_string()), TextBuffer::from_str(text)),
        viewport,
    )
}

#[test]
fn pop_returns_full_record_with_snapshot() {
    let mut stack = Vec::new();
    stack.push(DeleteRecord {
        original_path: PathBuf::from("D:/ws/a.rs"),
        timestamp: Instant::now(),
        content: Some("fn main() {}".to_string()),
    });
    let record = pop_last_delete(&mut stack).unwrap();
    assert_eq!(record.original_path, PathBuf::from("D:/ws/a.rs"));
    assert_eq!(record.content.as_deref(), Some("fn main() {}"));
    assert!(stack.is_empty());
}

#[test]
fn pop_empty_stack_returns_none() {
    let mut stack: Vec<DeleteRecord> = Vec::new();
    assert!(pop_last_delete(&mut stack).is_none());
}

#[test]
fn pop_evicts_expired_records() {
    let mut stack = Vec::new();
    stack.push(DeleteRecord {
        original_path: PathBuf::from("D:/ws/old.rs"),
        timestamp: Instant::now().checked_sub(Duration::from_secs(360)).unwrap(),
        content: None,
    });
    assert!(pop_last_delete(&mut stack).is_none(), "过期记录应被淘汰");
    assert!(stack.is_empty());
}

fn record(path: &str) -> DeleteRecord {
    DeleteRecord { original_path: PathBuf::from(path), timestamp: Instant::now(), content: None }
}

#[test]
fn pop_keeps_fresh_records_below_the_top() {
    let mut stack = vec![record("a"), record("b"), record("c")];
    let top = pop_last_delete(&mut stack).unwrap();
    assert_eq!(top.original_path, PathBuf::from("c"));
    assert_eq!(stack.len(), 2);
    assert_eq!(stack[0].original_path, PathBuf::from("a"));
    assert_eq!(stack[1].original_path, PathBuf::from("b"));
}

#[test]
fn ages_at_the_window_are_dropped_and_below_it_kept() {
    let mut stack = vec![record("a"), record("b"), record("c"), record("d")];
    let ages = [299u64, 300, 10, 500];
    let top = pop_last_delete_with_ages(&mut stack, &ages).unwrap();
    assert_eq!(top.original_path, PathBuf::from("c"));
    assert_eq!(stack.len(), 1);
    assert_eq!(stack[0].original_path, PathBuf::from("a"));
}

#[test]
fn all_expired_ages_empty_the_stack() {
    let mut stack = vec![record("a"), record("b")];
    assert!(pop_last_delete_with_ages(&mut stack, &[300, 301]).is_none());
    assert!(stack.is_empty());
}

#[test]
fn the_deleted_tab_text_comes_before_the_snapshot() {
    let path = "D:/w/a.rs".to_string();
    let mut s = editor_with(&path, "edited after delete");
    s.content.deleted_from_disk = true;
    assert_eq!(
        deleted_file_text(&s, &path, Some("snapshot".to_string())),
        Some(b"edited after delete".to_vec())
    );
    // Not marked deleted: the snapshot is used.
    s.content.deleted_from_disk = false;
    assert_eq!(deleted_file_text(&s, &path, Some("snapshot".to_string())), Some(b"snapshot".to_vec()));
    assert_eq!(deleted_file_text(&s, &path, None), None);
}

#[test]
fn a_background_tab_that_holds_the_deleted_file_is_used() {
    let path = "D:/w/b.rs".to_string();
    let mut s = editor_with("D:/w/other.rs", "other");
    let mut kept = TabContent::with_buffer(Some(path.clone()), TextBuffer::from_str("kept text"));
    kept.deleted_from_disk = true;
    s.tab_bar.tabs.push(Tab::File(kept));
    assert_eq!(deleted_file_text(&s, &path, Some("snap".to_string())), Some(b"kept text".to_vec()));
    clear_deleted_mark(&mut s, &path);
    match &s.tab_bar.tabs[1] {
        Tab::File(c) => assert!(!c.deleted_from_disk),
        _ => panic!("file tab expected"),
    }
    assert_eq!(deleted_file_text(&s, &path, Some("snap".to_string())), Some(b"snap".to_vec()));
}
