use aether_win32::files::{
    can_reuse_current_tab, close_workspace, finish_open_ai_file_link, load_file, load_image_file, open_in_new_tab, reset_editor_state,
    save_as, save_file, show_unsupported_file, swap_tab_content,
};
use aether_win32::state::{EditorState, StatusMessage, Tab, TabContent, Viewport};
use aether_win32::text_buffer::TextBuffer;

fn viewport() -> Viewport {
    Viewport {
        line_height: 20,
        char_width: 8,
        editor_width: 800,
        editor_height: 600,
        content_height: 580,
    }
}

fn editor(text: &str) -> EditorState {
    EditorState::new(TabContent::with_buffer(None, TextBuffer::from_str(text)), viewport())
}

fn text_of(c: &TabContent) -> String {
    String::from_utf8(c.buffer.all_bytes()).unwrap()
}

#[test]
fn empty_unnamed_clean_tab_is_reused() {
    let mut s = editor("");
    assert!(can_reuse_current_tab(&s));
    load_file(&mut s, "D:/a.rs".to_string(), Ok(b"fn a() {}".to_vec()));
    assert_eq!(text_of(&s.content), "fn a() {}");
    assert_eq!(s.content.file_path, Some("D:/a.rs".to_string()));
    assert_eq!(s.tab_bar.tabs.len(), 1);
    assert_eq!(s.content.buffer_version, 1);
    assert_eq!(s.status, StatusMessage::FileOpened);
}

#[test]
fn tab_with_text_is_kept_and_file_opens_in_new_tab() {
    let mut s = editor("draft");
    s.content.cursor_col = 3;
    assert!(!can_reuse_current_tab(&s));
    load_file(&mut s, "b.txt".to_string(), Ok(b"bee".to_vec()));
    assert_eq!(text_of(&s.content), "bee");
    assert_eq!((s.content.cursor_line, s.content.cursor_col), (0, 0));
    assert_eq!(s.tab_bar.tabs.len(), 2);
    assert_eq!(s.tab_bar.active_tab, 1);
    match &s.tab_bar.tabs[0] {
        Tab::File(c) => {
            assert_eq!(text_of(c), "draft");
            assert_eq!(c.cursor_col, 3);
        }
        _ => panic!("the old tab keeps its content"),
    }
}

#[test]
fn switching_back_restores_the_kept_content() {
    let mut s = editor("draft");
    load_file(&mut s, "b.txt".to_string(), Ok(b"bee".to_vec()));
    swap_tab_content(&mut s, 1);
    swap_tab_content(&mut s, 0);
    s.tab_bar.active_tab = 0;
    assert_eq!(text_of(&s.content), "draft");
}

#[test]
fn read_error_only_reports() {
    let mut s = editor("x");
    load_file(&mut s, "nope".to_string(), Err("denied".to_string()));
    assert_eq!(text_of(&s.content), "x");
    assert_eq!(s.tab_bar.tabs.len(), 1);
    assert_eq!(s.status, StatusMessage::OpenFailed);
}

#[test]
fn reset_editor_state_goes_back_to_the_top() {
    let mut s = editor("abc\ndef");
    s.content.cursor_line = 1;
    s.content.cursor_col = 2;
    s.content.scroll_y = 40;
    s.content.is_dirty = true;
    s.content.selection_start = Some((0, 0));
    s.content.selection_end = Some((1, 1));
    s.content.history.record_insert(0, b"x", aether_win32::state::CursorPosition::new(0, 0), aether_win32::state::CursorPosition::new(0, 1));
    reset_editor_state(&mut s);
    assert_eq!((s.content.cursor_line, s.content.cursor_col), (0, 0));
    assert_eq!(s.content.scroll_y, 0);
    assert!(!s.content.is_dirty);
    assert!(s.content.history.records.is_empty());
    assert_eq!(s.content.selection_start, None);
    assert_eq!(s.content.buffer_version, 1);
}

#[test]
fn open_in_new_tab_when_active_tab_is_not_a_file() {
    let mut s = editor("keep");
    s.tab_bar.tabs = vec![Tab::Welcome];
    open_in_new_tab(&mut s, TabContent::with_buffer(None, TextBuffer::from_str("new")));
    assert_eq!(text_of(&s.content), "new");
    assert_eq!(s.tab_bar.tabs.len(), 2);
    assert!(matches!(s.tab_bar.tabs[0], Tab::Welcome));
    match &s.tab_bar.tabs[1] {
        Tab::File(c) => assert_eq!(text_of(c), "keep"),
        _ => panic!("the old content is kept in the new slot"),
    }
}

#[test]
fn save_file_needs_a_path() {
    let mut s = editor("x");
    s.content.is_dirty = true;
    assert!(!save_file(&mut s, Ok(())));
    assert!(s.content.is_dirty);
    assert_eq!(s.status, StatusMessage::NoFilePath);
}

#[test]
fn save_file_outcomes() {
    let mut s = editor("x");
    s.content.file_path = Some("x.txt".to_string());
    s.content.is_dirty = true;
    assert!(!save_file(&mut s, Err("disk full".to_string())));
    assert!(s.content.is_dirty);
    assert_eq!(s.status, StatusMessage::SaveFailed);
    assert!(save_file(&mut s, Ok(())));
    assert!(!s.content.is_dirty);
    assert_eq!(s.status, StatusMessage::Saved);
}

#[test]
fn save_as_sets_the_path_on_success() {
    let mut s = editor("x");
    s.content.is_dirty = true;
    assert!(!save_as(&mut s, "y.txt".to_string(), Err("no".to_string())));
    assert_eq!(s.content.file_path, None);
    assert!(save_as(&mut s, "y.txt".to_string(), Ok(())));
    assert_eq!(s.content.file_path, Some("y.txt".to_string()));
    assert!(!s.content.is_dirty);
}

#[test]
fn unsupported_files_show_a_note() {
    let mut s = editor("");
    show_unsupported_file(&mut s, "D:/x.bin".to_string(), "bin");
    assert_eq!(text_of(&s.content), "不支持的文件格式: .bin\n文件: D:/x.bin");
    assert_eq!(s.content.file_path, Some("D:/x.bin".to_string()));
    assert_eq!(s.status, StatusMessage::UnsupportedFile);
    assert_eq!(s.tab_bar.tabs.len(), 1);
}

#[test]
fn images_open_with_a_preview_note_in_a_new_tab_when_needed() {
    let mut s = editor("draft");
    load_image_file(&mut s, "D:/p.png".to_string());
    assert_eq!(text_of(&s.content), "[图片预览] D:/p.png");
    assert_eq!(s.status, StatusMessage::ImageOpened);
    assert_eq!(s.tab_bar.tabs.len(), 2);
    assert_eq!(s.tab_bar.active_tab, 1);
    assert!(!s.content.is_dirty);
}

#[test]
fn closing_the_workspace_leaves_one_empty_tab() {
    let mut s = editor("");
    load_file(&mut s, "D:/a.rs".to_string(), Ok(b"fn a() {}".to_vec()));
    load_file(&mut s, "D:/b.rs".to_string(), Ok(b"fn b() {}".to_vec()));
    s.content.is_dirty = true;
    s.content.cursor_col = 3;
    s.last_workspace = Some("D:/w".to_string());
    s.explorer.selected = Some(2);
    close_workspace(&mut s);
    assert_eq!(s.last_workspace, None);
    assert_eq!(s.explorer.selected, None);
    assert!(s.explorer.tree.is_none() && s.explorer.input.is_none() && s.explorer.rows_dirty);
    assert_eq!(text_of(&s.content), "");
    assert_eq!(s.content.file_path, None);
    assert!(!s.content.is_dirty);
    assert_eq!((s.content.cursor_line, s.content.cursor_col), (0, 0));
    assert_eq!(s.tab_bar.tabs.len(), 1);
    assert_eq!(s.tab_bar.active_tab, 0);
    assert_eq!(s.status, StatusMessage::WorkspaceClosed);
}

#[test]
fn a_linked_file_opens_once_and_is_switched_to_later() {
    let mut s = editor("draft");
    s.agent_mode = true;
    s.right_panel_visible = false;
    finish_open_ai_file_link(&mut s, "D:/w/a.rs".to_string(), "fn a() {}");
    assert_eq!(text_of(&s.content), "fn a() {}");
    assert_eq!(s.content.file_path, Some("D:/w/a.rs".to_string()));
    assert_eq!(s.tab_bar.tabs.len(), 2);
    assert_eq!(s.tab_bar.active_tab, 1);
    assert!(s.right_panel_visible);
    assert_eq!(s.status, StatusMessage::FileOpened);
    // Already the active file: nothing changes.
    finish_open_ai_file_link(&mut s, "D:/w/a.rs".to_string(), "other");
    assert_eq!(text_of(&s.content), "fn a() {}");
    assert_eq!(s.tab_bar.tabs.len(), 2);
    // Open another one, then come back to the first: its tab is reused.
    finish_open_ai_file_link(&mut s, "D:/w/b.rs".to_string(), "fn b() {}");
    assert_eq!(s.tab_bar.tabs.len(), 3);
    finish_open_ai_file_link(&mut s, "D:/w/a.rs".to_string(), "ignored");
    assert_eq!(s.tab_bar.tabs.len(), 3);
    assert_eq!(s.tab_bar.active_tab, 1);
    assert_eq!(text_of(&s.content), "fn a() {}");
    // An empty path is ignored.
    finish_open_ai_file_link(&mut s, String::new(), "x");
    assert_eq!(s.tab_bar.active_tab, 1);
}

#[test]
fn a_linked_file_is_the_only_tab_when_there_were_none() {
    let mut s = editor("");
    s.tab_bar.tabs.clear();
    finish_open_ai_file_link(&mut s, "D:/w/c.rs".to_string(), "c");
    assert_eq!(s.tab_bar.tabs.len(), 1);
    assert_eq!(s.tab_bar.active_tab, 0);
    assert_eq!(text_of(&s.content), "c");
}
