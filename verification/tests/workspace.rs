use aether_win32::state::{EditorState, StatusMessage, TabContent, Viewport};
use aether_win32::workspace::{
    fnv1a_hash, on_folder_scan_batch, open_folder, workspace_path_hash, ScanStep,
};

fn editor() -> EditorState {
    let viewport = Viewport {
        line_height: 20,
        char_width: 8,
        editor_width: 800,
        editor_height: 600,
        content_height: 580,
    };
    EditorState::new(TabContent::new(), viewport)
}

#[test]
fn fnv1a_known_values() {
    assert_eq!(fnv1a_hash(b""), 0xcbf29ce484222325);
    assert_eq!(fnv1a_hash(b"a"), 0xaf63dc4c8601ec8c);
    assert_eq!(fnv1a_hash(b"foobar"), 0x85944171f73967e8);
}

#[test]
fn workspace_hash_is_sixteen_lower_hex_digits() {
    assert_eq!(workspace_path_hash(""), "cbf29ce484222325");
    assert_eq!(workspace_path_hash("a"), "af63dc4c8601ec8c");
    let h = workspace_path_hash("D:\\projects\\aether");
    assert_eq!(h.len(), 16);
    assert!(h.chars().all(|c| c.is_ascii_hexdigit() && !c.is_ascii_uppercase()));
    assert_eq!(h, format!("{:016x}", fnv1a_hash("D:\\projects\\aether".as_bytes())));
}

#[test]
fn workspace_hash_keeps_leading_zeros() {
    let h = workspace_path_hash("x");
    assert_eq!(h, format!("{:016x}", fnv1a_hash(b"x")));
}

#[test]
fn opening_a_folder_starts_a_new_scan() {
    let mut s = editor();
    assert_eq!(open_folder(&mut s, "D:/w".to_string(), Ok(())), Some(1));
    assert_eq!(s.workspace.current_folder, Some("D:/w".to_string()));
    assert_eq!(s.last_workspace, Some("D:/w".to_string()));
    assert!(s.workspace.is_loading);
    assert_eq!(s.status, StatusMessage::ScanningFolder);
    assert_eq!(on_folder_scan_batch(&mut s, 1, false), ScanStep::AddEntries);
    assert!(s.workspace.is_loading);
    assert_eq!(on_folder_scan_batch(&mut s, 1, true), ScanStep::Finished);
    assert!(!s.workspace.is_loading);
    assert_eq!(s.status, StatusMessage::FolderOpened);
}

#[test]
fn an_earlier_scan_is_dropped() {
    let mut s = editor();
    open_folder(&mut s, "D:/a".to_string(), Ok(()));
    assert_eq!(open_folder(&mut s, "D:/b".to_string(), Ok(())), Some(2));
    assert_eq!(on_folder_scan_batch(&mut s, 1, true), ScanStep::Stale);
    assert!(s.workspace.is_loading);
    assert_eq!(s.status, StatusMessage::ScanningFolder);
    assert_eq!(s.workspace.current_folder, Some("D:/b".to_string()));
}

#[test]
fn an_unreadable_folder_is_not_opened() {
    let mut s = editor();
    assert_eq!(open_folder(&mut s, "D:/x".to_string(), Err("denied".to_string())), None);
    assert_eq!(s.workspace.current_folder, None);
    assert_eq!(s.workspace.generation, 0);
    assert_eq!(s.status, StatusMessage::OpenFolderFailed);
}

#[test]
fn generations_wrap_around() {
    let mut s = editor();
    s.workspace.generation = u64::MAX;
    assert_eq!(open_folder(&mut s, "D:/w".to_string(), Ok(())), Some(0));
}

#[test]
fn workspace_methods_delegate() {
    let mut s = editor();
    assert_eq!(s.open_folder("D:/m".to_string(), Ok(())), Some(1));
    assert_eq!(s.on_folder_scan_batch(1, true), ScanStep::Finished);
    s.close_workspace();
    assert_eq!(s.workspace.current_folder, None);
    assert_eq!(s.status, StatusMessage::WorkspaceClosed);
}
