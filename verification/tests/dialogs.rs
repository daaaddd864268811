use aether_win32::dialogs::{
    close_new_project_dialog, confirm_new_project, new_project, paste_into_new_project_dialog,
};
use aether_win32::state::{EditorState, StatusMessage, TabContent, Viewport};

fn editor() -> EditorState {
    let viewport = Viewport {
        line_height: 20,
        char_width: 8,
        editor_width: 800,
        editor_height: 600,
        content_height: 580,
    };
    EditorState::new(TabContent::new(), viewport)
}

#[test]
fn closing_hides_dialog_and_stops_caret() {
    let mut s = editor();
    s.new_project_dialog.visible = true;
    s.new_project_dialog.caret_timer = true;
    s.new_project_dialog.project_name = vec!['a'];
    close_new_project_dialog(&mut s);
    assert!(!s.new_project_dialog.visible);
    assert!(!s.new_project_dialog.caret_timer);
    assert_eq!(s.new_project_dialog.project_name, vec!['a']);
}

#[test]
fn paste_drops_separators_and_forbidden_chars() {
    let mut s = editor();
    s.new_project_dialog.project_name = "my".chars().collect();
    s.new_project_dialog.error_message = Some("name taken".to_string());
    paste_into_new_project_dialog(&mut s, Some("_app/v2:\"x\"|<>*?\\\r\n中".to_string()));
    let name: String = s.new_project_dialog.project_name.iter().collect();
    assert_eq!(name, "my_appv2x中");
    assert_eq!(s.new_project_dialog.error_message, None);
}

#[test]
fn paste_without_text_changes_nothing() {
    let mut s = editor();
    s.new_project_dialog.error_message = Some("e".to_string());
    paste_into_new_project_dialog(&mut s, None);
    assert!(s.new_project_dialog.project_name.is_empty());
    assert_eq!(s.new_project_dialog.error_message, Some("e".to_string()));
}

#[test]
fn methods_delegate() {
    let mut s = editor();
    s.new_project_dialog.visible = true;
    s.paste_into_new_project_dialog(Some("ok".to_string()));
    s.close_new_project_dialog();
    assert!(!s.new_project_dialog.visible);
    assert_eq!(s.new_project_dialog.project_name, vec!['o', 'k']);
}

#[test]
fn new_project_opens_a_fresh_dialog() {
    let mut s = editor();
    s.new_project_dialog.project_name = vec!['o', 'l', 'd'];
    s.new_project_dialog.error_message = Some("bad".to_string());
    new_project(&mut s);
    assert!(s.new_project_dialog.visible && s.new_project_dialog.caret_timer);
    assert!(s.new_project_dialog.project_name.is_empty());
    assert_eq!(s.new_project_dialog.error_message, None);
    assert_eq!(s.status, StatusMessage::NewProject);
    s.close_new_project_dialog();
    s.new_project();
    assert!(s.new_project_dialog.visible);
}

#[test]
fn a_refused_name_keeps_the_dialog_open() {
    let mut s = editor();
    new_project(&mut s);
    assert!(!confirm_new_project(&mut s, Err("项目名称不能为空".to_string())));
    assert!(s.new_project_dialog.visible);
    assert!(s.new_project_dialog.caret_timer);
    assert_eq!(s.new_project_dialog.error_message, Some("项目名称不能为空".to_string()));
    assert!(confirm_new_project(&mut s, Ok(())));
    assert!(!s.new_project_dialog.visible);
    assert!(!s.new_project_dialog.caret_timer);
}
