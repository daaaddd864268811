use aether_win32::context::{gather_context, ContextAttachment, Diagnostic};
use aether_win32::state::{EditorState, Tab, TabContent, Viewport};
use aether_win32::text_buffer::TextBuffer;

fn editor(path: Option<&str>, text: &str) -> EditorState {
    let viewport = Viewport {
        line_height: 20,
        char_width: 8,
        editor_width: 800,
        editor_height: 600,
        content_height: 580,
    };
    EditorState::new(
        TabContent::with_buffer(path.map(|p| p.to_string()), TextBuffer::from_str(text)),
        viewport,
    )
}

fn wrap(path: String, text: Vec<u8>, max: usize) -> String {
    let t = String::from_utf8_lossy(&text).to_string();
    format!("<{}|{}|{}>", path, max, t)
}

fn diag(severity: u32, line: usize, message: &str) -> Diagnostic {
    Diagnostic { severity, line, col: 1, message: message.to_string() }
}

#[test]
fn parts_follow_the_attachments() {
    let s = editor(Some("D:/w/a.rs"), "fn a() {}");
    let r = gather_context(
        &s,
        &vec![
            ContextAttachment::CurrentFile,
            ContextAttachment::Selection,
            ContextAttachment::CustomText("why?".to_string()),
            ContextAttachment::FileTree,
        ],
        None,
        &[],
        None,
        &wrap,
    );
    assert_eq!(r, "<D:/w/a.rs|30000|fn a() {}>\n用户附加文本：\nwhy?\n\n未加载工作区文件树。\n");
}

#[test]
fn the_selection_and_file_tree_are_included_when_there() {
    let s = editor(None, "abc");
    let r = gather_context(
        &s,
        &vec![ContextAttachment::Selection, ContextAttachment::FileTree],
        Some(b"bc".to_vec()),
        &[],
        Some("src/\n  main.rs".to_string()),
        &wrap,
    );
    assert_eq!(r, "<当前文件 (选区)|10000|bc>\n工作区文件树：\nsrc/\n  main.rs\n");
}

#[test]
fn open_files_list_every_file_tab() {
    let mut s = editor(Some("D:/w/a.rs"), "A");
    s.tab_bar.tabs.push(Tab::File(TabContent::with_buffer(None, TextBuffer::from_str("B"))));
    s.tab_bar.tabs.push(Tab::Browser(1));
    let r = gather_context(&s, &vec![ContextAttachment::OpenFiles], None, &[], None, &wrap);
    assert_eq!(r, "打开的文件列表：\n<D:/w/a.rs|5000|A><未命名-2|5000|B>");
}

#[test]
fn diagnostics_are_ordered_by_severity_and_capped() {
    let s = editor(None, "");
    let r = gather_context(&s, &vec![ContextAttachment::Diagnostics], None, &[], None, &wrap);
    assert_eq!(r, "当前文件暂无 LSP 诊断信息。\n");
    let ds = vec![diag(2, 3, "w"), diag(1, 7, "e"), diag(4, 1, "h"), diag(1, 9, "e2"), diag(9, 2, "x")];
    let r = gather_context(&s, &vec![ContextAttachment::Diagnostics], None, &ds, None, &wrap);
    assert_eq!(
        r,
        "当前 LSP 诊断：\n[Error] 7:1 e\n[Error] 9:1 e2\n[Warning] 3:1 w\n[Hint] 1:1 h\n[Diagnostic] 2:1 x\n"
    );
    let many: Vec<Diagnostic> = (0..25).map(|i| diag(3, i, "i")).collect();
    let r = gather_context(&s, &vec![ContextAttachment::Diagnostics], None, &many, None, &wrap);
    assert_eq!(r.lines().count(), 21);
    assert!(r.ends_with("[Information] 19:1 i\n"));
}

#[test]
fn contexts_of_attachments_join_by_line_breaks() {
    let s = editor(Some("D:/w/a.rs"), "fn a() {}");
    let g = |atts: Vec<ContextAttachment>| gather_context(&s, &atts, None, &[], None, &wrap);
    assert_eq!(g(Vec::new()), "");
    let a = ContextAttachment::CurrentFile;
    let b = ContextAttachment::CustomText("note".to_string());
    assert_eq!(
        g(vec![a.clone(), b.clone()]),
        format!("{}\n{}", g(vec![a]), g(vec![b]))
    );
    assert_eq!(
        g(vec![ContextAttachment::CustomText("t".to_string())]),
        "用户附加文本：\nt\n"
    );
}
