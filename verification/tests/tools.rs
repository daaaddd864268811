use aether_win32::tools::{tool_report, ToolRequest};

#[test]
fn each_request_gets_a_panel_line_and_feedback() {
    let reqs = vec![
        ToolRequest::Read("src/a.rs".to_string()),
        ToolRequest::List(String::new()),
        ToolRequest::Search("main".to_string()),
    ];
    let outcomes: Vec<Result<String, String>> = vec![
        Ok("fn a() {}\nfn b() {}\n".to_string()),
        Ok("src/\nCargo.toml".to_string()),
        Ok("a.rs:1: fn main".to_string()),
    ];
    let (display, feedback) = tool_report(&reqs, &outcomes);
    assert_eq!(
        display,
        vec![
            "◎ 已读取 `src/a.rs`（2 行）".to_string(),
            "◇ 已列出目录 `.`".to_string(),
            "◈ 已搜索 `main`（1 个结果）".to_string(),
        ]
    );
    assert_eq!(
        feedback,
        "[文件内容] src/a.rs\n```\nfn a() {}\nfn b() {}\n\n```\n\n[目录列表] .\nsrc/\nCargo.toml\n\n[搜索结果] main\na.rs:1: fn main"
    );
}

#[test]
fn failed_requests_report_their_errors() {
    let reqs = vec![
        ToolRequest::Read("x".to_string()),
        ToolRequest::List("d".to_string()),
        ToolRequest::Search("k".to_string()),
    ];
    let outcomes: Vec<Result<String, String>> =
        vec![Err("e1".to_string()), Err("e2".to_string()), Err("e3".to_string())];
    let (display, feedback) = tool_report(&reqs, &outcomes);
    assert_eq!(display[0], "✕ 读取 `x` 失败：e1");
    assert_eq!(display[1], "✕ 列出 `d` 失败：e2");
    assert_eq!(display[2], "✕ 搜索 `k` 失败：e3");
    assert_eq!(feedback, "[文件读取失败] x：e1\n\n[目录列出失败] d：e2\n\n[搜索失败] k：e3");
}

#[test]
fn no_requests_no_report() {
    let (display, feedback) = tool_report(&Vec::new(), &Vec::new());
    assert!(display.is_empty());
    assert_eq!(feedback, "");
}
