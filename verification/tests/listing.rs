use aether_win32::listing::{
    check_readable, file_text_for_agent, format_dir_listing, format_search_results,
};

fn entry(is_dir: bool, name: &str) -> (bool, String) {
    (is_dir, name.to_string())
}

#[test]
fn directories_come_first_then_names() {
    let r = format_dir_listing(vec![
        entry(false, "b.rs"),
        entry(true, "src"),
        entry(false, "A.md"),
        entry(true, "docs"),
    ]);
    assert_eq!(r, "docs/\nsrc/\nA.md\nb.rs");
}

#[test]
fn an_empty_directory_says_so() {
    assert_eq!(format_dir_listing(Vec::new()), "（空目录）");
}

#[test]
fn names_are_compared_byte_wise() {
    let r = format_dir_listing(vec![
        entry(false, "é"),
        entry(false, "z"),
        entry(false, "Z"),
        entry(false, "ab"),
        entry(false, "a"),
    ]);
    assert_eq!(r, "Z\na\nab\nz\né");
}

#[test]
fn long_listings_are_capped_with_the_total() {
    let entries: Vec<(bool, String)> = (0..301).rev().map(|i| entry(false, &format!("f{:03}", i))).collect();
    let r = format_dir_listing(entries);
    let lines: Vec<&str> = r.split('\n').collect();
    assert_eq!(lines.len(), 301);
    assert_eq!(lines[0], "f000");
    assert_eq!(lines[299], "f299");
    assert_eq!(lines[300], "…（共 301 项，已省略其余）");
}

#[test]
fn exactly_the_cap_is_not_capped() {
    let entries: Vec<(bool, String)> = (0..300).map(|i| entry(true, &format!("d{:03}", i))).collect();
    let r = format_dir_listing(entries);
    let lines: Vec<&str> = r.split('\n').collect();
    assert_eq!(lines.len(), 300);
    assert_eq!(lines[299], "d299/");
}

fn hit(path: &str, line: usize, text: &str) -> (String, usize, String) {
    (path.to_string(), line, text.to_string())
}

#[test]
fn search_results_are_file_line_and_trimmed_text() {
    let r = format_search_results(
        "main",
        &vec![hit("src/main.rs", 3, "    fn main() {"), hit("README.md", 120, "run main\t ")],
    );
    assert_eq!(r, "src/main.rs:3: fn main() {\nREADME.md:120: run main");
}

#[test]
fn no_search_result_names_the_keyword() {
    assert_eq!(format_search_results("xyz", &Vec::new()), "未找到包含 \"xyz\" 的代码");
}

#[test]
fn search_results_are_capped_with_the_total() {
    let results: Vec<(String, usize, String)> = (0..57).map(|i| hit("a.rs", i, "x")).collect();
    let r = format_search_results("x", &results);
    let lines: Vec<&str> = r.split('\n').collect();
    assert_eq!(lines.len(), 51);
    assert_eq!(lines[0], "a.rs:0: x");
    assert_eq!(lines[49], "a.rs:49: x");
    assert_eq!(lines[50], "…（共 57 个结果，已省略其余）");
}

#[test]
fn directories_and_big_files_are_not_read() {
    assert_eq!(check_readable(true, 10), Err("这是一个目录，请改用列目录工具".to_string()));
    assert_eq!(
        check_readable(false, 1048577),
        Err("文件过大（1048577 字节，上限 1MB），请分段查看或改用命令".to_string())
    );
    assert_eq!(check_readable(false, 1048576), Ok(()));
    assert_eq!(check_readable(false, 0), Ok(()));
}

#[test]
fn file_text_replaces_invalid_bytes_and_is_cut() {
    assert_eq!(file_text_for_agent(b"ok \xff!"), "ok \u{FFFD}!");
    assert_eq!(file_text_for_agent("中文".as_bytes()), "中文");
    let long = "a".repeat(8001);
    let shown = file_text_for_agent(long.as_bytes());
    assert_eq!(shown, format!("{}\n…（输出过长已截断）", "a".repeat(8000)));
    let exact = "b".repeat(8000);
    assert_eq!(file_text_for_agent(exact.as_bytes()), exact);
}
