use aether_win32::ai_edits::{
    apply_edit_operation, extract_file_content_from_output, line_matches_keyword, locate_by_code_snippet, locate_by_keyword,
    locate_by_line_range, split_lines, truncate_chars, EditError, EditOperation,
    InsertPosition, LocateError,
};

#[test]
fn split_lines_like_str_lines() {
    assert_eq!(split_lines(b"ab\r\ncd\n\nx"), vec![(0, 2), (4, 2), (7, 0), (8, 1)]);
    assert_eq!(split_lines(b"ab\n"), vec![(0, 2)]);
    assert_eq!(split_lines(b""), vec![]);
    assert_eq!(split_lines(b"a\r"), vec![(0, 2)]);
}

#[test]
fn line_range_offsets_count_each_line_plus_one() {
    let text = "one\ntwo\nthree\n";
    assert_eq!(locate_by_line_range(text, 2, 3), Ok((4, 14)));
    assert_eq!(locate_by_line_range(text, 1, 1), Ok((0, 4)));
}

#[test]
fn line_range_out_of_text_is_an_error() {
    let text = "one\ntwo";
    assert_eq!(locate_by_line_range(text, 0, 1), Err(LocateError::InvalidLineRange(0, 1)));
    assert_eq!(locate_by_line_range(text, 1, 3), Err(LocateError::InvalidLineRange(1, 3)));
    assert_eq!(locate_by_line_range(text, 3, 3), Err(LocateError::InvalidLineRange(3, 3)));
}

#[test]
fn line_range_with_crlf_counts_lines_without_cr() {
    assert_eq!(locate_by_line_range("ab\r\ncd", 2, 2), Ok((3, 6)));
}

#[test]
fn snippet_is_found_by_first_occurrence() {
    assert_eq!(locate_by_code_snippet("let x = 1; let x = 2;", "let x"), Ok((0, 5)));
    assert_eq!(locate_by_code_snippet("abcabc", "ca"), Ok((2, 4)));
    assert_eq!(locate_by_code_snippet("abc", "zz"), Err(LocateError::SnippetNotFound));
}

#[test]
fn keyword_matching_plain_and_case_insensitive() {
    assert!(line_matches_keyword("let Value = 1;", "Value", false, false));
    assert!(!line_matches_keyword("let Value = 1;", "value", false, false));
    assert!(line_matches_keyword("let Value = 1;", "value", true, false));
    assert!(!line_matches_keyword("anything", "", false, false));
}

#[test]
fn keyword_matching_whole_word() {
    assert!(!line_matches_keyword("foobar", "foo", false, true));
    assert!(line_matches_keyword("foobar foo", "foo", false, true));
    assert!(line_matches_keyword("(foo)", "foo", false, true));
    assert!(!line_matches_keyword("foo_1", "foo", false, true));
    assert!(!line_matches_keyword("éfoo", "foo", false, true));
    assert!(line_matches_keyword("Foo.bar", "foo", true, true));
}

#[test]
fn keyword_location_with_context_lines() {
    let text = "a\nb\nfn target()\nc\nd\n";
    assert_eq!(locate_by_keyword(text, "target", 1, false, false), Ok((2, 18)));
    assert_eq!(locate_by_keyword(text, "target", 0, false, false), Ok((4, 16)));
    assert_eq!(locate_by_keyword(text, "target", 10, false, false), Ok((0, 20)));
    assert_eq!(locate_by_keyword(text, "missing", 1, false, false), Err(LocateError::KeywordNotFound));
}

#[test]
fn keyword_location_takes_the_first_matching_line() {
    let text = "xfoo\nfoo\nfoo";
    assert_eq!(locate_by_keyword(text, "foo", 0, false, true), Ok((5, 9)));
    assert_eq!(locate_by_keyword(text, "FOO", 0, true, false), Ok((0, 5)));
}

#[test]
fn edit_operations_on_a_range() {
    let text = "let a = 1;";
    let replace = EditOperation::Replace { new_content: "b".to_string() };
    assert_eq!(apply_edit_operation(text, 4, 5, &replace), Ok("let b = 1;".to_string()));
    let before = EditOperation::Insert { content: "mut ".to_string(), position: InsertPosition::Before };
    assert_eq!(apply_edit_operation(text, 4, 5, &before), Ok("let mut a = 1;".to_string()));
    let after = EditOperation::Insert { content: "_x".to_string(), position: InsertPosition::After };
    assert_eq!(apply_edit_operation(text, 4, 5, &after), Ok("let a_x = 1;".to_string()));
    assert_eq!(apply_edit_operation(text, 3, 5, &EditOperation::Delete), Ok("let = 1;".to_string()));
    let rename = EditOperation::Rename { from: "a".to_string(), to: "b".to_string() };
    assert_eq!(apply_edit_operation(text, 4, 5, &rename), Err(EditError::RenameNotRangeEdit));
}

#[test]
fn edit_operation_on_multibyte_text() {
    let text = "é中x";
    let replace = EditOperation::Replace { new_content: "ß".to_string() };
    assert_eq!(apply_edit_operation(text, 2, 5, &replace), Ok("éßx".to_string()));
}

#[test]
fn truncate_keeps_short_text() {
    assert_eq!(truncate_chars("héllo", 5), "héllo");
    assert_eq!(truncate_chars("", 0), "");
}

#[test]
fn truncate_cuts_by_chars_and_adds_notice() {
    assert_eq!(truncate_chars("中文字符串", 2), "中文\n…（输出过长已截断）");
    assert_eq!(truncate_chars("abc", 0), "\n…（输出过长已截断）");
}

const HEADER: &str = "=== FILE: ";
const SEP: &str = "---";
const FOOTER: &str = "=== END";

fn extract(text: &str, target: &str) -> Option<String> {
    extract_file_content_from_output(text, target, HEADER, SEP, FOOTER)
}

#[test]
fn file_block_content_is_extracted() {
    let text = "intro\n=== FILE: src/a.rs \n---\nfn a() {}\n\nlet x;\n=== END\n=== FILE: b.rs\n---\nb\n";
    assert_eq!(extract(text, "src/a.rs"), Some("fn a() {}\n\nlet x;".to_string()));
    assert_eq!(extract(text, "b.rs"), Some("b".to_string()));
    assert_eq!(extract(text, "c.rs"), None);
}

#[test]
fn file_block_without_separator_gives_nothing() {
    assert_eq!(extract("=== FILE: x\nno separator", "x"), None);
}

#[test]
fn file_block_markers_ignore_trailing_white_space_and_crlf() {
    let text = "=== FILE:   spaced  \r\n---  \r\nbody\r\n=== END\r\n";
    assert_eq!(
        extract_file_content_from_output(text, "spaced", "=== FILE:", SEP, FOOTER),
        Some("body".to_string())
    );
}

#[test]
fn empty_file_block() {
    assert_eq!(extract("=== FILE: e\n---\n=== END", "e"), Some(String::new()));
}
