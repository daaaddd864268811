use aether_win32::find::{
    close_find_replace, find_all, find_next, find_prev, replace_all, replace_current,
    toggle_find, toggle_replace, FindReplaceFocus, FindState,
};
use aether_win32::state::{EditorState, StatusMessage, Tab, TabContent, Viewport};
use aether_win32::text_buffer::TextBuffer;

fn content(text: &str) -> TabContent {
    TabContent::with_buffer(None, TextBuffer::from_str(text))
}

fn find_state(query: &str, replace: &str) -> FindState {
    let mut f = FindState::new();
    f.query = query.to_string();
    f.replace_text = replace.to_string();
    f
}

fn text_of(c: &TabContent) -> String {
    String::from_utf8(c.buffer.all_bytes()).unwrap()
}

fn editor(text: &str, query: &str, replace: &str) -> EditorState {
    let viewport = Viewport {
        line_height: 20,
        char_width: 8,
        editor_width: 800,
        editor_height: 600,
        content_height: 580,
    };
    let mut s = EditorState::new(content(text), viewport);
    s.find = find_state(query, replace);
    s
}

#[test]
fn find_all_lists_matches_in_text_order() {
    let c = content("ab ab\nxab");
    let mut f = find_state("ab", "");
    find_all(&mut f, &c);
    assert_eq!(f.results, vec![(0, 0), (0, 3), (1, 1)]);
    assert_eq!(f.active_index, 0);
    assert_eq!(f.last_query, "ab");
}

#[test]
fn find_all_matches_do_not_overlap() {
    let c = content("aaaa");
    let mut f = find_state("aa", "");
    find_all(&mut f, &c);
    assert_eq!(f.results, vec![(0, 0), (0, 2)]);
}

#[test]
fn find_all_with_empty_query_clears_results() {
    let c = content("abc");
    let mut f = find_state("", "");
    f.results = vec![(0, 1)];
    find_all(&mut f, &c);
    assert!(f.results.is_empty());
    assert!(f.last_query.is_empty());
}

#[test]
fn find_all_reuses_results_for_same_query_and_version() {
    let c = content("abc abc");
    let mut f = find_state("abc", "");
    find_all(&mut f, &c);
    f.results = vec![(0, 4)];
    f.active_index = 1;
    find_all(&mut f, &c);
    assert_eq!(f.results, vec![(0, 4)]);
    assert_eq!(f.active_index, 0);
}

#[test]
fn find_all_searches_again_after_an_edit() {
    let mut c = content("abc abc");
    let mut f = find_state("abc", "");
    find_all(&mut f, &c);
    c.buffer_version = 1;
    f.results = vec![(0, 4)];
    find_all(&mut f, &c);
    assert_eq!(f.results, vec![(0, 0), (0, 4)]);
    assert_eq!(f.result_version, 1);
}

#[test]
fn find_next_wraps_and_selects_the_match() {
    let mut c = content("xx\nab ab");
    let mut f = find_state("ab", "");
    find_all(&mut f, &c);
    find_next(&mut f, &mut c);
    assert_eq!(f.active_index, 1);
    assert_eq!((c.cursor_line, c.cursor_col), (1, 5));
    assert_eq!(c.selection_start, Some((1, 3)));
    assert_eq!(c.selection_end, Some((1, 5)));
    find_next(&mut f, &mut c);
    assert_eq!(f.active_index, 0);
    assert_eq!(c.selection_start, Some((1, 0)));
}

#[test]
fn find_next_without_results_searches_first() {
    let mut c = content("ab ab ab");
    let mut f = find_state("ab", "");
    find_next(&mut f, &mut c);
    assert_eq!(f.results.len(), 3);
    assert_eq!(f.active_index, 1);
}

#[test]
fn find_prev_wraps_to_the_last_match() {
    let mut c = content("ab ab ab");
    let mut f = find_state("ab", "");
    find_all(&mut f, &c);
    find_prev(&mut f, &mut c);
    assert_eq!(f.active_index, 2);
    assert_eq!(c.selection_start, Some((0, 6)));
}

#[test]
fn find_prev_undoes_find_next() {
    let mut c = content("ab ab ab");
    let mut f = find_state("ab", "");
    find_all(&mut f, &c);
    f.active_index = 1;
    find_next(&mut f, &mut c);
    find_prev(&mut f, &mut c);
    assert_eq!(f.active_index, 1);
    assert_eq!(c.selection_start, Some((0, 3)));
    f.active_index = 2;
    find_next(&mut f, &mut c);
    assert_eq!(f.active_index, 0);
    find_prev(&mut f, &mut c);
    assert_eq!(f.active_index, 2);
}

#[test]
fn find_next_undoes_find_prev() {
    let mut c = content("ab ab ab");
    let mut f = find_state("ab", "");
    find_all(&mut f, &c);
    find_prev(&mut f, &mut c);
    find_next(&mut f, &mut c);
    assert_eq!(f.active_index, 0);
    assert_eq!(c.selection_start, Some((0, 0)));
}

#[test]
fn find_next_with_no_match_changes_nothing() {
    let mut c = content("abc");
    let mut f = find_state("zz", "");
    find_next(&mut f, &mut c);
    assert!(f.results.is_empty());
    assert_eq!((c.cursor_line, c.cursor_col), (0, 0));
    assert_eq!(c.selection_start, None);
}

#[test]
fn replace_current_replaces_and_records() {
    let mut c = content("one two one");
    let mut f = find_state("one", "1");
    find_all(&mut f, &c);
    f.active_index = 1;
    assert!(replace_current(&mut f, &mut c));
    assert_eq!(text_of(&c), "one two 1");
    assert_eq!((c.cursor_line, c.cursor_col), (0, 9));
    assert!(c.is_dirty);
    assert_eq!(c.buffer_version, 1);
    let rec = c.history.records.last().unwrap();
    assert_eq!(rec.pos, 8);
    assert_eq!(rec.removed, b"one".to_vec());
    assert_eq!(rec.inserted, b"1".to_vec());
    assert_eq!(f.results, vec![(0, 0)]);
}

#[test]
fn replace_current_undo_record_restores_text() {
    let mut c = content("a-b-c");
    let mut f = find_state("-", "+++");
    find_all(&mut f, &c);
    assert!(replace_current(&mut f, &mut c));
    let rec = c.history.records.last().unwrap();
    let now = c.buffer.all_bytes();
    let mut undone = now[..rec.pos].to_vec();
    undone.extend_from_slice(&rec.removed);
    undone.extend_from_slice(&now[rec.pos + rec.inserted.len()..]);
    assert_eq!(undone, b"a-b-c".to_vec());
}

#[test]
fn replace_current_without_active_match_returns_false() {
    let mut c = content("abc");
    let mut f = find_state("x", "y");
    assert!(!replace_current(&mut f, &mut c));
    assert_eq!(text_of(&c), "abc");
}

#[test]
fn replace_all_replaces_every_match_as_one_group() {
    let mut s = editor("cat cat\ncat", "cat", "dog");
    let n = replace_all(&mut s);
    assert_eq!(n, 3);
    assert_eq!(text_of(&s.content), "dog dog\ndog");
    assert_eq!(s.status, StatusMessage::Replaced(3));
    assert!(s.content.is_dirty);
    assert!(s.find.results.is_empty());
    let recs = &s.content.history.records;
    assert_eq!(recs.len(), 3);
    assert_eq!(recs[0].pos, 8);
    assert_eq!(recs[1].pos, 4);
    assert_eq!(recs[2].pos, 0);
    assert!(recs.iter().all(|r| r.group == Some(0)));
    assert_eq!(s.content.history.open_group, None);
    match &s.tab_bar.tabs[0] {
        Tab::File(c) => assert!(c.is_dirty),
        _ => panic!("file tab expected"),
    }
}

#[test]
fn replace_all_with_longer_and_multiline_replacement() {
    let mut s = editor("a,b,c", ",", ",\n");
    assert_eq!(replace_all(&mut s), 2);
    assert_eq!(text_of(&s.content), "a,\nb,\nc");
    assert_eq!(s.content.buffer.len_lines(), 3);
}

#[test]
fn replace_all_undone_from_the_last_record_restores_the_text() {
    let before = "xx ab xx ab";
    let mut s = editor(before, "ab", "Z");
    assert_eq!(replace_all(&mut s), 2);
    let mut text = s.content.buffer.all_bytes();
    for rec in s.content.history.records.iter().rev() {
        let mut t = text[..rec.pos].to_vec();
        t.extend_from_slice(&rec.removed);
        t.extend_from_slice(&text[rec.pos + rec.inserted.len()..]);
        text = t;
    }
    assert_eq!(text, before.as_bytes().to_vec());
}

#[test]
fn replace_all_with_same_text_or_empty_query_does_nothing() {
    let mut s = editor("aaa", "a", "a");
    assert_eq!(replace_all(&mut s), 0);
    assert_eq!(text_of(&s.content), "aaa");
    let mut s = editor("aaa", "", "b");
    assert_eq!(replace_all(&mut s), 0);
    assert_eq!(text_of(&s.content), "aaa");
}

#[test]
fn replace_all_without_matches_changes_no_text() {
    let mut s = editor("hello", "zz", "y");
    assert_eq!(replace_all(&mut s), 0);
    assert_eq!(text_of(&s.content), "hello");
    assert!(!s.content.is_dirty);
}

#[test]
fn toggle_find_shows_focuses_and_searches() {
    let c = content("ab ab");
    let mut f = find_state("ab", "");
    toggle_find(&mut f, &c);
    assert!(f.visible);
    assert_eq!(f.focus, FindReplaceFocus::FindQuery);
    assert_eq!(f.results.len(), 2);
    f.replace_visible = true;
    toggle_find(&mut f, &c);
    assert!(!f.visible);
    assert!(!f.replace_visible);
    assert_eq!(f.focus, FindReplaceFocus::Nothing);
}

#[test]
fn toggle_replace_shows_find_panel_too() {
    let c = content("abc");
    let mut f = find_state("", "");
    toggle_replace(&mut f, &c);
    assert!(f.visible);
    assert!(f.replace_visible);
    assert_eq!(f.focus, FindReplaceFocus::FindQuery);
    toggle_replace(&mut f, &c);
    assert!(f.visible);
    assert!(!f.replace_visible);
    assert_eq!(f.focus, FindReplaceFocus::Nothing);
}

#[test]
fn close_find_replace_hides_everything() {
    let mut f = find_state("q", "r");
    f.visible = true;
    f.replace_visible = true;
    f.focus = FindReplaceFocus::ReplaceText;
    close_find_replace(&mut f);
    assert!(!f.visible);
    assert!(!f.replace_visible);
    assert_eq!(f.focus, FindReplaceFocus::Nothing);
    assert_eq!(f.query, "q");
}

#[test]
fn find_state_methods_delegate() {
    let mut c = content("q q");
    let mut f = find_state("q", "");
    f.find_all(&c);
    f.find_next(&mut c);
    assert_eq!(f.active_index, 1);
    f.find_prev(&mut c);
    assert_eq!(f.active_index, 0);
    f.close_find_replace();
    assert!(!f.visible);
}

#[test]
fn find_next_as_often_as_there_are_matches_comes_back() {
    let mut c = content("ab x ab\nab");
    let mut f = find_state("ab", "");
    find_all(&mut f, &c);
    f.active_index = 1;
    let results = f.results.clone();
    for _ in 0..results.len() {
        find_next(&mut f, &mut c);
    }
    assert_eq!(f.active_index, 1);
    assert_eq!(f.results, results);
    assert_eq!(c.selection_start, Some(results[1]));
}
