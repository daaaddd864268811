use aether_win32::cursor::{
    add_cursor_at_next_occurrence, add_cursor_line_above, add_cursor_line_below,
    byte_to_line_col, char_offset_to_byte_offset, clear_selection, end_selection,
    ensure_cursor_visible_horizontal, ensure_cursor_visible_vertical, goto_position, scroll,
    scroll_horizontal, select_word_at_cursor, line_col_to_byte, move_cursor_down,
    move_cursor_end, move_cursor_file_end, move_cursor_file_start, move_cursor_home,
    move_cursor_left, move_cursor_right, move_cursor_smart_home, move_cursor_up,
    move_cursor_word_left, move_cursor_word_right, rebuild_line_y_offsets, reset_scroll_x,
    start_selection, update_selection, visible_line_range,
};
use aether_win32::state::{Cursor, EditorState, StatusMessage, Tab, TabContent, Viewport};
use aether_win32::text_buffer::TextBuffer;

fn viewport() -> Viewport {
    Viewport {
        line_height: 20,
        char_width: 8,
        editor_width: 800,
        editor_height: 100,
        content_height: 100,
    }
}

fn editor(text: &str) -> EditorState {
    EditorState::new(TabContent::with_buffer(None, TextBuffer::from_str(text)), viewport())
}

fn at(s: &mut EditorState, line: usize, col: usize) {
    s.content.cursor_line = line;
    s.content.cursor_col = col;
}

fn cursor(s: &EditorState) -> (usize, usize) {
    (s.content.cursor_line, s.content.cursor_col)
}

#[test]
fn right_steps_over_a_whole_multibyte_char() {
    let mut s = editor("aé!");
    at(&mut s, 0, 1);
    move_cursor_right(&mut s);
    assert_eq!(cursor(&s), (0, 3));
    move_cursor_right(&mut s);
    assert_eq!(cursor(&s), (0, 4));
}

#[test]
fn left_steps_back_over_a_whole_multibyte_char() {
    let mut s = editor("aé!");
    at(&mut s, 0, 3);
    move_cursor_left(&mut s);
    assert_eq!(cursor(&s), (0, 1));
}

#[test]
fn right_then_left_comes_back() {
    let mut s = editor("x中y");
    at(&mut s, 0, 1);
    move_cursor_right(&mut s);
    assert_eq!(cursor(&s), (0, 4));
    move_cursor_left(&mut s);
    assert_eq!(cursor(&s), (0, 1));
}

#[test]
fn right_at_line_end_goes_to_next_line_start() {
    let mut s = editor("ab\ncd");
    at(&mut s, 0, 2);
    move_cursor_right(&mut s);
    assert_eq!(cursor(&s), (1, 0));
}

#[test]
fn right_at_text_end_stays() {
    let mut s = editor("ab\ncd");
    at(&mut s, 1, 2);
    move_cursor_right(&mut s);
    assert_eq!(cursor(&s), (1, 2));
}

#[test]
fn left_at_line_start_goes_to_previous_line_end() {
    let mut s = editor("abc\nd");
    at(&mut s, 1, 0);
    move_cursor_left(&mut s);
    assert_eq!(cursor(&s), (0, 3));
}

#[test]
fn left_at_text_start_stays() {
    let mut s = editor("abc");
    move_cursor_left(&mut s);
    assert_eq!(cursor(&s), (0, 0));
}

#[test]
fn down_clamps_the_column_to_the_shorter_line() {
    let mut s = editor("abcdef\nab");
    at(&mut s, 0, 5);
    move_cursor_down(&mut s);
    assert_eq!(cursor(&s), (1, 2));
}

#[test]
fn up_clamps_the_column_and_stops_at_first_line() {
    let mut s = editor("ab\nabcdef");
    at(&mut s, 1, 5);
    move_cursor_up(&mut s);
    assert_eq!(cursor(&s), (0, 2));
    move_cursor_up(&mut s);
    assert_eq!(cursor(&s), (0, 2));
}

#[test]
fn down_on_last_line_stays() {
    let mut s = editor("ab\ncd");
    at(&mut s, 1, 1);
    move_cursor_down(&mut s);
    assert_eq!(cursor(&s), (1, 1));
}

#[test]
fn down_scrolls_the_new_line_into_view() {
    let text = "0\n1\n2\n3\n4\n5\n6\n7";
    let mut s = editor(text);
    at(&mut s, 4, 0);
    move_cursor_down(&mut s);
    assert_eq!(cursor(&s), (5, 0));
    // line 5 spans pixels 100..120 in a 100 px high view
    assert_eq!(s.content.scroll_y, 20);
}

#[test]
fn home_and_end() {
    let mut s = editor("hello\nxy");
    at(&mut s, 0, 3);
    move_cursor_end(&mut s);
    assert_eq!(cursor(&s), (0, 5));
    move_cursor_home(&mut s);
    assert_eq!(cursor(&s), (0, 0));
}

#[test]
fn smart_home_goes_to_first_non_blank_then_to_column_zero() {
    let mut s = editor("    foo");
    at(&mut s, 0, 6);
    move_cursor_smart_home(&mut s, false);
    assert_eq!(cursor(&s), (0, 4));
    move_cursor_smart_home(&mut s, true);
    assert_eq!(cursor(&s), (0, 0));
}

#[test]
fn smart_home_on_a_blank_line_goes_to_its_end() {
    let mut s = editor("   ");
    move_cursor_smart_home(&mut s, false);
    assert_eq!(cursor(&s), (0, 3));
}

#[test]
fn file_start_and_end() {
    let mut s = editor("one\ntwo\nthree");
    at(&mut s, 1, 1);
    move_cursor_file_end(&mut s);
    assert_eq!(cursor(&s), (2, 5));
    move_cursor_file_start(&mut s);
    assert_eq!(cursor(&s), (0, 0));
}

#[test]
fn file_end_after_final_newline_is_the_empty_last_line() {
    let mut s = editor("ab\n");
    move_cursor_file_end(&mut s);
    assert_eq!(cursor(&s), (1, 0));
}

#[test]
fn word_right_skips_spaces_then_a_word() {
    let mut s = editor("foo bar_1 baz");
    move_cursor_word_right(&mut s);
    assert_eq!(cursor(&s), (0, 3));
    move_cursor_word_right(&mut s);
    assert_eq!(cursor(&s), (0, 9));
}

#[test]
fn word_right_over_punctuation_moves_one_char() {
    let mut s = editor("a.b");
    at(&mut s, 0, 1);
    move_cursor_word_right(&mut s);
    assert_eq!(cursor(&s), (0, 2));
}

#[test]
fn word_left_skips_spaces_then_a_word() {
    let mut s = editor("foo bar");
    at(&mut s, 0, 7);
    move_cursor_word_left(&mut s);
    assert_eq!(cursor(&s), (0, 4));
    move_cursor_word_left(&mut s);
    assert_eq!(cursor(&s), (0, 0));
}

#[test]
fn word_moves_treat_unicode_letters_as_word_chars() {
    let mut s = editor("héllo wörld");
    move_cursor_word_right(&mut s);
    assert_eq!(cursor(&s), (0, 6));
}

#[test]
fn line_col_to_byte_clamps_the_column() {
    let s = editor("abc\nde");
    assert_eq!(line_col_to_byte(&s, 1, 1), 5);
    assert_eq!(line_col_to_byte(&s, 1, 10), 6);
    assert_eq!(line_col_to_byte(&s, 0, 2), 2);
}

#[test]
fn byte_to_line_col_finds_the_line() {
    let s = editor("abc\nde\nf");
    assert_eq!(byte_to_line_col(&s, 0), (0, 0));
    assert_eq!(byte_to_line_col(&s, 5), (1, 1));
    assert_eq!(byte_to_line_col(&s, 7), (2, 0));
}

#[test]
fn char_offset_to_byte_offset_counts_chars() {
    assert_eq!(char_offset_to_byte_offset("aé中b".as_bytes(), 0), 0);
    assert_eq!(char_offset_to_byte_offset("aé中b".as_bytes(), 2), 3);
    assert_eq!(char_offset_to_byte_offset("aé中b".as_bytes(), 3), 6);
    assert_eq!(char_offset_to_byte_offset("aé中b".as_bytes(), 9), 7);
}

#[test]
fn goto_position_is_one_based_and_clamped() {
    let mut s = editor("abc\nd中e\nf");
    s.content.selection_start = Some((0, 0));
    s.content.selection_end = Some((0, 1));
    goto_position(&mut s, 2, 3);
    assert_eq!(cursor(&s), (1, 4));
    assert_eq!(s.content.selection_start, None);
    assert_eq!(s.content.selection_end, None);
    goto_position(&mut s, 99, 99);
    assert_eq!(cursor(&s), (2, 1));
    goto_position(&mut s, 0, 0);
    assert_eq!(cursor(&s), (0, 0));
}

#[test]
fn goto_position_updates_the_active_file_tab() {
    let mut s = editor("abc\ndef");
    goto_position(&mut s, 2, 2);
    match &s.tab_bar.tabs[0] {
        Tab::File(c) => {
            assert_eq!((c.cursor_line, c.cursor_col), (1, 1));
        }
        _ => panic!("the active tab is a file tab"),
    }
}

#[test]
fn goto_position_scrolls_the_target_line_into_view() {
    let text = "0\n1\n2\n3\n4\n5\n6\n7\n8\n9";
    let mut s = editor(text);
    goto_position(&mut s, 10, 1);
    // line 9 spans 180..200; the view is 100 px high
    assert_eq!(s.content.scroll_y, 100);
    goto_position(&mut s, 1, 1);
    assert_eq!(s.content.scroll_y, 0);
}

#[test]
fn ensure_visible_keeps_a_visible_line_in_place() {
    let mut s = editor("0\n1\n2\n3\n4\n5");
    s.content.scroll_y = 20;
    at(&mut s, 3, 0);
    ensure_cursor_visible_vertical(&mut s);
    assert_eq!(s.content.scroll_y, 20);
}

#[test]
fn ensure_visible_scrolls_up_to_a_line_above() {
    let mut s = editor("0\n1\n2\n3\n4\n5");
    s.content.scroll_y = 60;
    at(&mut s, 1, 0);
    ensure_cursor_visible_vertical(&mut s);
    assert_eq!(s.content.scroll_y, 20);
}

#[test]
fn ensure_visible_twice_is_the_same_as_once() {
    let mut s = editor("0\n1\n2\n3\n4\n5\n6\n7\n8");
    at(&mut s, 7, 0);
    ensure_cursor_visible_vertical(&mut s);
    let once = s.content.scroll_y;
    ensure_cursor_visible_vertical(&mut s);
    assert_eq!(s.content.scroll_y, once);
    assert!(once <= 7 * 20 && 7 * 20 + 20 <= once + 100);
}

#[test]
fn reset_scroll_x_zeroes_horizontal_scroll() {
    let mut s = editor("abc");
    s.content.scroll_x = 42;
    reset_scroll_x(&mut s);
    assert_eq!(s.content.scroll_x, 0);
}

#[test]
fn visible_line_range_from_scroll_and_height() {
    let mut s = editor("0\n1\n2\n3\n4\n5\n6\n7\n8\n9\n10\n11");
    s.content.scroll_y = 40;
    // from line 2, 100 / 20 + 2 = 7 lines
    assert_eq!(visible_line_range(&s), (2, 9));
    s.content.scroll_y = 200;
    assert_eq!(visible_line_range(&s), (10, 12));
    // Scrolled past the last line: the range still starts on a line.
    s.content.scroll_y = 2000;
    assert_eq!(visible_line_range(&s), (11, 12));
}

#[test]
fn rebuild_line_y_offsets_gives_each_line_top() {
    let mut s = editor("a\nb\nc");
    rebuild_line_y_offsets(&mut s);
    assert_eq!(s.content.line_y_offsets, vec![0, 20, 40]);
    assert_eq!(s.content.line_y_offsets_cached_lines, 3);
}

#[test]
fn add_cursor_line_below_clamps_and_reports() {
    let mut s = editor("abcd\nab");
    at(&mut s, 0, 3);
    add_cursor_line_below(&mut s);
    assert_eq!(cursor(&s), (1, 2));
    assert_eq!(s.multi_cursor.cursors, vec![Cursor { line: 1, col: 2 }]);
    assert_eq!(s.status, StatusMessage::CursorAdded(1));
}

#[test]
fn add_cursor_line_below_on_last_line_does_nothing() {
    let mut s = editor("ab\ncd");
    at(&mut s, 1, 0);
    add_cursor_line_below(&mut s);
    assert_eq!(cursor(&s), (1, 0));
    assert!(s.multi_cursor.cursors.is_empty());
}

#[test]
fn add_cursor_line_above_moves_up() {
    let mut s = editor("ab\ncdef");
    at(&mut s, 1, 4);
    add_cursor_line_above(&mut s);
    assert_eq!(cursor(&s), (0, 2));
    assert_eq!(s.multi_cursor.cursors, vec![Cursor { line: 0, col: 2 }]);
}

#[test]
fn next_occurrence_of_word_at_cursor() {
    let mut s = editor("foo bar\nfoo");
    at(&mut s, 0, 1);
    add_cursor_at_next_occurrence(&mut s);
    assert_eq!(cursor(&s), (1, 0));
    assert_eq!(s.content.selection_start, Some((1, 0)));
    assert_eq!(s.content.selection_end, Some((1, 3)));
    assert_eq!(s.multi_cursor.cursors, vec![Cursor { line: 1, col: 0 }]);
}

#[test]
fn next_occurrence_searches_from_the_end_of_the_word() {
    let mut s = editor("foo foo");
    at(&mut s, 0, 2);
    add_cursor_at_next_occurrence(&mut s);
    assert_eq!(cursor(&s), (0, 4));
    assert_eq!(s.content.selection_start, Some((0, 4)));
    assert_eq!(s.content.selection_end, Some((0, 7)));
    assert_eq!(s.multi_cursor.cursors, vec![Cursor { line: 0, col: 4 }]);
}

#[test]
fn next_occurrence_of_selection() {
    let mut s = editor("ab ab ab");
    s.content.selection_start = Some((0, 0));
    s.content.selection_end = Some((0, 2));
    add_cursor_at_next_occurrence(&mut s);
    assert_eq!(cursor(&s), (0, 3));
    assert_eq!(s.content.selection_end, Some((0, 5)));
}

#[test]
fn next_occurrence_without_a_match_changes_nothing() {
    let mut s = editor("foo bar");
    at(&mut s, 0, 5);
    add_cursor_at_next_occurrence(&mut s);
    assert_eq!(cursor(&s), (0, 5));
    assert!(s.multi_cursor.cursors.is_empty());
}

#[test]
fn selection_lifecycle() {
    let mut s = editor("hello world");
    at(&mut s, 0, 2);
    start_selection(&mut s);
    assert!(s.is_selecting);
    assert_eq!(s.content.selection_start, Some((0, 2)));
    at(&mut s, 0, 7);
    update_selection(&mut s);
    assert_eq!(s.content.selection_end, Some((0, 7)));
    end_selection(&mut s);
    assert!(!s.is_selecting);
    at(&mut s, 0, 9);
    update_selection(&mut s);
    assert_eq!(s.content.selection_end, Some((0, 7)));
    clear_selection(&mut s);
    assert_eq!(s.content.selection_start, None);
    assert_eq!(s.content.selection_end, None);
}

#[test]
fn editor_state_methods_delegate() {
    let mut s = editor("ab\ncd");
    s.move_cursor_down();
    s.move_cursor_end();
    assert_eq!(cursor(&s), (1, 2));
    s.goto_position(1, 2);
    assert_eq!(cursor(&s), (0, 1));
}

#[test]
fn scroll_is_clamped_to_the_text() {
    // 10 lines of 20 px in a 100 px view: at most 100 px down
    let mut s = editor("0\n1\n2\n3\n4\n5\n6\n7\n8\n9");
    scroll(&mut s, 60);
    assert_eq!(s.content.scroll_y, 60);
    scroll(&mut s, 60);
    assert_eq!(s.content.scroll_y, 100);
    scroll(&mut s, -500);
    assert_eq!(s.content.scroll_y, 0);
}

#[test]
fn short_text_does_not_scroll() {
    let mut s = editor("one\ntwo");
    scroll(&mut s, 30);
    assert_eq!(s.content.scroll_y, 0);
}

#[test]
fn horizontal_scroll_is_clamped_to_the_widest_line() {
    let mut s = editor("x");
    // text area 800 - 65 = 735 px; 100 columns of 8 px = 800 px: at most 65
    scroll_horizontal(&mut s, 50, 100);
    assert_eq!(s.content.scroll_x, 50);
    scroll_horizontal(&mut s, 50, 100);
    assert_eq!(s.content.scroll_x, 65);
    scroll_horizontal(&mut s, -100, 100);
    assert_eq!(s.content.scroll_x, 0);
    scroll_horizontal(&mut s, 10, 20);
    assert_eq!(s.content.scroll_x, 0);
}

#[test]
fn horizontal_visibility_follows_the_cursor() {
    let mut s = editor("x");
    // cursor at column 100 = 800 px, right edge at 735: scroll to 800 - 735 + 8
    ensure_cursor_visible_horizontal(&mut s, 100);
    assert_eq!(s.content.scroll_x, 73);
    ensure_cursor_visible_horizontal(&mut s, 50);
    assert_eq!(s.content.scroll_x, 73);
    ensure_cursor_visible_horizontal(&mut s, 5);
    assert_eq!(s.content.scroll_x, 40);
}

#[test]
fn motions_keep_the_cursor_inside_the_text() {
    let mut s = editor("ab\n\ncdé");
    let steps: [fn(&mut EditorState); 8] = [
        move_cursor_right,
        move_cursor_down,
        move_cursor_end,
        move_cursor_word_left,
        move_cursor_up,
        move_cursor_left,
        move_cursor_word_right,
        move_cursor_file_end,
    ];
    for _ in 0..3 {
        for step in steps.iter() {
            step(&mut s);
            let line = s.content.cursor_line;
            assert!(line < s.content.buffer.len_lines());
            assert!(s.content.cursor_col <= s.content.buffer.line_len(line).unwrap());
        }
    }
}

fn selection(s: &EditorState) -> (Option<(usize, usize)>, Option<(usize, usize)>) {
    (s.content.selection_start, s.content.selection_end)
}

#[test]
fn double_click_selects_the_word() {
    let mut s = editor("foo bar_baz qux");
    at(&mut s, 0, 6);
    s.is_selecting = true;
    select_word_at_cursor(&mut s);
    assert_eq!(selection(&s), (Some((0, 4)), Some((0, 11))));
    assert_eq!(cursor(&s), (0, 11));
    assert!(!s.is_selecting);
}

#[test]
fn double_click_on_a_separator_selects_it() {
    let mut s = editor("foo bar");
    at(&mut s, 0, 3);
    select_word_at_cursor(&mut s);
    assert_eq!(selection(&s), (Some((0, 3)), Some((0, 4))));
}

#[test]
fn double_click_at_line_end_selects_last_char() {
    let mut s = editor("ab\nxyz");
    at(&mut s, 1, 3);
    select_word_at_cursor(&mut s);
    assert_eq!(selection(&s), (Some((1, 2)), Some((1, 3))));
    let mut s = editor("");
    select_word_at_cursor(&mut s);
    assert_eq!(selection(&s), (Some((0, 0)), Some((0, 0))));
}

#[test]
fn double_click_inside_a_multibyte_char_uses_the_next_char() {
    let mut s = editor("aé b");
    at(&mut s, 0, 2);
    select_word_at_cursor(&mut s);
    assert_eq!(selection(&s), (Some((0, 3)), Some((0, 4))));
    let mut s = editor("x 中文字 y");
    at(&mut s, 0, 5);
    select_word_at_cursor(&mut s);
    assert_eq!(selection(&s), (Some((0, 2)), Some((0, 11))));
}
