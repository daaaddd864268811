use aether_win32::search::{find_bytes, find_bytes_from};
use aether_win32::motion::{word_left, word_range_at, word_right};
use aether_win32::text_buffer::{compute_line_starts, TextBuffer};

#[test]
fn lines_of_a_buffer() {
    let b = TextBuffer::from_str("ab\ncd\n");
    assert_eq!(b.len_lines(), 3);
    assert_eq!(b.len_bytes(), 6);
    assert_eq!(b.get_line(1), Some(b"cd".to_vec()));
    assert_eq!(b.get_line(2), Some(Vec::new()));
    assert_eq!(b.get_line(3), None);
    assert_eq!(b.line_start_byte(1), 3);
    assert_eq!(b.line_start_byte(9), 6);
    assert_eq!(b.line_len(0), Some(2));
}

#[test]
fn empty_buffer_has_one_empty_line() {
    let b = TextBuffer::new();
    assert_eq!(b.len_lines(), 1);
    assert_eq!(b.get_line(0), Some(Vec::new()));
}

#[test]
fn insert_and_delete_keep_lines_in_step() {
    let mut b = TextBuffer::from_str("ab");
    b.insert(1, b"\nx\n");
    assert_eq!(b.all_bytes(), b"a\nx\nb".to_vec());
    assert_eq!(b.len_lines(), 3);
    b.delete(1, 4);
    assert_eq!(b.all_bytes(), b"ab".to_vec());
    assert_eq!(b.len_lines(), 1);
}

#[test]
fn get_text_clamps_the_range() {
    let b = TextBuffer::from_str("hello");
    assert_eq!(b.get_text(1, 3), b"el".to_vec());
    assert_eq!(b.get_text(3, 99), b"lo".to_vec());
    assert_eq!(b.get_text(4, 2), Vec::<u8>::new());
}

#[test]
fn line_starts_follow_newlines() {
    assert_eq!(compute_line_starts(b"a\n\nbc\n"), vec![0, 2, 3, 6]);
    assert_eq!(compute_line_starts(b""), vec![0]);
}

#[test]
fn byte_search() {
    assert_eq!(find_bytes(b"abcabc", b"ca"), Some(2));
    assert_eq!(find_bytes(b"abc", b""), Some(0));
    assert_eq!(find_bytes(b"abc", b"d"), None);
    assert_eq!(find_bytes_from(b"abcabc", b"abc", 1), Some(3));
    assert_eq!(find_bytes_from(b"abc", b"c", 9), None);
}

#[test]
fn word_motions_in_a_line() {
    let line = "let foo_bar = 1;".as_bytes();
    assert_eq!(word_right(line, 0), 3);
    assert_eq!(word_right(line, 3), 11);
    assert_eq!(word_left(line, 11), 4);
    assert_eq!(word_range_at(line, 6), Some((4, 11)));
    assert_eq!(word_range_at(line, 3), None);
}
