use aether_win32::scrollbar::{
    content_width_lines, pointer_moved, refresh_content_width, Axis, MoveOutcome,
    ScrollbarPointer,
};
use aether_win32::state::{EditorState, TabContent, Viewport};
use aether_win32::text_buffer::TextBuffer;

fn editor(text: &str) -> EditorState {
    let viewport = Viewport {
        line_height: 20,
        char_width: 8,
        editor_width: 800,
        editor_height: 100,
        content_height: 100,
    };
    EditorState::new(TabContent::with_buffer(None, TextBuffer::from_str(text)), viewport)
}

#[test]
fn dragging_scrolls() {
    let mut p = ScrollbarPointer { drag: Some(Axis::Vertical), hover: None };
    assert_eq!(pointer_moved(&mut p, true, Some(Axis::Horizontal)), MoveOutcome::Dragged);
    assert_eq!(p, ScrollbarPointer { drag: Some(Axis::Vertical), hover: None });
}

#[test]
fn hover_follows_the_pointer() {
    let mut p = ScrollbarPointer { drag: None, hover: None };
    assert_eq!(pointer_moved(&mut p, true, Some(Axis::Horizontal)), MoveOutcome::HoverChanged);
    assert_eq!(p.hover, Some(Axis::Horizontal));
    assert_eq!(pointer_moved(&mut p, true, Some(Axis::Horizontal)), MoveOutcome::Ignored);
    assert_eq!(pointer_moved(&mut p, true, None), MoveOutcome::HoverChanged);
    assert_eq!(p.hover, None);
}

#[test]
fn without_an_editor_a_highlight_is_cleared() {
    let mut p = ScrollbarPointer { drag: None, hover: Some(Axis::Vertical) };
    assert_eq!(pointer_moved(&mut p, false, Some(Axis::Vertical)), MoveOutcome::HoverChanged);
    assert_eq!(p.hover, None);
    assert_eq!(pointer_moved(&mut p, false, Some(Axis::Vertical)), MoveOutcome::Ignored);
}

#[test]
fn small_files_measure_every_line_once_per_version() {
    let mut s = editor("ab\nabcd\n\nx");
    assert_eq!(content_width_lines(&s), Some((0, 4)));
    refresh_content_width(&mut s, &[2, 4, 0, 1]);
    assert_eq!(s.content.content_width_chars, 4);
    assert_eq!(s.content.content_width_version, Some(s.content.buffer_version));
    assert_eq!(content_width_lines(&s), None);
    // Up to date: the widths handed in are not read.
    refresh_content_width(&mut s, &[]);
    assert_eq!(s.content.content_width_chars, 4);
    // A new version is measured afresh, so the width can shrink.
    s.content.buffer_version += 1;
    refresh_content_width(&mut s, &[1, 2, 0, 1]);
    assert_eq!(s.content.content_width_chars, 2);
}

#[test]
fn large_files_measure_the_visible_lines_and_only_grow() {
    let text = "x\n".repeat(30);
    let mut s = editor(&text);
    s.content.is_large_file = true;
    s.content.scroll_y = 200;
    // From line 10, seven lines (five shown, two more) are measured.
    assert_eq!(content_width_lines(&s), Some((10, 17)));
    refresh_content_width(&mut s, &[1, 1, 9, 1, 1, 1, 1]);
    assert_eq!(s.content.content_width_chars, 9);
    s.content.buffer_version += 1;
    refresh_content_width(&mut s, &[1, 1, 3, 1, 1, 1, 1]);
    assert_eq!(s.content.content_width_chars, 9);
}
