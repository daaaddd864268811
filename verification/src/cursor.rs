//! Cursor motion, selection, extra cursors and the vertical viewport of the
//! active tab.  Columns are byte offsets into the line.
use vstd::prelude::*;

use crate::chars::{
    ceil_boundary, floor_boundary, is_boundary, lemma_ceil_boundary, lemma_floor_boundary,
    next_boundary,
};
use crate::motion::{
    first_non_ws, left_col, lemma_skip_back_bounds, lemma_skip_fwd_bounds,
    lemma_word_motion_bounds, min_int, skip_back, skip_word_back, skip_word_fwd, word_at, next_char, skip_fwd, word_around,
    word_left, word_left_col, word_range_at, word_right, word_right_col,
};
use crate::search::{find_bytes, first_match, lemma_first_match_from};
use crate::state::{Cursor, EditorState, StatusMessage, Tab, TabContent};
use crate::text_buffer::{clamped_range, TextBuffer};

verus! {

// ---------------------------------------------------------------------------
// Views of the state used by the contracts
// ---------------------------------------------------------------------------
/// Number of lines of the active text.
pub open spec fn n_lines(s: EditorState) -> int {
    s.content.buffer.line_count() as int
}

/// Text of line `i` of the active tab.
pub open spec fn line_of(s: EditorState, i: int) -> Seq<u8> {
    s.content.buffer.line(i)
}

/// `s` with the cursor moved to (`line`, `col`).
pub open spec fn with_cursor(s: EditorState, line: usize, col: usize) -> EditorState {
    EditorState { content: TabContent { cursor_line: line, cursor_col: col, ..s.content }, ..s }
}

/// `s` with the cursor column set to `col`.
pub open spec fn with_col(s: EditorState, col: usize) -> EditorState {
    with_cursor(s, s.content.cursor_line, col)
}

/// `s` with the vertical scroll offset set to `y`.
pub open spec fn with_scroll_y(s: EditorState, y: u64) -> EditorState {
    EditorState { content: TabContent { scroll_y: y, ..s.content }, ..s }
}

/// `s` with the selection set to the given ends.
pub open spec fn with_selection(
    s: EditorState,
    start: Option<(usize, usize)>,
    end: Option<(usize, usize)>,
) -> EditorState {
    EditorState {
        content: TabContent { selection_start: start, selection_end: end, ..s.content },
        ..s
    }
}

/// Clamps an integer to the range of `u64`.
pub open spec fn clamp_u64(v: int) -> u64 {
    if v > u64::MAX {
        u64::MAX
    } else if v < 0 {
        0
    } else {
        v as u64
    }
}

/// The vertical scroll offset after making line `line` visible in a view of
/// height `h` (at least 1) that was scrolled to `scroll`, with lines `lh` high.
pub open spec fn visible_scroll_y(line: int, scroll: u64, lh: u32, h: u32) -> u64 {
    let h1: int = if h >= 1 {
        h as int
    } else {
        1
    };
    let y = line * lh;
    if y < scroll {
        y as u64
    } else if y + lh > scroll + h1 {
        clamp_u64(y + lh - h1)
    } else {
        scroll
    }
}

/// `s` scrolled vertically so that the cursor line is visible.
pub open spec fn spec_ensure_vertical(s: EditorState) -> EditorState {
    with_scroll_y(
        s,
        visible_scroll_y(
            s.content.cursor_line as int,
            s.content.scroll_y,
            s.viewport.line_height,
            s.viewport.editor_height,
        ),
    )
}

// ---------------------------------------------------------------------------
// Spec results of the motions
// ---------------------------------------------------------------------------
pub open spec fn spec_move_left(s: EditorState) -> EditorState {
    let line = s.content.cursor_line;
    let col = s.content.cursor_col;
    if col > 0 {
        if line < n_lines(s) {
            with_col(s, left_col(line_of(s, line as int), col as int) as usize)
        } else {
            s
        }
    } else if line > 0 {
        if line - 1 < n_lines(s) {
            with_cursor(s, (line - 1) as usize, line_of(s, line - 1).len() as usize)
        } else {
            with_cursor(s, (line - 1) as usize, col)
        }
    } else {
        s
    }
}

/// Moving right needs the cursor on a char boundary when it is inside the line.
pub open spec fn right_ok(s: EditorState) -> bool {
    let line = s.content.cursor_line as int;
    let col = s.content.cursor_col as int;
    line < n_lines(s) && col < line_of(s, line).len() ==> is_boundary(line_of(s, line), col)
}

pub open spec fn spec_move_right(s: EditorState) -> EditorState {
    let line = s.content.cursor_line;
    let col = s.content.cursor_col;
    if line < n_lines(s) {
        if col < line_of(s, line as int).len() {
            with_col(s, next_boundary(line_of(s, line as int), col as int) as usize)
        } else if line + 1 < n_lines(s) {
            with_cursor(s, (line + 1) as usize, 0)
        } else {
            s
        }
    } else {
        s
    }
}

pub open spec fn spec_move_up(s: EditorState) -> EditorState {
    let line = s.content.cursor_line;
    let col = s.content.cursor_col;
    let moved = if line > 0 {
        let nl = (line - 1) as usize;
        if nl < n_lines(s) {
            with_cursor(s, nl, min_int(col as int, line_of(s, nl as int).len() as int) as usize)
        } else {
            with_cursor(s, nl, col)
        }
    } else {
        s
    };
    spec_ensure_vertical(moved)
}

pub open spec fn spec_move_down(s: EditorState) -> EditorState {
    let line = s.content.cursor_line;
    let col = s.content.cursor_col;
    let moved = if line + 1 < n_lines(s) {
        let nl = (line + 1) as usize;
        with_cursor(s, nl, min_int(col as int, line_of(s, nl as int).len() as int) as usize)
    } else {
        s
    };
    spec_ensure_vertical(moved)
}

pub open spec fn spec_move_end(s: EditorState) -> EditorState {
    let line = s.content.cursor_line as int;
    if line < n_lines(s) {
        with_col(s, line_of(s, line).len() as usize)
    } else {
        s
    }
}

pub open spec fn spec_move_smart_home(s: EditorState, already_at_smart_home: bool) -> EditorState {
    let line = s.content.cursor_line as int;
    if already_at_smart_home {
        with_col(s, 0)
    } else if line < n_lines(s) {
        with_col(s, first_non_ws(line_of(s, line)) as usize)
    } else {
        s
    }
}

pub open spec fn spec_move_file_end(s: EditorState) -> EditorState {
    let last = (n_lines(s) - 1) as usize;
    with_cursor(s, last, line_of(s, last as int).len() as usize)
}

pub open spec fn spec_move_word_left(s: EditorState) -> EditorState {
    let line = s.content.cursor_line;
    let col = s.content.cursor_col;
    if line < n_lines(s) {
        with_col(s, word_left_col(line_of(s, line as int), col as int) as usize)
    } else if line > 0 {
        spec_move_end(with_cursor(s, (line - 1) as usize, col))
    } else {
        s
    }
}

pub open spec fn spec_move_word_right(s: EditorState) -> EditorState {
    let line = s.content.cursor_line;
    let col = s.content.cursor_col;
    if line < n_lines(s) {
        with_col(s, word_right_col(line_of(s, line as int), col as int) as usize)
    } else if line + 1 < n_lines(s) {
        with_cursor(s, (line + 1) as usize, 0)
    } else {
        s
    }
}

/// `s` with an extra cursor at (`line`, `col`), the main cursor moved there
/// and the status reporting the number of extra cursors.
pub open spec fn with_added_cursor(s: EditorState, line: usize, col: usize) -> EditorState {
    let moved = with_cursor(s, line, col);
    let cursors = s.multi_cursor.cursors@.push(Cursor { line, col });
    EditorState {
        status: StatusMessage::CursorAdded(cursors.len() as usize),
        ..moved
    }
}

pub open spec fn multi_cursor_added(
    old_s: EditorState,
    new_s: EditorState,
    line: usize,
    col: usize,
) -> bool {
    let expected = with_added_cursor(old_s, line, col);
    &&& new_s.multi_cursor.cursors@ == old_s.multi_cursor.cursors@.push(Cursor { line, col })
    &&& new_s.content == expected.content
    &&& new_s.status == expected.status
    &&& new_s.find == old_s.find
    &&& new_s.is_selecting == old_s.is_selecting
    &&& new_s.tab_bar == old_s.tab_bar
    &&& new_s.viewport == old_s.viewport
    &&& new_s.agent_mode == old_s.agent_mode
    &&& new_s.right_panel_visible == old_s.right_panel_visible
    &&& new_s.new_project_dialog == old_s.new_project_dialog
}

/// Byte offset of (`line`, `col`), the column clamped to the line.
pub open spec fn spec_line_col_to_byte(b: TextBuffer, line: int, col: int) -> int {
    if 0 <= line < b.line_count() {
        b.line_start(line) + min_int(col, b.line(line).len() as int)
    } else {
        b.line_start_or_end(line)
    }
}

/// Byte offset of the cursor (line start plus column, unclamped).
pub open spec fn spec_cursor_byte_pos(s: EditorState) -> int {
    s.content.buffer.line_start_or_end(s.content.cursor_line as int) + s.content.cursor_col
}

/// The text that Ctrl+D searches for: the selection when it lies in one
/// line, otherwise (no selection) the word at the cursor.
pub open spec fn spec_search_text(s: EditorState) -> Seq<u8> {
    let b = s.content.buffer;
    match (s.content.selection_start, s.content.selection_end) {
        (Some((sl, sc)), Some((el, ec))) => {
            if sl == el {
                let a = spec_line_col_to_byte(b, sl as int, sc as int);
                let e = spec_line_col_to_byte(b, el as int, ec as int);
                if a < e {
                    clamped_range(b@, a, e)
                } else {
                    Seq::empty()
                }
            } else {
                Seq::empty()
            }
        },
        _ => {
            let line = s.content.cursor_line as int;
            if line < n_lines(s) {
                match word_around(line_of(s, line), s.content.cursor_col as int) {
                    Some((ws, we)) => line_of(s, line).subrange(ws, we),
                    None => Seq::empty(),
                }
            } else {
                Seq::empty()
            }
        },
    }
}

/// Where the text Ctrl+D searches for ends in the buffer: the end of the
/// selection, or the end of the word at the cursor (0 when there is no such
/// text).  The next occurrence is searched from there.
pub open spec fn spec_search_end(s: EditorState) -> int {
    let b = s.content.buffer;
    match (s.content.selection_start, s.content.selection_end) {
        (Some((sl, sc)), Some((el, ec))) => {
            if sl == el {
                let a = spec_line_col_to_byte(b, sl as int, sc as int);
                let e = spec_line_col_to_byte(b, el as int, ec as int);
                if a < e {
                    e
                } else {
                    0
                }
            } else {
                0
            }
        },
        _ => {
            let line = s.content.cursor_line as int;
            if line < n_lines(s) {
                match word_around(line_of(s, line), s.content.cursor_col as int) {
                    Some((ws, we)) => b.line_start(line) + we,
                    None => 0,
                }
            } else {
                0
            }
        },
    }
}

/// The line holding byte offset `byte` and the column of `byte` in it.
pub open spec fn is_line_col_of(b: TextBuffer, byte: int, line: int, col: int) -> bool {
    &&& 0 <= line < b.line_count()
    &&& b.line_start(line) <= byte
    &&& (line + 1 == b.line_count() || byte < b.line_start(line + 1))
    &&& col == byte - b.line_start(line)
}

// ---------------------------------------------------------------------------
// Line / byte conversions
// ---------------------------------------------------------------------------
/// Byte offset at which line `line_idx` starts (the text length past the last line).
pub fn line_byte_start(state: &EditorState, line_idx: usize) -> (r: usize)
    requires
        state.wf(),
    ensures
        r == state.content.buffer.line_start_or_end(line_idx as int),
        r <= state.content.buffer@.len(),
{
    state.content.buffer.line_start_byte(line_idx)
}

/// Byte offset of the cursor: start of the cursor line plus the cursor column.
pub fn cursor_byte_pos(state: &EditorState) -> (r: usize)
    requires
        state.wf(),
        spec_cursor_byte_pos(*state) <= usize::MAX,
    ensures
        r == spec_cursor_byte_pos(*state),
{
    line_byte_start(state, state.content.cursor_line) + state.content.cursor_col
}

/// Converts a line and column to a byte offset (the column is clamped to the line).
pub fn line_col_to_byte(state: &EditorState, line: usize, col: usize) -> (r: usize)
    requires
        state.wf(),
    ensures
        r == spec_line_col_to_byte(state.content.buffer, line as int, col as int),
        r <= state.content.buffer@.len(),
{
    proof {
        state.content.buffer.lemma_lines();
    }
    let start = state.content.buffer.line_start_byte(line);
    match state.content.buffer.line_len(line) {
        Some(len) => {
            assert(state.content.buffer.line_start(line as int) <= state.content.buffer.line_end(
                line as int,
            ));
            let c = if col < len {
                col
            } else {
                len
            };
            start + c
        },
        None => start,
    }
}

/// Converts a byte offset to (line, column) by binary search over the line starts.
pub fn byte_to_line_col(state: &EditorState, byte: usize) -> (r: (usize, usize))
    requires
        state.wf(),
    ensures
        is_line_col_of(state.content.buffer, byte as int, r.0 as int, r.1 as int),
{
    let b = &state.content.buffer;
    proof {
        b.lemma_lines();
    }
    let total_lines = b.len_lines();
    let mut lo: usize = 0;
    let mut hi: usize = total_lines;
    while lo < hi
        invariant
            b.wf(),
            total_lines == b.line_count(),
            lo <= hi <= total_lines,
            forall|i: int| 0 <= i < lo ==> b.line_start(i) <= byte,
            forall|i: int| hi <= i < total_lines ==> b.line_start(i) > byte,
        decreases hi - lo,
    {
        let mid = lo + (hi - lo) / 2;
        if b.line_start_byte(mid) <= byte {
            proof {
                assert forall|i: int| 0 <= i < mid + 1 implies b.line_start(i) <= byte by {
                    if i < mid {
                        assert(b.line_start(i) < b.line_start(mid as int));
                    }
                }
            }
            lo = mid + 1;
        } else {
            proof {
                assert forall|i: int| mid <= i < total_lines implies b.line_start(i) > byte by {
                    if i > mid {
                        assert(b.line_start(mid as int) < b.line_start(i));
                    }
                }
            }
            hi = mid;
        }
    }
    assert(b.line_start(0) <= byte);
    let line = lo - 1;
    let line_start = b.line_start_byte(line);
    (line, byte - line_start)
}

/// The char boundary before byte offset `pos` of the whole text.
pub fn find_prev_char_boundary(state: &EditorState, pos: usize) -> (r: usize)
    ensures
        r == (if pos == 0 {
            0
        } else if pos - 1 >= state.content.buffer@.len() {
            (pos - 1) as int
        } else {
            floor_boundary(state.content.buffer@, pos - 1)
        }),
{
    if pos == 0 {
        return 0;
    }
    let mut p = pos - 1;
    let b = &state.content.buffer;
    let n = b.len_bytes();
    if p >= n {
        return p;
    }
    while p > 0 && b.is_continuation_at(p)
        invariant
            p < n == b@.len(),
            floor_boundary(b@, p as int) == floor_boundary(b@, pos - 1),
        decreases p,
    {
        p = p - 1;
    }
    p
}

/// The char boundary after byte offset `pos` of the whole text (its length at the end).
pub fn find_next_char_boundary(state: &EditorState, pos: usize) -> (r: usize)
    ensures
        r == (if pos >= state.content.buffer@.len() {
            state.content.buffer@.len() as int
        } else {
            ceil_boundary(state.content.buffer@, pos + 1)
        }),
{
    let b = &state.content.buffer;
    let total = b.len_bytes();
    if pos >= total {
        return total;
    }
    let mut p = pos + 1;
    while p < total && b.is_continuation_at(p)
        invariant
            pos < p <= total == b@.len(),
            ceil_boundary(b@, p as int) == ceil_boundary(b@, pos + 1),
        decreases total - p,
    {
        p = p + 1;
    }
    p
}

// ---------------------------------------------------------------------------
// Viewport
// ---------------------------------------------------------------------------
/// Vertical scroll offset that makes line `line` visible.
fn visible_scroll_y_exec(line: usize, scroll: u64, lh: u32, h: u32) -> (r: u64)
    ensures
        r == visible_scroll_y(line as int, scroll, lh, h),
{
    let h1: u128 = if h >= 1 {
        h as u128
    } else {
        1
    };
    assert((line as int) * (lh as int) <= 0xffff_ffff_ffff_ffffu128 * 0xffff_ffffu128)
        by (nonlinear_arith)
        requires
            line <= 0xffff_ffff_ffff_ffffu64,
            lh <= 0xffff_ffffu32,
    ;
    let y: u128 = (line as u128) * (lh as u128);
    if y < scroll as u128 {
        y as u64
    } else if y + lh as u128 > scroll as u128 + h1 {
        let v = y + lh as u128 - h1;
        if v > u64::MAX as u128 {
            u64::MAX
        } else {
            v as u64
        }
    } else {
        scroll
    }
}

/// Scrolls vertically so that the cursor line is visible.
pub fn ensure_cursor_visible_vertical(state: &mut EditorState)
    ensures
        *final(state) == spec_ensure_vertical(*old(state)),
{
    let y = visible_scroll_y_exec(
        state.content.cursor_line,
        state.content.scroll_y,
        state.viewport.line_height,
        state.viewport.editor_height,
    );
    state.content.scroll_y = y;
}

/// Resets the horizontal scroll (after jumps and file loads).
pub fn reset_scroll_x(state: &mut EditorState)
    ensures
        *final(state) == (EditorState {
            content: TabContent { scroll_x: 0, ..old(state).content },
            ..*old(state)
        }),
{
    state.content.scroll_x = 0;
}

/// Largest vertical scroll offset: the text height less the view height
/// (at least 1), not below 0.
pub open spec fn max_scroll_y(s: EditorState) -> int {
    let h: int = if s.viewport.editor_height >= 1 {
        s.viewport.editor_height as int
    } else {
        1
    };
    let total = n_lines(s) * s.viewport.line_height;
    if total > h {
        total - h
    } else {
        0
    }
}

/// The vertical scroll offset after scrolling by `delta` pixels, kept
/// between the top and `max_scroll_y`.
pub open spec fn scrolled_y(s: EditorState, delta: i64) -> u64 {
    let v = s.content.scroll_y + delta;
    clamp_u64(
        if v < 0 {
            0
        } else if v > max_scroll_y(s) {
            max_scroll_y(s)
        } else {
            v
        },
    )
}

/// Scrolls the text vertically by `delta_y` pixels (mouse wheel), staying
/// between the first line at the top and the last line at the bottom.
pub fn scroll(state: &mut EditorState, delta_y: i64)
    requires
        old(state).wf(),
    ensures
        *final(state) == with_scroll_y(*old(state), scrolled_y(*old(state), delta_y)),
{
    let lines = state.content.buffer.len_lines();
    let lh = state.viewport.line_height;
    assert((lines as int) * (lh as int) <= 0xffff_ffff_ffff_ffffu128 * 0xffff_ffffu128)
        by (nonlinear_arith)
        requires
            lines <= 0xffff_ffff_ffff_ffffu64,
            lh <= 0xffff_ffffu32,
    ;
    let total: u128 = (lines as u128) * (lh as u128);
    let h: u128 = if state.viewport.editor_height >= 1 {
        state.viewport.editor_height as u128
    } else {
        1
    };
    let max_scroll: u128 = if total > h {
        total - h
    } else {
        0
    };
    let v: i128 = state.content.scroll_y as i128 + delta_y as i128;
    let c: u128 = if v < 0 {
        0
    } else if v as u128 > max_scroll {
        max_scroll
    } else {
        v as u128
    };
    let r: u64 = if c > u64::MAX as u128 {
        u64::MAX
    } else {
        c as u64
    };
    state.content.scroll_y = r;
}

/// Width of the text area: the editor width less the line numbers (60)
/// and padding (5), at least 1.
pub open spec fn text_visible_width(s: EditorState) -> int {
    if s.viewport.editor_width > 65 {
        s.viewport.editor_width - 65
    } else {
        1
    }
}

/// The horizontal scroll offset after scrolling by `delta` pixels, kept
/// between 0 and the width of the widest visible line (`widest_cols`
/// display columns) less the text area width.
pub open spec fn scrolled_x(s: EditorState, delta: i64, widest_cols: u64) -> u64 {
    let content = widest_cols * s.viewport.char_width;
    let max_x = if content > text_visible_width(s) {
        content - text_visible_width(s)
    } else {
        0
    };
    let v = s.content.scroll_x + delta;
    clamp_u64(
        if v < 0 {
            0
        } else if v > max_x {
            max_x
        } else {
            v
        },
    )
}

/// Scrolls the text horizontally by `delta_x` pixels.  `widest_cols` is
/// the display width, in columns, of the widest line in view.
pub fn scroll_horizontal(state: &mut EditorState, delta_x: i64, widest_cols: u64)
    ensures
        *final(state) == (EditorState {
            content: TabContent {
                scroll_x: scrolled_x(*old(state), delta_x, widest_cols),
                ..old(state).content
            },
            ..*old(state)
        }),
{
    let cw = state.viewport.char_width;
    assert((widest_cols as int) * (cw as int) <= 0xffff_ffff_ffff_ffffu128 * 0xffff_ffffu128)
        by (nonlinear_arith)
        requires
            widest_cols <= 0xffff_ffff_ffff_ffffu64,
            cw <= 0xffff_ffffu32,
    ;
    let content: u128 = (widest_cols as u128) * (cw as u128);
    let tvw: u128 = if state.viewport.editor_width > 65 {
        (state.viewport.editor_width - 65) as u128
    } else {
        1
    };
    let max_x: u128 = if content > tvw {
        content - tvw
    } else {
        0
    };
    let v: i128 = state.content.scroll_x as i128 + delta_x as i128;
    let c: u128 = if v < 0 {
        0
    } else if v as u128 > max_x {
        max_x
    } else {
        v as u128
    };
    let r: u64 = if c > u64::MAX as u128 {
        u64::MAX
    } else {
        c as u64
    };
    state.content.scroll_x = r;
}

/// The horizontal scroll offset that shows a cursor `cursor_cols` display
/// columns into its line: scrolled left to the cursor when it is left of
/// the view, or right so that it shows with one column to spare.
pub open spec fn visible_scroll_x(s: EditorState, cursor_cols: u64) -> u64 {
    let x = cursor_cols * s.viewport.char_width;
    let left = s.content.scroll_x as int;
    let right = left + text_visible_width(s);
    if x < left {
        clamp_u64(x)
    } else if x >= right {
        clamp_u64(x - text_visible_width(s) + s.viewport.char_width)
    } else {
        s.content.scroll_x
    }
}

/// Scrolls horizontally so that the cursor is visible; `cursor_cols` is
/// the display width, in columns, of the cursor line's text before the
/// cursor.
pub fn ensure_cursor_visible_horizontal(state: &mut EditorState, cursor_cols: u64)
    ensures
        *final(state) == (EditorState {
            content: TabContent {
                scroll_x: visible_scroll_x(*old(state), cursor_cols),
                ..old(state).content
            },
            ..*old(state)
        }),
{
    let cw = state.viewport.char_width;
    assert((cursor_cols as int) * (cw as int) <= 0xffff_ffff_ffff_ffffu128 * 0xffff_ffffu128)
        by (nonlinear_arith)
        requires
            cursor_cols <= 0xffff_ffff_ffff_ffffu64,
            cw <= 0xffff_ffffu32,
    ;
    let x: u128 = (cursor_cols as u128) * (cw as u128);
    let tvw: u128 = if state.viewport.editor_width > 65 {
        (state.viewport.editor_width - 65) as u128
    } else {
        1
    };
    let left = state.content.scroll_x as u128;
    let right = left + tvw;
    let v: u128 = if x < left {
        x
    } else if x >= right {
        x - tvw + cw as u128
    } else {
        left
    };
    let r: u64 = if v > u64::MAX as u128 {
        u64::MAX
    } else {
        v as u64
    };
    state.content.scroll_x = r;
}

/// The range `[start, end)` of lines visible in the content region; both
/// lie in the text's lines, `start` below the line count even when the
/// view is scrolled past the last line.
pub open spec fn spec_visible_line_range(s: EditorState) -> (int, int) {
    let lh = s.viewport.line_height as int;
    let height = if s.viewport.content_height >= lh {
        s.viewport.content_height as int
    } else {
        lh
    };
    let total = if n_lines(s) >= 1 {
        n_lines(s)
    } else {
        1
    };
    let start = (s.content.scroll_y as int) / lh;
    let visible = height / lh + 2;
    (min_int(start, total - 1), min_int(start + visible, total))
}

/// Lines visible in the content region, as `[start, end)` clamped to the text.
pub fn visible_line_range(state: &EditorState) -> (r: (usize, usize))
    requires
        state.wf(),
        state.viewport.line_height > 0,
    ensures
        r.0 as int == spec_visible_line_range(*state).0,
        r.1 as int == spec_visible_line_range(*state).1,
        r.0 <= r.1,
        r.0 < r.1,
{
    let lh = state.viewport.line_height as u64;
    let height = if state.viewport.content_height as u64 >= lh {
        state.viewport.content_height as u64
    } else {
        lh
    };
    let total = state.content.buffer.len_lines();
    let start = state.content.scroll_y / lh;
    let visible = height / lh + 2;
    let end_u: u64 = if start as u128 + visible as u128 >= total as u128 {
        total as u64
    } else {
        start + visible
    };
    let s = if start >= total as u64 {
        total - 1
    } else {
        start as usize
    };
    proof {
        assert(height / lh <= height);
    }
    (s, end_u as usize)
}

/// `true` when `offsets` holds the top of each of `n` lines `lh` pixels high.
pub open spec fn line_offsets_ok(offsets: Seq<u64>, n: int, lh: u32) -> bool {
    offsets.len() == n && forall|i: int| 0 <= i < n ==> offsets[i] == clamp_u64(i * lh)
}

/// Rebuilds the cached top offset of every line (skipped when the line count is unchanged).
pub fn rebuild_line_y_offsets(state: &mut EditorState)
    requires
        old(state).wf(),
    ensures
        ({
            let o = old(state);
            let n = n_lines(*o);
            if o.content.line_y_offsets_cached_lines == n && o.content.line_y_offsets@.len() > 0 {
                *final(state) == *o
            } else {
                &&& line_offsets_ok(
                    final(state).content.line_y_offsets@,
                    n,
                    o.viewport.line_height,
                )
                &&& *final(state) == (EditorState {
                    content: TabContent {
                        line_y_offsets: final(state).content.line_y_offsets,
                        line_y_offsets_cached_lines: n as usize,
                        ..o.content
                    },
                    ..*o
                })
            }
        }),
{
    let total_lines = state.content.buffer.len_lines();
    if state.content.line_y_offsets_cached_lines == total_lines
        && state.content.line_y_offsets.len() > 0 {
        return ;
    }
    state.content.line_y_offsets_cached_lines = total_lines;
    let lh = state.viewport.line_height;
    let mut offsets: Vec<u64> = Vec::with_capacity(total_lines);
    let mut y: u64 = 0;
    let mut i: usize = 0;
    while i < total_lines
        invariant
            i <= total_lines,
            offsets@.len() == i,
            y == clamp_u64(i * lh),
            forall|j: int| 0 <= j < i ==> offsets@[j] == clamp_u64(j * lh),
        decreases total_lines - i,
    {
        offsets.push(y);
        y = if y <= u64::MAX - lh as u64 {
            y + lh as u64
        } else {
            u64::MAX
        };
        proof {
            assert((i + 1) * lh == i * lh + lh) by (nonlinear_arith);
            assert(i * lh >= 0) by (nonlinear_arith);
        }
        i = i + 1;
    }
    state.content.line_y_offsets = offsets;
}

// ---------------------------------------------------------------------------
// Cursor motions
// ---------------------------------------------------------------------------
/// Moves the cursor one char left, or to the end of the previous line.
pub fn move_cursor_left(state: &mut EditorState)
    requires
        old(state).wf(),
    ensures
        *final(state) == spec_move_left(*old(state)),
{
    let line = state.content.cursor_line;
    let col = state.content.cursor_col;
    if col > 0 {
        if let Some(text) = state.content.buffer.get_line(line) {
            let c = if col < text.len() {
                col
            } else {
                text.len()
            };
            let fc = crate::chars::floor_char_boundary(&text, c);
            if fc > 0 {
                let (_, p) = crate::motion::prev_char(&text, fc);
                state.content.cursor_col = p;
            } else {
                state.content.cursor_col = 0;
            }
        }
    } else if line > 0 {
        state.content.cursor_line = line - 1;
        if let Some(text) = state.content.buffer.get_line(line - 1) {
            state.content.cursor_col = text.len();
        }
    }
}

/// Moves the cursor one char right, or to the start of the next line.
pub fn move_cursor_right(state: &mut EditorState)
    requires
        old(state).wf(),
        right_ok(*old(state)),
    ensures
        *final(state) == spec_move_right(*old(state)),
{
    let line = state.content.cursor_line;
    let col = state.content.cursor_col;
    if let Some(text) = state.content.buffer.get_line(line) {
        if col < text.len() {
            let (_, np) = next_char(&text, col);
            state.content.cursor_col = np;
        } else if line < state.content.buffer.len_lines() - 1 {
            state.content.cursor_line = line + 1;
            state.content.cursor_col = 0;
        }
    }
}

/// Moves the cursor one line up (column clamped to the line) and keeps it visible.
pub fn move_cursor_up(state: &mut EditorState)
    requires
        old(state).wf(),
    ensures
        *final(state) == spec_move_up(*old(state)),
{
    let line = state.content.cursor_line;
    if line > 0 {
        state.content.cursor_line = line - 1;
        if let Some(len) = state.content.buffer.line_len(line - 1) {
            if len < state.content.cursor_col {
                state.content.cursor_col = len;
            }
        }
    }
    ensure_cursor_visible_vertical(state);
}

/// Moves the cursor one line down (column clamped to the line) and keeps it visible.
pub fn move_cursor_down(state: &mut EditorState)
    requires
        old(state).wf(),
    ensures
        *final(state) == spec_move_down(*old(state)),
{
    let line = state.content.cursor_line;
    if line < state.content.buffer.len_lines() - 1 {
        state.content.cursor_line = line + 1;
        if let Some(len) = state.content.buffer.line_len(line + 1) {
            if len < state.content.cursor_col {
                state.content.cursor_col = len;
            }
        }
    }
    ensure_cursor_visible_vertical(state);
}

/// Moves the cursor to the start of the line.
pub fn move_cursor_home(state: &mut EditorState)
    ensures
        *final(state) == with_col(*old(state), 0),
{
    state.content.cursor_col = 0;
}

/// Moves the cursor to the end of the line.
pub fn move_cursor_end(state: &mut EditorState)
    requires
        old(state).wf(),
    ensures
        *final(state) == spec_move_end(*old(state)),
{
    if let Some(len) = state.content.buffer.line_len(state.content.cursor_line) {
        state.content.cursor_col = len;
    }
}

/// Smart Home: to the first non-white-space char of the line, or to column 0
/// when the cursor is already there (`already_at_smart_home`).
pub fn move_cursor_smart_home(state: &mut EditorState, already_at_smart_home: bool)
    requires
        old(state).wf(),
    ensures
        *final(state) == spec_move_smart_home(*old(state), already_at_smart_home),
{
    if already_at_smart_home {
        state.content.cursor_col = 0;
        return ;
    }
    if let Some(text) = state.content.buffer.get_line(state.content.cursor_line) {
        state.content.cursor_col = skip_fwd(&text, 0, false);
    }
}

/// Moves the cursor to the start of the text.
pub fn move_cursor_file_start(state: &mut EditorState)
    ensures
        *final(state) == with_cursor(*old(state), 0, 0),
{
    state.content.cursor_line = 0;
    state.content.cursor_col = 0;
}

/// Moves the cursor to the end of the last line.
pub fn move_cursor_file_end(state: &mut EditorState)
    requires
        old(state).wf(),
    ensures
        *final(state) == spec_move_file_end(*old(state)),
{
    let last = state.content.buffer.len_lines() - 1;
    state.content.cursor_line = last;
    if let Some(len) = state.content.buffer.line_len(last) {
        state.content.cursor_col = len;
    }
}

/// Moves the cursor one word left: back over white space, then over a word
/// (or over one other char); from a missing line, to the end of the previous line.
pub fn move_cursor_word_left(state: &mut EditorState)
    requires
        old(state).wf(),
    ensures
        *final(state) == spec_move_word_left(*old(state)),
{
    let line = state.content.cursor_line;
    if let Some(text) = state.content.buffer.get_line(line) {
        state.content.cursor_col = word_left(&text, state.content.cursor_col);
    } else if line > 0 {
        state.content.cursor_line = line - 1;
        move_cursor_end(state);
    }
}

/// Moves the cursor one word right: forward over white space, then over a
/// word (or over one other char).
pub fn move_cursor_word_right(state: &mut EditorState)
    requires
        old(state).wf(),
    ensures
        *final(state) == spec_move_word_right(*old(state)),
{
    let line = state.content.cursor_line;
    if let Some(text) = state.content.buffer.get_line(line) {
        state.content.cursor_col = word_right(&text, state.content.cursor_col);
    } else if line < state.content.buffer.len_lines() - 1 {
        state.content.cursor_line = line + 1;
        state.content.cursor_col = 0;
    }
}

/// Byte offset reached from `p` after stepping over `k` chars (stopping at the end).
pub open spec fn advance_chars(s: Seq<u8>, p: int, k: nat) -> int
    decreases k,
{
    if k == 0 || p >= s.len() || p < 0 {
        p
    } else {
        advance_chars(s, next_boundary(s, p), (k - 1) as nat)
    }
}

/// Line and column that `goto_position(line, column)` (1-based, clamped) moves to.
pub open spec fn goto_target(s: EditorState, line: usize, column: usize) -> (usize, usize) {
    let max_line = n_lines(s) - 1;
    let tl = min_int(if line >= 1 {
        line - 1
    } else {
        0
    }, max_line);
    let text = line_of(s, tl);
    let k: nat = if column >= 1 {
        (column - 1) as nat
    } else {
        0
    };
    let tc = min_int(advance_chars(text, 0, k), text.len() as int);
    (tl as usize, tc as usize)
}

/// Byte offset of the `k`-th char of line `s` (its length when it has fewer chars).
pub fn char_offset_to_byte_offset(s: &[u8], k: usize) -> (r: usize)
    ensures
        r == advance_chars(s@, 0, k as nat),
        r <= s@.len(),
{
    let mut p: usize = 0;
    let mut left = k;
    while left > 0 && p < s.len()
        invariant
            p <= s@.len(),
            left <= k,
            advance_chars(s@, p as int, left as nat) == advance_chars(s@, 0, k as nat),
        decreases left,
    {
        let (_, np) = next_char(s, p);
        p = np;
        left = left - 1;
    }
    p
}

/// Jumps to the 1-based `line` and `column` (both clamped to the text),
/// clears the selection, shows the same cursor in the active file tab and
/// scrolls vertically so that the line is visible.
#[verifier::spinoff_prover]
#[verifier::rlimit(40)]
pub fn goto_position(state: &mut EditorState, line: usize, column: usize)
    requires
        old(state).wf(),
    ensures
        ({
            let o = *old(state);
            let (tl, tc) = goto_target(o, line, column);
            let moved = with_selection(with_cursor(o, tl, tc), None, None);
            let f = *final(state);
            &&& f.content == spec_ensure_vertical(moved).content
            &&& f.tab_bar.active_tab == o.tab_bar.active_tab
            &&& f.tab_bar.tabs@.len() == o.tab_bar.tabs@.len()
            &&& forall|i: int|
                0 <= i < o.tab_bar.tabs@.len() ==> #[trigger] f.tab_bar.tabs@[i] == (
                if i == o.tab_bar.active_tab {
                    match o.tab_bar.tabs@[i] {
                        Tab::File(c) => Tab::File(
                            TabContent {
                                cursor_line: tl,
                                cursor_col: tc,
                                selection_start: None,
                                selection_end: None,
                                ..c
                            },
                        ),
                        t => t,
                    }
                } else {
                    o.tab_bar.tabs@[i]
                })
            &&& f.find == o.find
            &&& f.multi_cursor == o.multi_cursor
            &&& f.is_selecting == o.is_selecting
            &&& f.viewport == o.viewport
            &&& f.status == o.status
            &&& f.agent_mode == o.agent_mode
            &&& f.right_panel_visible == o.right_panel_visible
            &&& f.new_project_dialog == o.new_project_dialog
        }),
{
    let max_line = state.content.buffer.len_lines() - 1;
    let l1 = if line >= 1 {
        line - 1
    } else {
        0
    };
    let target_line = if l1 < max_line {
        l1
    } else {
        max_line
    };
    let text = match state.content.buffer.get_line(target_line) {
        Some(t) => t,
        None => Vec::new(),
    };
    let k = if column >= 1 {
        column - 1
    } else {
        0
    };
    let off = char_offset_to_byte_offset(&text, k);
    let target_col = if off < text.len() {
        off
    } else {
        text.len()
    };
    state.content.cursor_line = target_line;
    state.content.cursor_col = target_col;
    state.content.selection_start = None;
    state.content.selection_end = None;
    let i = state.tab_bar.active_tab;
    if i < state.tab_bar.tabs.len() {
        match &mut state.tab_bar.tabs[i] {
            Tab::File(c) => {
                c.cursor_line = target_line;
                c.cursor_col = target_col;
                c.selection_start = None;
                c.selection_end = None;
            },
            _ => {},
        }
    }
    ensure_cursor_visible_vertical(state);
}

// ---------------------------------------------------------------------------
// Extra cursors
// ---------------------------------------------------------------------------
fn add_cursor_and_move(state: &mut EditorState, line: usize, col: usize)
    ensures
        multi_cursor_added(*old(state), *final(state), line, col),
{
    state.multi_cursor.add_cursor(Cursor::new(line, col));
    state.content.cursor_line = line;
    state.content.cursor_col = col;
    state.status = StatusMessage::CursorAdded(state.multi_cursor.cursor_count());
}

/// Adds a cursor on the next line at the same column (clamped to that line)
/// and moves the cursor there.
pub fn add_cursor_line_below(state: &mut EditorState)
    requires
        old(state).wf(),
    ensures
        ({
            let o = *old(state);
            let line = o.content.cursor_line;
            let col = o.content.cursor_col;
            if line + 1 < n_lines(o) {
                let nl = (line + 1) as usize;
                multi_cursor_added(
                    o,
                    *final(state),
                    nl,
                    min_int(col as int, line_of(o, nl as int).len() as int) as usize,
                )
            } else {
                *final(state) == o
            }
        }),
{
    let line = state.content.cursor_line;
    let col = state.content.cursor_col;
    if line < state.content.buffer.len_lines() - 1 {
        let new_line = line + 1;
        let max_col = match state.content.buffer.line_len(new_line) {
            Some(l) => l,
            None => col,
        };
        let c = if col < max_col {
            col
        } else {
            max_col
        };
        add_cursor_and_move(state, new_line, c);
    }
}

/// Adds a cursor on the previous line at the same column (clamped to that
/// line) and moves the cursor there.
pub fn add_cursor_line_above(state: &mut EditorState)
    requires
        old(state).wf(),
    ensures
        ({
            let o = *old(state);
            let line = o.content.cursor_line;
            let col = o.content.cursor_col;
            if line > 0 {
                let nl = (line - 1) as usize;
                let max_col = if nl < n_lines(o) {
                    line_of(o, nl as int).len() as int
                } else {
                    col as int
                };
                multi_cursor_added(o, *final(state), nl, min_int(col as int, max_col) as usize)
            } else {
                *final(state) == o
            }
        }),
{
    let line = state.content.cursor_line;
    let col = state.content.cursor_col;
    if line > 0 {
        let new_line = line - 1;
        let max_col = match state.content.buffer.line_len(new_line) {
            Some(l) => l,
            None => col,
        };
        let c = if col < max_col {
            col
        } else {
            max_col
        };
        add_cursor_and_move(state, new_line, c);
    }
}

/// The text Ctrl+D searches for and where it ends (see `spec_search_text`
/// and `spec_search_end`).
fn search_target(state: &EditorState) -> (r: (Vec<u8>, usize))
    requires
        state.wf(),
    ensures
        r.0@ == spec_search_text(*state),
        r.1 == spec_search_end(*state),
        r.1 <= state.content.buffer@.len(),
{
    let b = &state.content.buffer;
    match (state.content.selection_start, state.content.selection_end) {
        (Some((sl, sc)), Some((el, ec))) => {
            if sl == el {
                let s = line_col_to_byte(state, sl, sc);
                let e = line_col_to_byte(state, el, ec);
                if s < e {
                    (b.get_text(s, e), e)
                } else {
                    (Vec::new(), 0)
                }
            } else {
                (Vec::new(), 0)
            }
        },
        _ => {
            let line = state.content.cursor_line;
            match b.get_line(line) {
                Some(text) => {
                    match word_range_at(&text, state.content.cursor_col) {
                        Some((ws, we)) => {
                            proof {
                                crate::motion::lemma_word_around_bounds(
                                    text@,
                                    state.content.cursor_col as int,
                                );
                                b.lemma_lines();
                            }
                            let ls = b.line_start_byte(line);
                            (crate::text_buffer::copy_range(&text, ws, we), ls + we)
                        },
                        None => (Vec::new(), 0),
                    }
                },
                None => (Vec::new(), 0),
            }
        },
    }
}

/// `f` is `o` after Ctrl+D: when the searched text (see `spec_search_text`)
/// occurs after its own end (`spec_search_end`), a cursor is added at the
/// next occurrence, the cursor moves there and that occurrence is selected;
/// otherwise nothing changes.
pub open spec fn next_occurrence_added(o: EditorState, f: EditorState) -> bool {
    let needle = spec_search_text(o);
    let from = spec_search_end(o);
    let after = clamped_range(o.content.buffer@, from, o.content.buffer@.len() as int);
    if needle.len() == 0 {
        f == o
    } else {
        match first_match(after, needle) {
            None => f == o,
            Some(rel) => {
                let line = f.content.cursor_line;
                let col = f.content.cursor_col;
                &&& is_line_col_of(o.content.buffer, from + rel, line as int, col as int)
                &&& multi_cursor_added(
                    o,
                    with_selection(f, o.content.selection_start, o.content.selection_end),
                    line,
                    col,
                )
                &&& f.content.selection_start == Some((line, col))
                &&& f.content.selection_end == Some((line, (col + needle.len()) as usize))
            },
        }
    }
}

/// Ctrl+D: finds the next occurrence of the selection (one line) or of the
/// word at the cursor, searching from the end of that selection or word,
/// adds a cursor there, moves the cursor to it and selects it (see
/// `next_occurrence_added`).
pub fn add_cursor_at_next_occurrence(state: &mut EditorState)
    requires
        old(state).wf(),
    ensures
        next_occurrence_added(*old(state), *final(state)),
{
    let (needle, start_byte) = search_target(state);
    if needle.len() == 0 {
        return ;
    }
    let total_bytes = state.content.buffer.len_bytes();
    let text_after = state.content.buffer.get_text(start_byte, total_bytes);
    if let Some(rel) = find_bytes(&text_after, &needle) {
        proof {
            lemma_first_match_from(text_after@, needle@, 0);
        }
        let abs = start_byte + rel;
        let (line, col) = byte_to_line_col(state, abs);
        proof {
            state.content.buffer.lemma_lines();
        }
        add_cursor_and_move(state, line, col);
        state.content.selection_start = Some((line, col));
        state.content.selection_end = Some((line, col + needle.len()));
    }
}

// ---------------------------------------------------------------------------
// Selection
// ---------------------------------------------------------------------------
/// Starts a mouse selection at the cursor.
pub fn start_selection(state: &mut EditorState)
    ensures
        ({
            let o = *old(state);
            let at = Some((o.content.cursor_line, o.content.cursor_col));
            *final(state) == EditorState { is_selecting: true, ..with_selection(o, at, at) }
        }),
{
    let at = Some((state.content.cursor_line, state.content.cursor_col));
    state.content.selection_start = at;
    state.content.selection_end = at;
    state.is_selecting = true;
}

/// Extends a running selection to the cursor.
pub fn update_selection(state: &mut EditorState)
    ensures
        ({
            let o = *old(state);
            if o.is_selecting {
                *final(state) == with_selection(
                    o,
                    o.content.selection_start,
                    Some((o.content.cursor_line, o.content.cursor_col)),
                )
            } else {
                *final(state) == o
            }
        }),
{
    if state.is_selecting {
        state.content.selection_end = Some((state.content.cursor_line, state.content.cursor_col));
    }
}

/// Ends a running selection (the selection stays).
pub fn end_selection(state: &mut EditorState)
    ensures
        *final(state) == (EditorState { is_selecting: false, ..*old(state) }),
{
    state.is_selecting = false;
}

/// Removes the selection.
pub fn clear_selection(state: &mut EditorState)
    ensures
        *final(state) == with_selection(*old(state), None, None),
{
    state.content.selection_start = None;
    state.content.selection_end = None;
}

impl EditorState {
    /// Byte offset at which line `line_idx` starts (the text length past the last line).
    pub fn line_byte_start(&self, line_idx: usize) -> (r: usize)
        requires
            self.wf(),
        ensures
            r == self.content.buffer.line_start_or_end(line_idx as int),
            r <= self.content.buffer@.len(),
    {
        line_byte_start(self, line_idx)
    }

    /// Byte offset of the cursor: start of the cursor line plus the cursor column.
    pub fn cursor_byte_pos(&self) -> (r: usize)
        requires
            self.wf(),
            spec_cursor_byte_pos(*self) <= usize::MAX,
        ensures
            r == spec_cursor_byte_pos(*self),
    {
        cursor_byte_pos(self)
    }

    /// Converts a line and column to a byte offset (the column is clamped to the line).
    pub fn line_col_to_byte(&self, line: usize, col: usize) -> (r: usize)
        requires
            self.wf(),
        ensures
            r == spec_line_col_to_byte(self.content.buffer, line as int, col as int),
            r <= self.content.buffer@.len(),
    {
        line_col_to_byte(self, line, col)
    }

    /// Converts a byte offset to (line, column).
    pub fn byte_to_line_col(&self, byte: usize) -> (r: (usize, usize))
        requires
            self.wf(),
        ensures
            is_line_col_of(self.content.buffer, byte as int, r.0 as int, r.1 as int),
    {
        byte_to_line_col(self, byte)
    }

    /// The char boundary before byte offset `pos` of the whole text.
    pub fn find_prev_char_boundary(&self, pos: usize) -> (r: usize)
        ensures
            r == (if pos == 0 {
                0
            } else if pos - 1 >= self.content.buffer@.len() {
                (pos - 1) as int
            } else {
                floor_boundary(self.content.buffer@, pos - 1)
            }),
    {
        find_prev_char_boundary(self, pos)
    }

    /// The char boundary after byte offset `pos` of the whole text.
    pub fn find_next_char_boundary(&self, pos: usize) -> (r: usize)
        ensures
            r == (if pos >= self.content.buffer@.len() {
                self.content.buffer@.len() as int
            } else {
                ceil_boundary(self.content.buffer@, pos + 1)
            }),
    {
        find_next_char_boundary(self, pos)
    }

    /// Lines visible in the content region, as `[start, end)` clamped to the text.
    pub fn visible_line_range(&self) -> (r: (usize, usize))
        requires
            self.wf(),
            self.viewport.line_height > 0,
        ensures
            r.0 as int == spec_visible_line_range(*self).0,
            r.1 as int == spec_visible_line_range(*self).1,
            r.0 <= r.1,
    {
        visible_line_range(self)
    }

    /// Rebuilds the cached top offset of every line.
    pub fn rebuild_line_y_offsets(&mut self)
        requires
            old(self).wf(),
        ensures
            ({
                let o = old(self);
                let n = n_lines(*o);
                if o.content.line_y_offsets_cached_lines == n && o.content.line_y_offsets@.len()
                    > 0 {
                    *final(self) == *o
                } else {
                    &&& line_offsets_ok(
                        final(self).content.line_y_offsets@,
                        n,
                        o.viewport.line_height,
                    )
                    &&& *final(self) == (EditorState {
                        content: TabContent {
                            line_y_offsets: final(self).content.line_y_offsets,
                            line_y_offsets_cached_lines: n as usize,
                            ..o.content
                        },
                        ..*o
                    })
                }
            }),
    {
        rebuild_line_y_offsets(self)
    }

    /// Resets the horizontal scroll.
    pub fn reset_scroll_x(&mut self)
        ensures
            *final(self) == (EditorState {
                content: TabContent { scroll_x: 0, ..old(self).content },
                ..*old(self)
            }),
    {
        reset_scroll_x(self)
    }

    /// Scrolls vertically so that the cursor line is visible.
    pub fn ensure_cursor_visible_vertical(&mut self)
        ensures
            *final(self) == spec_ensure_vertical(*old(self)),
    {
        ensure_cursor_visible_vertical(self)
    }

    /// Jumps to the 1-based `line` and `column` (see the free function).
    pub fn goto_position(&mut self, line: usize, column: usize)
        requires
            old(self).wf(),
        ensures
            ({
                let o = *old(self);
                let (tl, tc) = goto_target(o, line, column);
                let moved = with_selection(with_cursor(o, tl, tc), None, None);
                let f = *final(self);
                &&& f.content == spec_ensure_vertical(moved).content
                &&& f.tab_bar.active_tab == o.tab_bar.active_tab
                &&& f.tab_bar.tabs@.len() == o.tab_bar.tabs@.len()
                &&& forall|i: int|
                    0 <= i < o.tab_bar.tabs@.len() ==> #[trigger] f.tab_bar.tabs@[i] == (
                    if i == o.tab_bar.active_tab {
                        match o.tab_bar.tabs@[i] {
                            Tab::File(c) => Tab::File(
                                TabContent {
                                    cursor_line: tl,
                                    cursor_col: tc,
                                    selection_start: None,
                                    selection_end: None,
                                    ..c
                                },
                            ),
                            t => t,
                        }
                    } else {
                        o.tab_bar.tabs@[i]
                    })
                &&& f.find == o.find
                &&& f.multi_cursor == o.multi_cursor
                &&& f.is_selecting == o.is_selecting
                &&& f.viewport == o.viewport
                &&& f.status == o.status
                &&& f.agent_mode == o.agent_mode
                &&& f.right_panel_visible == o.right_panel_visible
                &&& f.new_project_dialog == o.new_project_dialog
            }),
    {
        goto_position(self, line, column)
    }

    pub fn move_cursor_left(&mut self)
        requires
            old(self).wf(),
        ensures
            *final(self) == spec_move_left(*old(self)),
    {
        move_cursor_left(self)
    }

    pub fn move_cursor_right(&mut self)
        requires
            old(self).wf(),
            right_ok(*old(self)),
        ensures
            *final(self) == spec_move_right(*old(self)),
    {
        move_cursor_right(self)
    }

    pub fn move_cursor_up(&mut self)
        requires
            old(self).wf(),
        ensures
            *final(self) == spec_move_up(*old(self)),
    {
        move_cursor_up(self)
    }

    pub fn move_cursor_down(&mut self)
        requires
            old(self).wf(),
        ensures
            *final(self) == spec_move_down(*old(self)),
    {
        move_cursor_down(self)
    }

    pub fn move_cursor_home(&mut self)
        ensures
            *final(self) == with_col(*old(self), 0),
    {
        move_cursor_home(self)
    }

    pub fn move_cursor_end(&mut self)
        requires
            old(self).wf(),
        ensures
            *final(self) == spec_move_end(*old(self)),
    {
        move_cursor_end(self)
    }

    /// Smart Home (see the free function).
    pub fn move_cursor_smart_home(&mut self, already_at_smart_home: bool)
        requires
            old(self).wf(),
        ensures
            *final(self) == spec_move_smart_home(*old(self), already_at_smart_home),
    {
        move_cursor_smart_home(self, already_at_smart_home)
    }

    pub fn move_cursor_file_start(&mut self)
        ensures
            *final(self) == with_cursor(*old(self), 0, 0),
    {
        move_cursor_file_start(self)
    }

    pub fn move_cursor_file_end(&mut self)
        requires
            old(self).wf(),
        ensures
            *final(self) == spec_move_file_end(*old(self)),
    {
        move_cursor_file_end(self)
    }

    pub fn move_cursor_word_left(&mut self)
        requires
            old(self).wf(),
        ensures
            *final(self) == spec_move_word_left(*old(self)),
    {
        move_cursor_word_left(self)
    }

    pub fn move_cursor_word_right(&mut self)
        requires
            old(self).wf(),
        ensures
            *final(self) == spec_move_word_right(*old(self)),
    {
        move_cursor_word_right(self)
    }

    /// Adds a cursor on the next line (see the free function).
    pub fn add_cursor_line_below(&mut self)
        requires
            old(self).wf(),
        ensures
            ({
                let o = *old(self);
                let line = o.content.cursor_line;
                let col = o.content.cursor_col;
                if line + 1 < n_lines(o) {
                    let nl = (line + 1) as usize;
                    multi_cursor_added(
                        o,
                        *final(self),
                        nl,
                        min_int(col as int, line_of(o, nl as int).len() as int) as usize,
                    )
                } else {
                    *final(self) == o
                }
            }),
    {
        add_cursor_line_below(self)
    }

    /// Adds a cursor on the previous line (see the free function).
    pub fn add_cursor_line_above(&mut self)
        requires
            old(self).wf(),
        ensures
            ({
                let o = *old(self);
                let line = o.content.cursor_line;
                let col = o.content.cursor_col;
                if line > 0 {
                    let nl = (line - 1) as usize;
                    let max_col = if nl < n_lines(o) {
                        line_of(o, nl as int).len() as int
                    } else {
                        col as int
                    };
                    multi_cursor_added(o, *final(self), nl, min_int(col as int, max_col) as usize)
                } else {
                    *final(self) == o
                }
            }),
    {
        add_cursor_line_above(self)
    }

    /// Ctrl+D (see the free function).
    pub fn add_cursor_at_next_occurrence(&mut self)
        requires
            old(self).wf(),
        ensures
            next_occurrence_added(*old(self), *final(self)),
    {
        add_cursor_at_next_occurrence(self)
    }

    pub fn start_selection(&mut self)
        ensures
            ({
                let o = *old(self);
                let at = Some((o.content.cursor_line, o.content.cursor_col));
                *final(self) == EditorState { is_selecting: true, ..with_selection(o, at, at) }
            }),
    {
        start_selection(self)
    }

    pub fn update_selection(&mut self)
        ensures
            ({
                let o = *old(self);
                if o.is_selecting {
                    *final(self) == with_selection(
                        o,
                        o.content.selection_start,
                        Some((o.content.cursor_line, o.content.cursor_col)),
                    )
                } else {
                    *final(self) == o
                }
            }),
    {
        update_selection(self)
    }

    pub fn end_selection(&mut self)
        ensures
            *final(self) == (EditorState { is_selecting: false, ..*old(self) }),
    {
        end_selection(self)
    }

    pub fn clear_selection(&mut self)
        ensures
            *final(self) == with_selection(*old(self), None, None),
    {
        clear_selection(self)
    }
}

/// After scrolling the cursor line into view, the whole line lies inside the
/// editor region, provided a line fits in the region and the line's bottom
/// edge fits in a `u64`.
pub proof fn law_ensure_vertical_shows_cursor_line(s: EditorState)
    requires
        0 < s.viewport.line_height <= s.viewport.editor_height,
        s.content.cursor_line * s.viewport.line_height + s.viewport.line_height <= u64::MAX,
    ensures
        ({
            let f = spec_ensure_vertical(s);
            let top = s.content.cursor_line * s.viewport.line_height;
            &&& f.content.scroll_y <= top
            &&& top + s.viewport.line_height <= f.content.scroll_y + s.viewport.editor_height
        }),
{
}

/// Scrolling the cursor line into view a second time changes nothing.
pub proof fn law_ensure_vertical_idempotent(s: EditorState)
    requires
        0 < s.viewport.line_height <= s.viewport.editor_height,
        s.content.cursor_line * s.viewport.line_height + s.viewport.line_height <= u64::MAX,
    ensures
        spec_ensure_vertical(spec_ensure_vertical(s)) == spec_ensure_vertical(s),
{
}

impl EditorState {
    /// Scrolls vertically by `delta_y` pixels (see the free function).
    pub fn scroll(&mut self, delta_y: i64)
        requires
            old(self).wf(),
        ensures
            *final(self) == with_scroll_y(*old(self), scrolled_y(*old(self), delta_y)),
    {
        scroll(self, delta_y)
    }

    /// Scrolls horizontally by `delta_x` pixels (see the free function).
    pub fn scroll_horizontal(&mut self, delta_x: i64, widest_cols: u64)
        ensures
            *final(self) == (EditorState {
                content: TabContent {
                    scroll_x: scrolled_x(*old(self), delta_x, widest_cols),
                    ..old(self).content
                },
                ..*old(self)
            }),
    {
        scroll_horizontal(self, delta_x, widest_cols)
    }

    /// Scrolls horizontally so that the cursor is visible (see the free function).
    pub fn ensure_cursor_visible_horizontal(&mut self, cursor_cols: u64)
        ensures
            *final(self) == (EditorState {
                content: TabContent {
                    scroll_x: visible_scroll_x(*old(self), cursor_cols),
                    ..old(self).content
                },
                ..*old(self)
            }),
    {
        ensure_cursor_visible_horizontal(self, cursor_cols)
    }
}

/// The byte range a double-click at column `col` of `line` selects: the
/// word (word chars around the first char starting at or after `col`), or
/// that one char when it is not a word char, or the last char when `col`
/// is at or past the end of the line.
pub open spec fn word_selection(line: Seq<u8>, col: int) -> (int, int) {
    let n = line.len() as int;
    let p = if col >= n {
        n
    } else {
        ceil_boundary(line, col)
    };
    if p >= n {
        (if n > 0 {
            crate::chars::prev_boundary(line, n)
        } else {
            0
        }, n)
    } else if word_at(line, p) {
        (skip_word_back(line, p), skip_word_fwd(line, p))
    } else {
        (p, next_boundary(line, p))
    }
}

/// `s` after a double-click selected the word at its cursor.
pub open spec fn spec_select_word_at_cursor(s: EditorState) -> EditorState {
    let line = s.content.cursor_line;
    if line < n_lines(s) {
        let (a, b) = word_selection(line_of(s, line as int), s.content.cursor_col as int);
        EditorState {
            content: TabContent {
                cursor_col: b as usize,
                selection_start: Some((line, a as usize)),
                selection_end: Some((line, b as usize)),
                ..s.content
            },
            is_selecting: false,
            ..s
        }
    } else {
        s
    }
}

/// Double-click: selects the word under the cursor (a run of letters,
/// digits and `_`), or the one other char there, or the line's last char
/// when the cursor is at its end; the cursor goes to the selection's end.
pub fn select_word_at_cursor(state: &mut EditorState)
    requires
        old(state).wf(),
    ensures
        *final(state) == spec_select_word_at_cursor(*old(state)),
{
    let line_idx = state.content.cursor_line;
    let text = match state.content.buffer.get_line(line_idx) {
        Some(t) => t,
        None => {
            return ;
        },
    };
    let n = text.len();
    let col = state.content.cursor_col;
    let p = if col >= n {
        n
    } else {
        crate::chars::ceil_char_boundary(&text, col)
    };
    proof {
        lemma_ceil_boundary(text@, col as int);
    }
    let (a, b) = if p >= n {
        if n > 0 {
            let (_, q) = crate::motion::prev_char(&text, n);
            (q, n)
        } else {
            (0, 0)
        }
    } else {
        let (c, np) = crate::motion::next_char(&text, p);
        if crate::chars::word_char(c) {
            (skip_back(&text, p, true), skip_fwd(&text, p, true))
        } else {
            (p, np)
        }
    };
    state.content.selection_start = Some((line_idx, a));
    state.content.selection_end = Some((line_idx, b));
    state.content.cursor_col = b;
    state.is_selecting = false;
}

impl EditorState {
    /// Selects the word under the cursor (see the free function).
    pub fn select_word_at_cursor(&mut self)
        requires
            old(self).wf(),
        ensures
            *final(self) == spec_select_word_at_cursor(*old(self)),
    {
        select_word_at_cursor(self)
    }
}

/// The cursor is on a line of the text, at most at the line's end.
pub open spec fn cursor_in_text(s: EditorState) -> bool {
    &&& s.content.cursor_line < n_lines(s)
    &&& s.content.cursor_col <= line_of(s, s.content.cursor_line as int).len()
}

/// Every cursor motion keeps a cursor that is inside the text inside it.
#[verifier::spinoff_prover]
#[verifier::rlimit(40)]
pub proof fn law_motions_keep_cursor_in_text(s: EditorState, smart: bool)
    requires
        s.wf(),
        cursor_in_text(s),
    ensures
        cursor_in_text(spec_move_left(s)),
        right_ok(s) ==> cursor_in_text(spec_move_right(s)),
        cursor_in_text(spec_move_up(s)),
        cursor_in_text(spec_move_down(s)),
        cursor_in_text(with_col(s, 0)),
        cursor_in_text(spec_move_end(s)),
        cursor_in_text(spec_move_smart_home(s, smart)),
        cursor_in_text(with_cursor(s, 0, 0)),
        cursor_in_text(spec_move_file_end(s)),
        cursor_in_text(spec_move_word_left(s)),
        cursor_in_text(spec_move_word_right(s)),
{
    s.content.buffer.lemma_lines();
    let line = s.content.cursor_line as int;
    let col = s.content.cursor_col as int;
    let text = line_of(s, line);
    lemma_floor_boundary(text, min_int(col, text.len() as int));
    let fc = floor_boundary(text, min_int(col, text.len() as int));
    if fc > 0 {
        lemma_floor_boundary(text, fc - 1);
    }
    if col < text.len() {
        lemma_ceil_boundary(text, col + 1);
    }
    lemma_skip_fwd_bounds(text, 0);
    lemma_word_motion_bounds(text, col);
}

} // verus!
