//! Applying a code block produced by the assistant to the active tab: it
//! replaces the selection, or is inserted at the cursor, as one undoable
//! edit; and the file name a code block is saved under.
use vstd::prelude::*;
use vstd::string::StringExecFns;
use vstd::utf8::encode_utf8;

use crate::chars::lemma_encode_utf8_empty;
use crate::cursor::{clear_selection, cursor_byte_pos, line_byte_start, spec_cursor_byte_pos};
use crate::state::{undo_record, CursorPosition, EditHistory, EditorState, StatusMessage, TabContent};
use crate::search::{find_bytes, first_match};
use crate::text_buffer::NEWLINE;

verus! {

/// Carriage return.
pub const CARRIAGE_RETURN: u8 = 13;

/// Number of line feeds in `c`.
pub open spec fn count_newlines(c: Seq<u8>) -> nat
    decreases c.len(),
{
    if c.len() == 0 {
        0
    } else {
        count_newlines(c.drop_last()) + if c.last() == NEWLINE {
            1nat
        } else {
            0nat
        }
    }
}

/// Index of the last line feed in `c[0..end]`, or -1 when there is none.
pub open spec fn last_newline_before(c: Seq<u8>, end: int) -> int
    decreases end,
{
    if end <= 0 {
        -1
    } else if c[end - 1] == NEWLINE {
        end - 1
    } else {
        last_newline_before(c, end - 1)
    }
}

/// Number of lines of `c` as `str::lines` yields them: a final line feed
/// ends the last line instead of starting an empty one.
pub open spec fn code_line_count(c: Seq<u8>) -> nat {
    if c.len() == 0 {
        0
    } else if c.last() == NEWLINE {
        count_newlines(c)
    } else {
        count_newlines(c) + 1
    }
}

/// Length of the last line of `c` as `str::lines` yields it (a `\r` before
/// its line feed is not part of it).
pub open spec fn last_code_line_len(c: Seq<u8>) -> int {
    if c.len() > 0 && c.last() == NEWLINE {
        let e = c.len() - 1;
        let s = last_newline_before(c, e) + 1;
        if e > s && c[e - 1] == CARRIAGE_RETURN {
            e - s - 1
        } else {
            e - s
        }
    } else {
        c.len() - (last_newline_before(c, c.len() as int) + 1)
    }
}

/// Length of the text after the last line feed of `c`.
pub open spec fn tail_after_last_newline(c: Seq<u8>) -> int {
    c.len() - (last_newline_before(c, c.len() as int) + 1)
}

/// Byte offset of a (line, column) position: line start plus column.
pub open spec fn pos_byte(s: EditorState, p: (usize, usize)) -> int {
    s.content.buffer.line_start_or_end(p.0 as int) + p.1
}

/// `a` comes before or at `b` (line first, then column).
pub open spec fn pos_le(a: (usize, usize), b: (usize, usize)) -> bool {
    a.0 < b.0 || (a.0 == b.0 && a.1 <= b.1)
}

/// The selection, first end first, when both ends are set.
pub open spec fn ordered_selection(s: EditorState) -> Option<((usize, usize), (usize, usize))> {
    match (s.content.selection_start, s.content.selection_end) {
        (Some(a), Some(b)) => if pos_le(a, b) {
            Some((a, b))
        } else {
            Some((b, a))
        },
        _ => None,
    }
}

/// The history with one more record, of the given fields, in the open group.
pub open spec fn history_appended(
    o: EditHistory,
    n: EditHistory,
    pos: int,
    removed: Seq<u8>,
    inserted: Seq<u8>,
    before: CursorPosition,
    after: CursorPosition,
) -> bool {
    &&& n.open_group == o.open_group
    &&& n.groups_opened == o.groups_opened
    &&& n.records@.len() == o.records@.len() + 1
    &&& forall|i: int| 0 <= i < o.records@.len() ==> n.records@[i] == o.records@[i]
    &&& n.records@.last().pos == pos
    &&& n.records@.last().removed@ == removed
    &&& n.records@.last().inserted@ == inserted
    &&& n.records@.last().cursor_before == before
    &&& n.records@.last().cursor_after == after
    &&& n.records@.last().group == o.open_group
}

/// The edit fits the machine: the selection to replace is a range of the
/// text and the new text, cursor and version stay in range.
pub open spec fn apply_ai_code_fits(s: EditorState, c: Seq<u8>) -> bool {
    let len = s.content.buffer@.len() as int;
    &&& s.content.buffer_version < u64::MAX
    &&& match ordered_selection(s) {
        Some((a, b)) => {
            &&& pos_byte(s, a) <= pos_byte(s, b) <= len
            &&& len - (pos_byte(s, b) - pos_byte(s, a)) + c.len() <= usize::MAX
            &&& a.0 + code_line_count(c) <= usize::MAX
            &&& a.1 + c.len() <= usize::MAX
        },
        None => {
            &&& spec_cursor_byte_pos(s) <= len
            &&& len + c.len() <= usize::MAX
            &&& s.content.cursor_line + count_newlines(c) <= usize::MAX
            &&& s.content.cursor_col + c.len() <= usize::MAX
        },
    }
}

/// Cursor after replacing the selection starting at `a` by `c`.
pub open spec fn cursor_after_replace(a: (usize, usize), c: Seq<u8>) -> (int, int) {
    let n = code_line_count(c);
    (
        a.0 + if n >= 1 {
            n - 1
        } else {
            0
        },
        if n <= 1 {
            a.1 + c.len()
        } else {
            last_code_line_len(c)
        },
    )
}

/// Cursor after inserting `c` at (`line`, `col`).
pub open spec fn cursor_after_insert(line: usize, col: usize, c: Seq<u8>) -> (int, int) {
    let k = count_newlines(c);
    if k == 0 {
        (line as int, col + c.len())
    } else {
        (line + k, tail_after_last_newline(c))
    }
}

/// Scans `c` once: the number of line feeds and the index of the last one.
fn scan_newlines(c: &[u8]) -> (r: (usize, Option<usize>))
    ensures
        r.0 == count_newlines(c@),
        r.0 <= c@.len(),
        match r.1 {
            Some(i) => i as int == last_newline_before(c@, c@.len() as int) && i < c@.len(),
            None => last_newline_before(c@, c@.len() as int) == -1,
        },
{
    let mut count: usize = 0;
    let mut last: Option<usize> = None;
    let mut i: usize = 0;
    while i < c.len()
        invariant
            i <= c@.len(),
            count == count_newlines(c@.subrange(0, i as int)),
            count <= i,
            match last {
                Some(j) => j as int == last_newline_before(c@, i as int) && j < i,
                None => last_newline_before(c@, i as int) == -1,
            },
        decreases c@.len() - i,
    {
        proof {
            assert(c@.subrange(0, i + 1).drop_last() =~= c@.subrange(0, i as int));
        }
        if c[i] == NEWLINE {
            count = count + 1;
            last = Some(i);
        }
        i = i + 1;
    }
    proof {
        assert(c@.subrange(0, c@.len() as int) =~= c@);
    }
    (count, last)
}

/// `last_newline_before` never points past its bound.
proof fn lemma_last_newline_before(c: Seq<u8>, end: int)
    requires
        0 <= end <= c.len(),
    ensures
        -1 <= last_newline_before(c, end) < end,
        last_newline_before(c, end) >= 0 ==> c[last_newline_before(c, end)] == NEWLINE,
        forall|k: int|
            last_newline_before(c, end) < k < end && 0 <= k ==> c[k] != NEWLINE,
    decreases end,
{
    if end > 0 && c[end - 1] != NEWLINE {
        lemma_last_newline_before(c, end - 1);
    }
}

/// The last line feed before `e`, where `e` is itself the last line feed of `c`.
fn last_newline_in(c: &[u8], e: usize) -> (r: Option<usize>)
    requires
        e <= c@.len(),
    ensures
        match r {
            Some(i) => i as int == last_newline_before(c@, e as int) && i < e,
            None => last_newline_before(c@, e as int) == -1,
        },
{
    let mut i = e;
    while i > 0
        invariant
            i <= e <= c@.len(),
            last_newline_before(c@, e as int) == last_newline_before(c@, i as int),
        decreases i,
    {
        if c[i - 1] == NEWLINE {
            return Some(i - 1);
        }
        i = i - 1;
    }
    None
}

/// Length of the last line of `c` as `str::lines` yields it.
fn last_line_len(c: &[u8], last_nl: Option<usize>) -> (r: usize)
    requires
        match last_nl {
            Some(i) => i as int == last_newline_before(c@, c@.len() as int) && i < c@.len(),
            None => last_newline_before(c@, c@.len() as int) == -1,
        },
    ensures
        r == last_code_line_len(c@),
{
    proof {
        lemma_last_newline_before(c@, c@.len() as int);
    }
    let n = c.len();
    if n > 0 && c[n - 1] == NEWLINE {
        let e = n - 1;
        proof {
            lemma_last_newline_before(c@, e as int);
        }
        let s = match last_newline_in(c, e) {
            Some(i) => i + 1,
            None => 0,
        };
        if e > s && c[e - 1] == CARRIAGE_RETURN {
            e - s - 1
        } else {
            e - s
        }
    } else {
        match last_nl {
            Some(i) => n - (i + 1),
            None => n,
        }
    }
}

/// `f` is `o` after replacing the selection `a`..`b` by `c`.
pub open spec fn replaced_selection(
    o: EditorState,
    f: EditorState,
    c: Seq<u8>,
    a: (usize, usize),
    b: (usize, usize),
) -> bool {
    let t = o.content.buffer@;
    let sb = pos_byte(o, a);
    let eb = pos_byte(o, b);
    let (nl, nc) = cursor_after_replace(a, c);
    &&& f.content.buffer@ == t.subrange(0, sb) + c + t.subrange(eb, t.len() as int)
    &&& f == (EditorState {
        content: TabContent {
            buffer: f.content.buffer,
            history: f.content.history,
            cursor_line: nl as usize,
            cursor_col: nc as usize,
            selection_start: None,
            selection_end: None,
            is_dirty: true,
            buffer_version: (o.content.buffer_version + 1) as u64,
            ..o.content
        },
        status: StatusMessage::AiCodeApplied,
        ..o
    })
    &&& history_appended(
        o.content.history,
        f.content.history,
        sb,
        t.subrange(sb, eb),
        c,
        CursorPosition { line: o.content.cursor_line, column: o.content.cursor_col },
        CursorPosition { line: nl as usize, column: nc as usize },
    )
}

/// `f` is `o` after inserting `c` at the cursor.
pub open spec fn inserted_at_cursor(o: EditorState, f: EditorState, c: Seq<u8>) -> bool {
    let t = o.content.buffer@;
    let p = spec_cursor_byte_pos(o);
    let (nl, nc) = cursor_after_insert(o.content.cursor_line, o.content.cursor_col, c);
    &&& f.content.buffer@ == t.subrange(0, p) + c + t.subrange(p, t.len() as int)
    &&& f == (EditorState {
        content: TabContent {
            buffer: f.content.buffer,
            history: f.content.history,
            cursor_line: nl as usize,
            cursor_col: nc as usize,
            is_dirty: true,
            buffer_version: (o.content.buffer_version + 1) as u64,
            ..o.content
        },
        status: StatusMessage::AiCodeInserted,
        ..o
    })
    &&& history_appended(
        o.content.history,
        f.content.history,
        p,
        Seq::empty(),
        c,
        CursorPosition { line: o.content.cursor_line, column: o.content.cursor_col },
        CursorPosition { line: nl as usize, column: nc as usize },
    )
}

/// Replaces the selection `first`..`last` (in order) by `c`.
fn replace_selection_with(
    state: &mut EditorState,
    c: &[u8],
    breaks: usize,
    last_nl: Option<usize>,
    first: (usize, usize),
    last: (usize, usize),
)
    requires
        old(state).wf(),
        c@.len() > 0,
        breaks == count_newlines(c@),
        match last_nl {
            Some(i) => i as int == last_newline_before(c@, c@.len() as int) && i < c@.len(),
            None => last_newline_before(c@, c@.len() as int) == -1,
        },
        ordered_selection(*old(state)) == Some((first, last)),
        apply_ai_code_fits(*old(state), c@),
    ensures
        final(state).wf(),
        replaced_selection(*old(state), *final(state), c@, first, last),
{
    let cursor_before = CursorPosition::new(state.content.cursor_line, state.content.cursor_col);
    let start_byte = line_byte_start(state, first.0) + first.1;
    let end_byte = line_byte_start(state, last.0) + last.1;
    let ghost t = state.content.buffer@;
    let old_text = state.content.buffer.get_text(start_byte, end_byte);
    state.content.buffer.delete(start_byte, end_byte);
    let ghost d = state.content.buffer@;
    state.content.buffer.insert(start_byte, c);
    proof {
        assert(d.subrange(0, start_byte as int) =~= t.subrange(0, start_byte as int));
        assert(d.subrange(start_byte as int, d.len() as int) =~= t.subrange(
            end_byte as int,
            t.len() as int,
        ));
    }
    let n_lines = if c[c.len() - 1] == NEWLINE {
        breaks
    } else {
        breaks + 1
    };
    proof {
        if c@.last() == NEWLINE && breaks == 0 {
            assert(c@.drop_last().len() < c@.len());
            assert(count_newlines(c@) >= 1);
        }
    }
    let new_line = if n_lines >= 1 {
        first.0 + (n_lines - 1)
    } else {
        first.0
    };
    let new_col = if n_lines <= 1 {
        first.1 + c.len()
    } else {
        last_line_len(c, last_nl)
    };
    state.content.cursor_line = new_line;
    state.content.cursor_col = new_col;
    let cursor_after = CursorPosition::new(new_line, new_col);
    state.content.history.record_replace(start_byte, old_text, c, cursor_before, cursor_after);
    clear_selection(state);
    state.content.is_dirty = true;
    state.content.buffer_version = state.content.buffer_version + 1;
    state.status = StatusMessage::AiCodeApplied;
}

/// Inserts `c` at the cursor.
fn insert_at_cursor(state: &mut EditorState, c: &[u8], breaks: usize, last_nl: Option<usize>)
    requires
        old(state).wf(),
        breaks == count_newlines(c@),
        match last_nl {
            Some(i) => i as int == last_newline_before(c@, c@.len() as int) && i < c@.len(),
            None => last_newline_before(c@, c@.len() as int) == -1,
        },
        ordered_selection(*old(state)).is_none(),
        apply_ai_code_fits(*old(state), c@),
    ensures
        final(state).wf(),
        inserted_at_cursor(*old(state), *final(state), c@),
{
    let cursor_before = CursorPosition::new(state.content.cursor_line, state.content.cursor_col);
    let pos = cursor_byte_pos(state);
    state.content.buffer.insert(pos, c);
    if breaks == 0 {
        state.content.cursor_col = state.content.cursor_col + c.len();
    } else {
        state.content.cursor_line = state.content.cursor_line + breaks;
        state.content.cursor_col = match last_nl {
            Some(i) => c.len() - (i + 1),
            None => c.len(),
        };
    }
    let cursor_after = CursorPosition::new(state.content.cursor_line, state.content.cursor_col);
    state.content.history.record_insert(pos, c, cursor_before, cursor_after);
    proof {
        assert(state.content.history.records@.last().removed@ =~= Seq::<u8>::empty());
    }
    state.content.is_dirty = true;
    state.content.buffer_version = state.content.buffer_version + 1;
    state.status = StatusMessage::AiCodeInserted;
}

/// Applies `code` to the active tab: replaces the selection when one is set,
/// otherwise inserts at the cursor.  The edit is recorded for undo, the tab
/// is marked modified and the status reports which of the two happened.
/// Returns false, changing nothing, when `code` is empty.
pub fn apply_ai_code(state: &mut EditorState, code: &str) -> (applied: bool)
    requires
        old(state).wf(),
        code@.len() > 0 ==> apply_ai_code_fits(*old(state), vstd::utf8::encode_utf8(code@)),
    ensures
        final(state).wf(),
        applied == (code@.len() > 0),
        !applied ==> *final(state) == *old(state),
        applied ==> match ordered_selection(*old(state)) {
            Some((a, b)) => replaced_selection(
                *old(state),
                *final(state),
                vstd::utf8::encode_utf8(code@),
                a,
                b,
            ),
            None => inserted_at_cursor(*old(state), *final(state), vstd::utf8::encode_utf8(code@)),
        },
{
    let bytes = code.as_bytes();
    proof {
        lemma_encode_utf8_empty(code@);
    }
    if bytes.len() == 0 {
        return false;
    }
    let (breaks, last_nl) = scan_newlines(bytes);
    if let (Some(sel_a), Some(sel_b)) = (state.content.selection_start, state.content.selection_end) {
        let (first, last) = if sel_a.0 < sel_b.0 || (sel_a.0 == sel_b.0 && sel_a.1 <= sel_b.1) {
            (sel_a, sel_b)
        } else {
            (sel_b, sel_a)
        };
        replace_selection_with(state, bytes, breaks, last_nl, first, last);
        return true;
    }
    insert_at_cursor(state, bytes, breaks, last_nl);
    true
}

impl EditorState {
    /// Applies an assistant code block to the active tab (see the free function).
    pub fn apply_ai_code(&mut self, code: &str) -> (applied: bool)
        requires
            old(self).wf(),
            code@.len() > 0 ==> apply_ai_code_fits(*old(self), vstd::utf8::encode_utf8(code@)),
        ensures
            final(self).wf(),
            applied == (code@.len() > 0),
            !applied ==> *final(self) == *old(self),
            applied ==> match ordered_selection(*old(self)) {
                Some((a, b)) => replaced_selection(
                    *old(self),
                    *final(self),
                    vstd::utf8::encode_utf8(code@),
                    a,
                    b,
                ),
                None => inserted_at_cursor(
                    *old(self),
                    *final(self),
                    vstd::utf8::encode_utf8(code@),
                ),
            },
    {
        apply_ai_code(self, code)
    }
}

/// `c` has no line feed exactly when it counts none.
proof fn lemma_no_newline(c: Seq<u8>)
    ensures
        count_newlines(c) == 0 <==> forall|k: int| 0 <= k < c.len() ==> c[k] != NEWLINE,
    decreases c.len(),
{
    if c.len() > 0 {
        lemma_no_newline(c.drop_last());
        if count_newlines(c) == 0 {
            assert forall|k: int| 0 <= k < c.len() implies c[k] != NEWLINE by {
                if k < c.len() - 1 {
                    assert(c[k] == c.drop_last()[k]);
                }
            }
        }
        if forall|k: int| 0 <= k < c.len() ==> c[k] != NEWLINE {
            assert forall|k: int| 0 <= k < c.drop_last().len() implies c.drop_last()[k] != NEWLINE by {
                assert(c.drop_last()[k] == c[k]);
            }
            assert(c[c.len() - 1] != NEWLINE);
        }
    }
}

/// `j` is the last line feed of `c` before `e`.
pub open spec fn is_last_newline(c: Seq<u8>, j: int, e: int) -> bool {
    &&& 0 <= j < e <= c.len()
    &&& c[j] == NEWLINE
    &&& forall|k: int| j < k < e ==> c[k] != NEWLINE
}

/// The last line feed before `e` is the one `last_newline_before` finds.
proof fn lemma_is_last_newline(c: Seq<u8>, j: int, e: int)
    requires
        is_last_newline(c, j, e),
    ensures
        last_newline_before(c, e) == j,
{
    lemma_last_newline_before(c, e);
    let l = last_newline_before(c, e);
    if l < 0 {
        assert(c[j] != NEWLINE);
    } else if l < j {
        assert(c[j] != NEWLINE);
    } else if l > j {
        assert(c[l] != NEWLINE);
    }
}

/// After code `c` replaces a selection starting at `a`, the cursor sits at
/// the end of the code's last line (a final line break, with a carriage
/// return before it, is not part of that line).  When that text has no
/// line break, the cursor stays on `a`'s line, `c`'s length past `a`'s
/// column; otherwise it is on the line of the code's last line, which has
/// as many line breaks before it as the text, and its column is the number
/// of bytes after the last of them.
pub proof fn law_replace_puts_cursor_after_code(
    o: EditorState,
    f: EditorState,
    c: Seq<u8>,
    a: (usize, usize),
    b: (usize, usize),
)
    requires
        c.len() > 0,
        ordered_selection(o) == Some((a, b)),
        apply_ai_code_fits(o, c),
        replaced_selection(o, f, c, a, b),
    ensures
        ({
            let ends_nl = c.last() == NEWLINE;
            let e = if ends_nl {
                c.len() - 1
            } else {
                c.len() as int
            };
            let body = c.subrange(0, e);
            let line = f.content.cursor_line as int;
            let col = f.content.cursor_col as int;
            &&& (forall|k: int| 0 <= k < e ==> c[k] != NEWLINE) ==> line == a.0 && col == a.1
                + c.len()
            &&& forall|j: int|
                #[trigger] is_last_newline(c, j, e) ==> {
                    &&& line == a.0 + count_newlines(body)
                    &&& col == e - (j + 1) - (if ends_nl && e - 1 > j && c[e - 1]
                        == CARRIAGE_RETURN {
                        1int
                    } else {
                        0int
                    })
                }
        }),
{
    let ends_nl = c.last() == NEWLINE;
    let e = if ends_nl {
        c.len() - 1
    } else {
        c.len() as int
    };
    let body = c.subrange(0, e);
    lemma_no_newline(body);
    lemma_no_newline(c);
    if ends_nl {
        assert(body =~= c.drop_last());
        assert(count_newlines(c) == count_newlines(body) + 1);
    } else {
        assert(body =~= c);
    }
    assert forall|k: int| 0 <= k < body.len() implies body[k] == c[k] by {}
    lemma_last_newline_before(c, e);
    lemma_last_newline_before(c, c.len() as int);
    assert forall|j: int| #[trigger] is_last_newline(c, j, e) implies {
        &&& f.content.cursor_line as int == a.0 + count_newlines(body)
        &&& f.content.cursor_col as int == e - (j + 1) - (if ends_nl && e - 1 > j && c[e - 1]
            == CARRIAGE_RETURN {
            1int
        } else {
            0int
        })
    } by {
        lemma_is_last_newline(c, j, e);
        assert(body[j] == NEWLINE);
        assert(count_newlines(body) >= 1);
        if !ends_nl {
            assert(last_newline_before(c, c.len() as int) == j);
        }
    }
}

/// After code `c` is inserted at the cursor, the cursor sits right after
/// it: with no line feed in `c` it moves `c`'s length along the line;
/// otherwise it moves down one line per line feed, to the column that is
/// the number of bytes after the last one.
pub proof fn law_insert_puts_cursor_after_code(o: EditorState, f: EditorState, c: Seq<u8>)
    requires
        ordered_selection(o).is_none(),
        apply_ai_code_fits(o, c),
        inserted_at_cursor(o, f, c),
    ensures
        (forall|k: int| 0 <= k < c.len() ==> c[k] != NEWLINE) ==> f.content.cursor_line
            == o.content.cursor_line && f.content.cursor_col == o.content.cursor_col + c.len(),
        forall|j: int|
            #[trigger] is_last_newline(c, j, c.len() as int) ==> {
                &&& f.content.cursor_line == o.content.cursor_line + count_newlines(c)
                &&& f.content.cursor_col == c.len() - (j + 1)
            },
{
    lemma_no_newline(c);
    lemma_last_newline_before(c, c.len() as int);
    assert forall|j: int| #[trigger] is_last_newline(c, j, c.len() as int) implies {
        &&& f.content.cursor_line == o.content.cursor_line + count_newlines(c)
        &&& f.content.cursor_col == c.len() - (j + 1)
    } by {
        lemma_is_last_newline(c, j, c.len() as int);
        assert(count_newlines(c) >= 1);
    }
}

/// Undoing the edit that `apply_ai_code` records gives back the text the
/// code was applied to.
#[verifier::spinoff_prover]
#[verifier::rlimit(40)]
pub proof fn law_apply_ai_code_undo_restores(o: EditorState, f: EditorState, c: Seq<u8>)
    requires
        o.wf(),
        apply_ai_code_fits(o, c),
        match ordered_selection(o) {
            Some((a, b)) => replaced_selection(o, f, c, a, b),
            None => inserted_at_cursor(o, f, c),
        },
    ensures
        undo_record(f.content.buffer@, f.content.history.records@.last()) == o.content.buffer@,
{
    let t = o.content.buffer@;
    let u = f.content.buffer@;
    match ordered_selection(o) {
        Some((a, b)) => {
            let sb = pos_byte(o, a);
            let eb = pos_byte(o, b);
            assert(u.subrange(0, sb) =~= t.subrange(0, sb));
            assert(u.subrange(sb + c.len(), u.len() as int) =~= t.subrange(eb, t.len() as int));
            assert(undo_record(u, f.content.history.records@.last()) =~= t);
        },
        None => {
            let p = spec_cursor_byte_pos(o);
            assert(u.subrange(0, p) =~= t.subrange(0, p));
            assert(u.subrange(p + c.len(), u.len() as int) =~= t.subrange(p, t.len() as int));
            assert(undo_record(u, f.content.history.records@.last()) =~= t);
        },
    }
}

/// `code` holds `pat` (as `str::contains` finds a string pattern).
pub open spec fn code_has(code: Seq<char>, pat: Seq<char>) -> bool {
    first_match(encode_utf8(code), encode_utf8(pat)).is_some()
}

/// The file extension guessed for a code block from what it holds (the
/// first language whose marks it shows; `txt` when none).
pub open spec fn guessed_extension(code: Seq<char>) -> Seq<char> {
    if code_has(code, "fn "@) || code_has(code, "use "@) || code_has(code, "impl "@) {
        "rs"@
    } else if code_has(code, "def "@) || code_has(code, "import "@) {
        "py"@
    } else if code_has(code, "function "@) || code_has(code, "const "@) || code_has(code, "let "@) {
        "js"@
    } else if code_has(code, "package "@) || code_has(code, "import java."@) {
        "java"@
    } else if code_has(code, "#include"@) || code_has(code, "int main"@) {
        "c"@
    } else if code_has(code, "<?php"@) {
        "php"@
    } else if code_has(code, "<html"@) || code_has(code, "<!DOCTYPE"@) {
        "html"@
    } else if code_has(code, "body {"@) || code_has(code, "@media"@) {
        "css"@
    } else {
        "txt"@
    }
}

/// The name a code block is saved under: the suggested one, else
/// `ai_generated.` with the guessed extension.
pub open spec fn code_block_name(code: Seq<char>, suggested: Option<Seq<char>>) -> Seq<char> {
    match suggested {
        Some(n) => n,
        None => "ai_generated."@ + guessed_extension(code),
    }
}

/// Whether `code` holds `pat`.
fn code_contains(code: &str, pat: &str) -> (r: bool)
    ensures
        r == code_has(code@, pat@),
{
    find_bytes(code.as_bytes(), pat.as_bytes()).is_some()
}

/// The file name for saving the code block `code` (see `code_block_name`).
pub fn code_block_file_name(code: &str, suggested: Option<&str>) -> (r: String)
    ensures
        r@ == code_block_name(
            code@,
            match suggested {
                Some(n) => Some(n@),
                None => None,
            },
        ),
{
    if let Some(name) = suggested {
        return String::from_str(name);
    }
    let ext = if code_contains(code, "fn ") || code_contains(code, "use ") || code_contains(
        code,
        "impl ",
    ) {
        "rs"
    } else if code_contains(code, "def ") || code_contains(code, "import ") {
        "py"
    } else if code_contains(code, "function ") || code_contains(code, "const ") || code_contains(
        code,
        "let ",
    ) {
        "js"
    } else if code_contains(code, "package ") || code_contains(code, "import java.") {
        "java"
    } else if code_contains(code, "#include") || code_contains(code, "int main") {
        "c"
    } else if code_contains(code, "<?php") {
        "php"
    } else if code_contains(code, "<html") || code_contains(code, "<!DOCTYPE") {
        "html"
    } else if code_contains(code, "body {") || code_contains(code, "@media") {
        "css"
    } else {
        "txt"
    };
    String::from_str("ai_generated.").concat(ext)
}

} // verus!
