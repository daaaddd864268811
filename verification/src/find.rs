//! Find and replace in the active tab.  Matches are searched line by line,
//! left to right and without overlap; a match never spans a line break.
use vstd::prelude::*;
use vstd::string::StringSliceAdditionalSpecFns;

use crate::chars::{floor_boundary, lemma_floor_boundary};
use crate::cursor::line_byte_start;
use crate::search::{find_bytes_from, first_match_from, lemma_first_match_from, matches_at};
use crate::state::{
    undo_record, undo_records, CursorPosition, EditHistory, EditorState, StatusMessage, Tab, TabContent,
};
use crate::text_buffer::TextBuffer;

verus! {

/// Which field of the find/replace panel has the keyboard focus.
#[derive(Clone, Copy, Debug, PartialEq, Eq, Structural)]
pub enum FindReplaceFocus {
    Nothing,
    FindQuery,
    ReplaceText,
}

/// The find/replace panel and its cached results.
pub struct FindState {
    pub query: String,
    pub replace_text: String,
    /// Matches as (line, byte column), in text order.
    pub results: Vec<(usize, usize)>,
    pub active_index: usize,
    /// The query `results` were computed for.
    pub last_query: String,
    /// The buffer version `results` were computed for.
    pub result_version: u64,
    pub visible: bool,
    pub replace_visible: bool,
    pub focus: FindReplaceFocus,
}

/// The UTF-8 bytes of a string.
pub open spec fn str_bytes(s: String) -> Seq<u8> {
    vstd::utf8::encode_utf8(s@)
}

/// The start columns of the matches of `q` in line `l` found by scanning from
/// column `start`: each search resumes just after the previous match.
pub open spec fn line_matches(l: Seq<u8>, q: Seq<u8>, start: int) -> Seq<usize>
    decreases l.len() + 1 - start,
{
    if q.len() == 0 || start < 0 || start > l.len() {
        Seq::empty()
    } else {
        match first_match_from(l, q, start) {
            None => Seq::empty(),
            Some(a) => {
                proof {
                    lemma_first_match_from(l, q, start);
                }
                let ns = a + q.len();
                seq![a as usize] + if ns >= l.len() {
                    Seq::empty()
                } else {
                    line_matches(l, q, ns)
                }
            },
        }
    }
}

/// The matches of `q` in the first `k` lines of `b`, as (line, column), in text order.
pub open spec fn all_matches(b: TextBuffer, q: Seq<u8>, k: int) -> Seq<(usize, usize)>
    decreases k,
{
    if k <= 0 {
        Seq::empty()
    } else {
        all_matches(b, q, k - 1) + line_matches(b.line(k - 1), q, 0).map_values(
            |c: usize| ((k - 1) as usize, c),
        )
    }
}

/// The matches of `q` in the whole text of `b`.
pub open spec fn text_matches(b: TextBuffer, q: Seq<u8>) -> Seq<(usize, usize)> {
    all_matches(b, q, b.line_count() as int)
}

/// What `find_all` leaves in `n` given the state `f` before it and the content searched.
pub open spec fn find_all_post(f: FindState, content: TabContent, n: FindState) -> bool {
    &&& n.active_index == 0
    &&& n.query == f.query
    &&& n.replace_text == f.replace_text
    &&& n.visible == f.visible
    &&& n.replace_visible == f.replace_visible
    &&& n.focus == f.focus
    &&& if f.query@.len() == 0 {
        &&& n.results@.len() == 0
        &&& n.last_query@.len() == 0
        &&& n.result_version == f.result_version
    } else if f.query@ == f.last_query@ && f.result_version == content.buffer_version
        && f.results@.len() > 0 {
        &&& n.results@ == f.results@
        &&& n.last_query == f.last_query
        &&& n.result_version == f.result_version
    } else {
        &&& n.results@ == text_matches(content.buffer, str_bytes(f.query))
        &&& n.last_query@ == f.query@
        &&& n.result_version == content.buffer_version
    }
}

/// The columns of the matches of `q` in line `l`.
fn line_matches_exec(l: &[u8], q: &[u8]) -> (r: Vec<usize>)
    ensures
        r@ == line_matches(l@, q@, 0),
{
    let mut out: Vec<usize> = Vec::new();
    if q.len() == 0 {
        return out;
    }
    let ln = l.len();
    let mut start: usize = 0;
    loop
        invariant
            ln == l@.len(),
            q@.len() > 0,
            start <= l@.len(),
            out@ + line_matches(l@, q@, start as int) == line_matches(l@, q@, 0),
        decreases l@.len() + 1 - start,
    {
        match find_bytes_from(l, q, start) {
            None => {
                assert(out@ + line_matches(l@, q@, start as int) =~= out@);
                return out;
            },
            Some(a) => {
                proof {
                    lemma_first_match_from(l@, q@, start as int);
                }
                let ghost old_out = out@;
                out.push(a);
                let ns = a + q.len();
                if ns >= l.len() {
                    assert(old_out + line_matches(l@, q@, start as int) =~= out@);
                    return out;
                }
                assert(old_out + line_matches(l@, q@, start as int) =~= out@ + line_matches(
                    l@,
                    q@,
                    ns as int,
                ));
                start = ns;
            },
        }
    }
}

/// Finds all matches of the query (reusing the cached results when neither
/// the query nor the text changed) and resets the active match.
pub fn find_all(find_state: &mut FindState, content: &TabContent)
    requires
        content.buffer.wf(),
    ensures
        find_all_post(*old(find_state), *content, *final(find_state)),
{
    find_state.active_index = 0;
    if find_state.query.as_str().is_empty() {
        find_state.results = Vec::new();
        find_state.last_query = String::new();
        return ;
    }
    if find_state.query == find_state.last_query && find_state.result_version
        == content.buffer_version && find_state.results.len() > 0 {
        return ;
    }
    let query = find_state.query.clone();
    let q = query.as_str().as_bytes();
    let b = &content.buffer;
    let total_lines = b.len_lines();
    let mut results: Vec<(usize, usize)> = Vec::new();
    let mut line_idx: usize = 0;
    while line_idx < total_lines
        invariant
            b.wf(),
            total_lines == b.line_count(),
            line_idx <= total_lines,
            q@ == str_bytes(query),
            results@ == all_matches(*b, q@, line_idx as int),
        decreases total_lines - line_idx,
    {
        let line = b.get_line(line_idx).unwrap();
        let cols = line_matches_exec(&line, q);
        let ghost base = results@;
        let mut j: usize = 0;
        while j < cols.len()
            invariant
                j <= cols@.len(),
                results@ == base + cols@.subrange(0, j as int).map_values(
                    |c: usize| (line_idx, c),
                ),
            decreases cols@.len() - j,
        {
            results.push((line_idx, cols[j]));
            j = j + 1;
            assert(results@ =~= base + cols@.subrange(0, j as int).map_values(
                |c: usize| (line_idx, c),
            ));
        }
        assert(cols@.subrange(0, cols@.len() as int) =~= cols@);
        line_idx = line_idx + 1;
    }
    find_state.results = results;
    find_state.last_query = query;
    find_state.result_version = content.buffer_version;
}


/// Columns `cols` are matches of `q` in `l` at or after `start`, left to right, without overlap.
pub open spec fn cols_ok(l: Seq<u8>, q: Seq<u8>, cols: Seq<usize>, start: int) -> bool {
    &&& forall|j: int|
        0 <= j < cols.len() ==> matches_at(l, q, #[trigger] cols[j] as int) && cols[j] >= start
    &&& forall|j: int| 0 <= j < cols.len() - 1 ==> #[trigger] cols[j] + q.len() <= cols[j + 1]
}

/// `res` are matches of `q` in the lines of `b`, in text order, without overlap.
pub open spec fn matches_ok(b: TextBuffer, q: Seq<u8>, res: Seq<(usize, usize)>) -> bool {
    &&& forall|k: int|
        0 <= k < res.len() ==> (#[trigger] res[k]).0 < b.line_count() && matches_at(
            b.line(res[k].0 as int),
            q,
            res[k].1 as int,
        )
    &&& forall|k: int|
        0 <= k < res.len() - 1 ==> (#[trigger] res[k]).0 < res[k + 1].0 || (res[k].0 == res[k
            + 1].0 && res[k].1 + q.len() <= res[k + 1].1)
}

pub proof fn lemma_line_matches(l: Seq<u8>, q: Seq<u8>, start: int)
    requires
        0 <= start,
        l.len() <= usize::MAX,
    ensures
        cols_ok(l, q, line_matches(l, q, start), start),
    decreases l.len() + 1 - start,
{
    if q.len() == 0 || start > l.len() {
    } else {
        lemma_first_match_from(l, q, start);
        match first_match_from(l, q, start) {
            None => {},
            Some(a) => {
                let ns = a + q.len();
                if ns < l.len() {
                    lemma_line_matches(l, q, ns);
                    let rest = line_matches(l, q, ns);
                    let all = line_matches(l, q, start);
                    assert(all == seq![a as usize] + rest);
                    assert forall|j: int| 0 <= j < all.len() - 1 implies #[trigger] all[j]
                        + q.len() <= all[j + 1] by {
                        if j > 0 {
                            assert(all[j] == rest[j - 1]);
                            assert(all[j + 1] == rest[j]);
                        } else {
                            assert(all[1] == rest[0]);
                        }
                    }
                    assert forall|j: int| 0 <= j < all.len() implies matches_at(
                        l,
                        q,
                        #[trigger] all[j] as int,
                    ) && all[j] >= start by {
                        if j > 0 {
                            assert(all[j] == rest[j - 1]);
                        }
                    }
                }
            },
        }
    }
}

/// Line starts grow at least by one per line.
pub proof fn lemma_starts_grow(b: TextBuffer, i: int)
    requires
        b.wf(),
        0 <= i < b.line_count(),
    ensures
        b.line_start(i) >= i,
    decreases i,
{
    if i > 0 {
        lemma_starts_grow(b, i - 1);
        assert(b.starts()[i - 1] < b.starts()[i]);
    }
}

/// The matches `find_all` computes are real, in text order and disjoint.
pub proof fn lemma_all_matches(b: TextBuffer, q: Seq<u8>, k: int)
    requires
        b.wf(),
        0 <= k <= b.line_count(),
    ensures
        matches_ok(b, q, all_matches(b, q, k)),
        forall|j: int|
            0 <= j < all_matches(b, q, k).len() ==> (#[trigger] all_matches(b, q, k)[j]).0 < k,
    decreases k,
{
    if k > 0 {
        b.lemma_lines();
        assert(b.line_start(k - 1) >= k - 1) by {
            lemma_starts_grow(b, k - 1);
        }
        lemma_all_matches(b, q, k - 1);
        lemma_line_matches(b.line(k - 1), q, 0);
        let a = all_matches(b, q, k - 1);
        let cols = line_matches(b.line(k - 1), q, 0);
        let m = cols.map_values(|c: usize| ((k - 1) as usize, c));
        let res = all_matches(b, q, k);
        assert(res == a + m);
        assert forall|j: int| 0 <= j < res.len() implies (#[trigger] res[j]).0 < b.line_count()
            && matches_at(b.line(res[j].0 as int), q, res[j].1 as int) && res[j].0 < k by {
            if j >= a.len() {
                assert(res[j] == m[j - a.len()]);
                assert(m[j - a.len()] == ((k - 1) as usize, cols[j - a.len()]));
            } else {
                assert(res[j] == a[j]);
            }
        }
        assert forall|j: int| 0 <= j < res.len() - 1 implies (#[trigger] res[j]).0 < res[j
            + 1].0 || (res[j].0 == res[j + 1].0 && res[j].1 + q.len() <= res[j + 1].1) by {
            if j + 1 < a.len() {
                assert(res[j] == a[j]);
                assert(res[j + 1] == a[j + 1]);
            } else if j + 1 == a.len() {
                assert(res[j] == a[j]);
                assert(res[j + 1] == m[0]);
            } else {
                let i = j - a.len();
                assert(res[j] == m[i]);
                assert(res[j + 1] == m[i + 1]);
                assert(cols[i] + q.len() <= cols[i + 1]);
            }
        }
    }
}

/// The column of a match, clamped down to a char boundary of its line.
pub open spec fn spec_clamp_to_char_boundary(content: TabContent, line_idx: int, byte_pos: int) -> int {
    if 0 <= line_idx < content.buffer.line_count() {
        floor_boundary(content.buffer.line(line_idx), byte_pos)
    } else {
        byte_pos
    }
}

/// Aligns a byte column down to a char boundary of line `line_idx`.
fn clamp_to_char_boundary(content: &TabContent, line_idx: usize, byte_pos: usize) -> (r: usize)
    requires
        content.buffer.wf(),
    ensures
        r == spec_clamp_to_char_boundary(*content, line_idx as int, byte_pos as int),
{
    match content.buffer.get_line(line_idx) {
        Some(line) => crate::chars::floor_char_boundary(&line, byte_pos),
        None => byte_pos,
    }
}

/// Every match column plus the query length fits in `usize`.
pub open spec fn results_fit(f: FindState) -> bool {
    forall|k: int| 0 <= k < f.results@.len() ==> (#[trigger] f.results@[k]).1 + str_bytes(f.query).len() <= usize::MAX
}

/// `n` is `f` after the results were (re)computed if there were none.
pub open spec fn results_refreshed(f: FindState, content: TabContent, n: FindState) -> bool {
    if f.results@.len() == 0 {
        find_all_post(f, content, FindState { active_index: 0, ..n })
    } else {
        FindState { active_index: f.active_index, ..n } == f
    }
}

/// `c` with the cursor at the end of match `(line, col)` and the match selected.
pub open spec fn select_match(c: TabContent, q_len: int, line: usize, col: usize) -> TabContent {
    let end_col = spec_clamp_to_char_boundary(c, line as int, col + q_len) as usize;
    TabContent {
        cursor_line: line,
        cursor_col: end_col,
        selection_start: Some((line, col)),
        selection_end: Some((line, end_col)),
        ..c
    }
}

/// The find state and content after moving to the match at `n.active_index`.
pub open spec fn moved_to_match(
    f: FindState,
    c: TabContent,
    n: FindState,
    nc: TabContent,
    next: bool,
) -> bool {
    let q_len = str_bytes(f.query).len() as int;
    &&& results_refreshed(
        f,
        c,
        FindState {
            active_index: if n.results@.len() == 0 || f.results@.len() == 0 {
                0
            } else {
                f.active_index
            },
            ..n
        },
    )
    &&& if n.results@.len() == 0 {
        nc == c && n.active_index == 0
    } else {
        let prev_active = if f.results@.len() == 0 {
            0
        } else {
            f.active_index as int
        };
        let len = n.results@.len() as int;
        &&& n.active_index == (if next {
            (prev_active + 1) % len
        } else if prev_active == 0 {
            len - 1
        } else {
            prev_active - 1
        })
        &&& nc == select_match(
            c,
            q_len,
            n.results@[n.active_index as int].0,
            n.results@[n.active_index as int].1,
        )
    }
}

fn go_to_active_match(find_state: &FindState, content: &mut TabContent)
    requires
        old(content).buffer.wf(),
        find_state.active_index < find_state.results@.len(),
        find_state.results@[find_state.active_index as int].1 + str_bytes(find_state.query).len()
            <= usize::MAX,
    ensures
        *final(content) == select_match(
            *old(content),
            str_bytes(find_state.query).len() as int,
            find_state.results@[find_state.active_index as int].0,
            find_state.results@[find_state.active_index as int].1,
        ),
{
    let (line, col) = find_state.results[find_state.active_index];
    let q_len = find_state.query.as_str().len();
    let end_col = clamp_to_char_boundary(content, line, col + q_len);
    content.cursor_line = line;
    content.cursor_col = end_col;
    content.selection_start = Some((line, col));
    content.selection_end = Some((line, end_col));
}

/// Moves to the next match (wrapping around) and selects it, finding the
/// matches first when there are none.
pub fn find_next(find_state: &mut FindState, content: &mut TabContent)
    requires
        old(content).buffer.wf(),
        results_fit(*old(find_state)),
        old(find_state).results@.len() == 0 || old(find_state).active_index < usize::MAX,
    ensures
        moved_to_match(*old(find_state), *old(content), *final(find_state), *final(content), true),
{
    if find_state.results.len() == 0 {
        find_all(find_state, content);
        proof {
            lemma_all_matches(content.buffer, str_bytes(find_state.query), content.buffer.line_count() as int);
            content.buffer.lemma_lines();
        }
    }
    if find_state.results.len() > 0 {
        proof {
            if old(find_state).results@.len() == 0 {
                let k = (find_state.active_index + 1) % find_state.results@.len() as int;
                let (l, c) = find_state.results@[k];
                assert(matches_at(content.buffer.line(l as int), str_bytes(find_state.query), c as int));
            }
        }
        find_state.active_index = (find_state.active_index + 1) % find_state.results.len();
        go_to_active_match(find_state, content);
    }
}

/// Moves to the previous match (wrapping around) and selects it, finding
/// the matches first when there are none.
pub fn find_prev(find_state: &mut FindState, content: &mut TabContent)
    requires
        old(content).buffer.wf(),
        results_fit(*old(find_state)),
        old(find_state).results@.len() == 0 || old(find_state).active_index <= old(
            find_state,
        ).results@.len(),
    ensures
        moved_to_match(*old(find_state), *old(content), *final(find_state), *final(content), false),
{
    if find_state.results.len() == 0 {
        find_all(find_state, content);
        proof {
            lemma_all_matches(content.buffer, str_bytes(find_state.query), content.buffer.line_count() as int);
            content.buffer.lemma_lines();
        }
    }
    if find_state.results.len() > 0 {
        if find_state.active_index == 0 {
            find_state.active_index = find_state.results.len() - 1;
        } else {
            find_state.active_index = find_state.active_index - 1;
        }
        proof {
            if old(find_state).results@.len() == 0 {
                let (l, c) = find_state.results@[find_state.active_index as int];
                assert(matches_at(content.buffer.line(l as int), str_bytes(find_state.query), c as int));
            }
        }
        go_to_active_match(find_state, content);
    }
}


/// Byte offset in the text of the match at (`line`, `col`).
pub open spec fn match_offset(b: TextBuffer, line: int, col: int) -> int {
    b.line_start_or_end(line) + col
}

/// The active match exists and replacing it keeps every offset and the text
/// length in `usize`.
pub open spec fn replace_current_fits(f: FindState, c: TabContent) -> bool {
    f.results@.len() > 0 && f.active_index < f.results@.len() ==> {
        let (line, col) = f.results@[f.active_index as int];
        let pos = match_offset(c.buffer, line as int, col as int);
        let q = str_bytes(f.query).len() as int;
        let r = str_bytes(f.replace_text).len() as int;
        &&& pos + q <= c.buffer@.len()
        &&& c.buffer@.len() - q + r <= usize::MAX
        &&& col + r <= usize::MAX
        &&& c.buffer_version < u64::MAX
    }
}

/// Replaces the active match with the replacement text, records the edit in
/// the undo history, puts the cursor after the replacement and finds the
/// matches again.  Returns whether there was an active match.
#[verifier::spinoff_prover]
#[verifier::rlimit(40)]
pub fn replace_current(find_state: &mut FindState, content: &mut TabContent) -> (replaced: bool)
    requires
        old(content).buffer.wf(),
        replace_current_fits(*old(find_state), *old(content)),
    ensures
        final(content).buffer.wf(),
        replaced == (old(find_state).results@.len() > 0 && old(find_state).active_index < old(
            find_state,
        ).results@.len()),
        !replaced ==> *final(find_state) == *old(find_state) && *final(content) == *old(content),
        replaced ==> ({
            let f = *old(find_state);
            let c = *old(content);
            let (line, col) = f.results@[f.active_index as int];
            let pos = match_offset(c.buffer, line as int, col as int);
            let q = str_bytes(f.query);
            let r = str_bytes(f.replace_text);
            let t = c.buffer@;
            let nc = *final(content);
            let before = CursorPosition { line: c.cursor_line, column: c.cursor_col };
            let after = CursorPosition { line, column: (col + r.len()) as usize };
            &&& nc.buffer@ == t.subrange(0, pos) + r + t.subrange(pos + q.len(), t.len() as int)
            &&& nc == TabContent {
                buffer: nc.buffer,
                history: nc.history,
                cursor_line: line,
                cursor_col: (col + r.len()) as usize,
                is_dirty: true,
                buffer_version: (c.buffer_version + 1) as u64,
                ..c
            }
            &&& nc.history.open_group == c.history.open_group
            &&& nc.history.groups_opened == c.history.groups_opened
            &&& nc.history.records@.len() == c.history.records@.len() + 1
            &&& forall|i: int|
                0 <= i < c.history.records@.len() ==> nc.history.records@[i]
                    == c.history.records@[i]
            &&& nc.history.records@.last().pos == pos
            &&& nc.history.records@.last().removed@ == t.subrange(pos, pos + q.len())
            &&& nc.history.records@.last().inserted@ == r
            &&& nc.history.records@.last().cursor_before == before
            &&& nc.history.records@.last().cursor_after == after
            &&& nc.history.records@.last().group == c.history.open_group
            &&& find_all_post(f, nc, *final(find_state))
        }),
{
    if find_state.results.len() == 0 || find_state.active_index >= find_state.results.len() {
        return false;
    }
    let (line, col) = find_state.results[find_state.active_index];
    let q = find_state.query.as_str().as_bytes();
    let r = find_state.replace_text.as_str().as_bytes();
    let pos = content.buffer.line_start_byte(line) + col;
    let end_pos = pos + q.len();
    let old_text = content.buffer.get_text(pos, end_pos);
    let cursor_before = CursorPosition::new(content.cursor_line, content.cursor_col);
    content.buffer.delete(pos, end_pos);
    content.buffer.insert(pos, r);
    content.is_dirty = true;
    content.buffer_version = content.buffer_version + 1;
    content.cursor_line = line;
    content.cursor_col = col + r.len();
    let cursor_after = CursorPosition::new(content.cursor_line, content.cursor_col);
    content.history.record_replace(pos, old_text, r, cursor_before, cursor_after);
    proof {
        let t = old(content).buffer@;
        assert(content.buffer@ =~= t.subrange(0, pos as int) + r@ + t.subrange(
            pos + q@.len(),
            t.len() as int,
        ));
    }
    find_all(find_state, content);
    true
}

/// The find state after the find panel was shown or hidden (before any search).
pub open spec fn toggled_find(f: FindState) -> FindState {
    let v = !f.visible;
    FindState {
        visible: v,
        replace_visible: if v {
            f.replace_visible
        } else {
            false
        },
        focus: if v {
            FindReplaceFocus::FindQuery
        } else {
            FindReplaceFocus::Nothing
        },
        ..f
    }
}

/// The find state after the replace panel was shown or hidden (before any search).
pub open spec fn toggled_replace(f: FindState) -> FindState {
    let rv = !f.replace_visible;
    let v = rv || f.visible;
    FindState {
        visible: v,
        replace_visible: rv,
        focus: if !v {
            FindReplaceFocus::Nothing
        } else if rv {
            FindReplaceFocus::FindQuery
        } else {
            FindReplaceFocus::Nothing
        },
        ..f
    }
}

/// `n` is `t` searched again when the panel is visible with a query, else `t`.
pub open spec fn searched_if_visible(t: FindState, content: TabContent, n: FindState) -> bool {
    if t.visible && t.query@.len() > 0 {
        find_all_post(t, content, n)
    } else {
        n == t
    }
}

/// Shows or hides the find panel; on showing with a query, finds the matches.
pub fn toggle_find(find_state: &mut FindState, content: &TabContent)
    requires
        content.buffer.wf(),
    ensures
        searched_if_visible(toggled_find(*old(find_state)), *content, *final(find_state)),
{
    find_state.visible = !find_state.visible;
    if !find_state.visible {
        find_state.replace_visible = false;
        find_state.focus = FindReplaceFocus::Nothing;
    } else {
        find_state.focus = FindReplaceFocus::FindQuery;
    }
    if find_state.visible && !find_state.query.as_str().is_empty() {
        find_all(find_state, content);
    }
}

/// Shows or hides the replace panel (showing it shows the find panel too);
/// with the panel visible and a query, finds the matches.
pub fn toggle_replace(find_state: &mut FindState, content: &TabContent)
    requires
        content.buffer.wf(),
    ensures
        searched_if_visible(toggled_replace(*old(find_state)), *content, *final(find_state)),
{
    find_state.replace_visible = !find_state.replace_visible;
    find_state.visible = find_state.replace_visible || find_state.visible;
    if !find_state.visible {
        find_state.focus = FindReplaceFocus::Nothing;
    } else {
        find_state.focus = if find_state.replace_visible {
            FindReplaceFocus::FindQuery
        } else {
            FindReplaceFocus::Nothing
        };
    }
    if find_state.visible && !find_state.query.as_str().is_empty() {
        find_all(find_state, content);
    }
}

/// Hides the find and replace panels.
pub fn close_find_replace(find_state: &mut FindState)
    ensures
        *final(find_state) == (FindState {
            visible: false,
            replace_visible: false,
            focus: FindReplaceFocus::Nothing,
            ..*old(find_state)
        }),
{
    find_state.visible = false;
    find_state.replace_visible = false;
    find_state.focus = FindReplaceFocus::Nothing;
}


impl FindState {
    /// A hidden find panel with no query and no results.
    pub fn new() -> (r: Self)
        ensures
            r.query@.len() == 0,
            r.replace_text@.len() == 0,
            r.results@.len() == 0,
            r.active_index == 0,
            r.last_query@.len() == 0,
            r.result_version == 0,
            !r.visible,
            !r.replace_visible,
            r.focus == FindReplaceFocus::Nothing,
    {
        FindState {
            query: String::new(),
            replace_text: String::new(),
            results: Vec::new(),
            active_index: 0,
            last_query: String::new(),
            result_version: 0,
            visible: false,
            replace_visible: false,
            focus: FindReplaceFocus::Nothing,
        }
    }

    /// Finds all matches (see the free function).
    pub fn find_all(&mut self, content: &TabContent)
        requires
            content.buffer.wf(),
        ensures
            find_all_post(*old(self), *content, *final(self)),
    {
        find_all(self, content)
    }

    /// Moves to the next match (see the free function).
    pub fn find_next(&mut self, content: &mut TabContent)
        requires
            old(content).buffer.wf(),
            results_fit(*old(self)),
            old(self).results@.len() == 0 || old(self).active_index < usize::MAX,
        ensures
            moved_to_match(*old(self), *old(content), *final(self), *final(content), true),
    {
        find_next(self, content)
    }

    /// Moves to the previous match (see the free function).
    pub fn find_prev(&mut self, content: &mut TabContent)
        requires
            old(content).buffer.wf(),
            results_fit(*old(self)),
            old(self).results@.len() == 0 || old(self).active_index <= old(self).results@.len(),
        ensures
            moved_to_match(*old(self), *old(content), *final(self), *final(content), false),
    {
        find_prev(self, content)
    }

    /// Replaces the active match (see the free function).
    pub fn replace_current(&mut self, content: &mut TabContent) -> (replaced: bool)
        requires
            old(content).buffer.wf(),
            replace_current_fits(*old(self), *old(content)),
        ensures
            final(content).buffer.wf(),
            replaced == (old(self).results@.len() > 0 && old(self).active_index < old(
                self,
            ).results@.len()),
            !replaced ==> *final(self) == *old(self) && *final(content) == *old(content),
            replaced ==> ({
                let f = *old(self);
                let c = *old(content);
                let (line, col) = f.results@[f.active_index as int];
                let pos = match_offset(c.buffer, line as int, col as int);
                let q = str_bytes(f.query);
                let r = str_bytes(f.replace_text);
                let t = c.buffer@;
                let nc = *final(content);
                let before = CursorPosition { line: c.cursor_line, column: c.cursor_col };
                let after = CursorPosition { line, column: (col + r.len()) as usize };
                &&& nc.buffer@ == t.subrange(0, pos) + r + t.subrange(
                    pos + q.len(),
                    t.len() as int,
                )
                &&& nc == TabContent {
                    buffer: nc.buffer,
                    history: nc.history,
                    cursor_line: line,
                    cursor_col: (col + r.len()) as usize,
                    is_dirty: true,
                    buffer_version: (c.buffer_version + 1) as u64,
                    ..c
                }
                &&& nc.history.open_group == c.history.open_group
                &&& nc.history.groups_opened == c.history.groups_opened
                &&& nc.history.records@.len() == c.history.records@.len() + 1
                &&& forall|i: int|
                    0 <= i < c.history.records@.len() ==> nc.history.records@[i]
                        == c.history.records@[i]
                &&& nc.history.records@.last().pos == pos
                &&& nc.history.records@.last().removed@ == t.subrange(pos, pos + q.len())
                &&& nc.history.records@.last().inserted@ == r
                &&& nc.history.records@.last().cursor_before == before
                &&& nc.history.records@.last().cursor_after == after
                &&& nc.history.records@.last().group == c.history.open_group
                &&& find_all_post(f, nc, *final(self))
            }),
    {
        replace_current(self, content)
    }

    /// Shows or hides the find panel (see the free function).
    pub fn toggle_find(&mut self, content: &TabContent)
        requires
            content.buffer.wf(),
        ensures
            searched_if_visible(toggled_find(*old(self)), *content, *final(self)),
    {
        toggle_find(self, content)
    }

    /// Shows or hides the replace panel (see the free function).
    pub fn toggle_replace(&mut self, content: &TabContent)
        requires
            content.buffer.wf(),
        ensures
            searched_if_visible(toggled_replace(*old(self)), *content, *final(self)),
    {
        toggle_replace(self, content)
    }

    /// Hides the find and replace panels.
    pub fn close_find_replace(&mut self)
        ensures
            *final(self) == (FindState {
                visible: false,
                replace_visible: false,
                focus: FindReplaceFocus::Nothing,
                ..*old(self)
            }),
    {
        close_find_replace(self)
    }
}

/// Byte offsets in the text of the matches `res`.
pub open spec fn match_offsets(b: TextBuffer, res: Seq<(usize, usize)>) -> Seq<int> {
    Seq::new(res.len(), |k: int| b.line_start_or_end(res[k].0 as int) + res[k].1)
}

/// `t` with the `q_len` bytes at each offset of `offs` (ascending, disjoint)
/// replaced by `r`.
#[verifier::opaque]
pub open spec fn replaced_at(t: Seq<u8>, offs: Seq<int>, q_len: int, r: Seq<u8>) -> Seq<u8>
    decreases offs.len(),
{
    if offs.len() == 0 {
        t
    } else {
        let o = offs.last();
        replaced_at(t.subrange(0, o), offs.drop_last(), q_len, r) + r + t.subrange(
            o + q_len,
            t.len() as int,
        )
    }
}

/// Offsets `offs` are matches of `q` in `t`, ascending and disjoint.
pub open spec fn offsets_ok(t: Seq<u8>, q: Seq<u8>, offs: Seq<int>) -> bool {
    &&& forall|k: int| 0 <= k < offs.len() ==> matches_at(t, q, #[trigger] offs[k])
    &&& forall|k: int| 0 <= k < offs.len() - 1 ==> #[trigger] offs[k] + q.len() <= offs[k + 1]
}

/// The matches of `q` in the lines of a buffer are matches in its text.
pub proof fn lemma_match_offsets(b: TextBuffer, q: Seq<u8>, res: Seq<(usize, usize)>)
    requires
        b.wf(),
        matches_ok(b, q, res),
    ensures
        offsets_ok(b@, q, match_offsets(b, res)),
{
    b.lemma_lines();
    let offs = match_offsets(b, res);
    assert forall|k: int| 0 <= k < offs.len() implies matches_at(b@, q, #[trigger] offs[k]) by {
        let (l, c) = res[k];
        let ls = b.line_start(l as int);
        let line = b.line(l as int);
        assert(matches_at(line, q, c as int));
        assert(offs[k] == ls + c);
        assert(b@.subrange(ls + c, ls + c + q.len()) =~= line.subrange(c as int, c + q.len()));
    }
    assert forall|k: int| 0 <= k < offs.len() - 1 implies #[trigger] offs[k] + q.len() <= offs[k
        + 1] by {
        let (l1, c1) = res[k];
        let (l2, c2) = res[k + 1];
        assert(matches_at(b.line(l1 as int), q, c1 as int));
        if l1 < l2 {
            assert(b.line_start(l1 as int) + c1 + q.len() <= b.line_end(l1 as int));
            assert(b.line_end(l1 as int) + 1 == b.line_start(l1 + 1));
            if l1 + 1 < l2 {
                assert(b.line_start(l1 + 1) < b.line_start(l2 as int));
            }
        }
    }
}

/// The offsets of `s` as integers.
pub open spec fn usize_ints(s: Seq<usize>) -> Seq<int> {
    Seq::new(s.len(), |i: int| s[i] as int)
}

/// Spans of `q_len` bytes at `offs` are ascending, disjoint and inside `0..len`.
pub open spec fn spans_within(offs: Seq<int>, q_len: int, len: int) -> bool {
    &&& forall|k: int| 0 <= k < offs.len() ==> 0 <= #[trigger] offs[k] && offs[k] + q_len <= len
    &&& forall|k: int| 0 <= k < offs.len() - 1 ==> #[trigger] offs[k] + q_len <= offs[k + 1]
}

/// Replacing the spans up to and including the `k`-th within the first
/// `bound` bytes splits at that span.
proof fn lemma_replaced_at_step(
    t: Seq<u8>,
    offs: Seq<int>,
    q_len: int,
    r: Seq<u8>,
    k: int,
    bound: int,
)
    requires
        0 <= k < offs.len(),
        0 <= q_len,
        0 <= offs[k],
        offs[k] + q_len <= bound <= t.len(),
    ensures
        replaced_at(t.subrange(0, bound), offs.subrange(0, k + 1), q_len, r) == replaced_at(
            t.subrange(0, offs[k]),
            offs.subrange(0, k),
            q_len,
            r,
        ) + r + t.subrange(offs[k] + q_len, bound),
{
    reveal_with_fuel(replaced_at, 1);
    let s = t.subrange(0, bound);
    let ok = offs.subrange(0, k + 1);
    let o = offs[k];
    assert(ok.last() == o);
    assert(ok.drop_last() =~= offs.subrange(0, k));
    assert(s.subrange(0, o) =~= t.subrange(0, o));
    assert(s.subrange(o + q_len, s.len() as int) =~= t.subrange(o + q_len, bound));
}

/// Replaces the `q_len` bytes at each of `offsets` by `r`, from the last
/// offset to the first, recording one edit per replacement.
#[verifier::spinoff_prover]
#[verifier::rlimit(30)]
fn replace_spans_from_back(
    buffer: &mut TextBuffer,
    history: &mut EditHistory,
    offsets: &Vec<usize>,
    q_len: usize,
    r: &[u8],
    cursor: CursorPosition,
)
    requires
        old(buffer).wf(),
        spans_within(usize_ints(offsets@), q_len as int, old(buffer)@.len() as int),
        old(buffer)@.len() + offsets@.len() * r@.len() <= usize::MAX,
    ensures
        final(buffer).wf(),
        final(buffer)@ == replaced_at(old(buffer)@, usize_ints(offsets@), q_len as int, r@),
        final(history).open_group == old(history).open_group,
        final(history).groups_opened == old(history).groups_opened,
        replace_all_records(
            old(history).records@,
            final(history).records@,
            old(buffer)@,
            usize_ints(offsets@),
            q_len as int,
            r@,
            cursor,
            old(history).open_group,
        ),
{
    let ghost t = buffer@;
    let ghost offs = usize_ints(offsets@);
    let ghost recs0 = history.records@;
    let ghost group = history.open_group;
    let count = offsets.len();
    let mut k = count;
    let ghost mut bound: int = t.len() as int;
    let ghost mut tail: Seq<u8> = Seq::empty();
    proof {
        assert(t.subrange(0, t.len() as int) =~= t);
        assert(offs.subrange(0, count as int) =~= offs);
        assert(buffer@ =~= t.subrange(0, bound) + tail);
    }
    while k > 0
        invariant
            buffer.wf(),
            k <= count == offs.len() == offsets@.len(),
            offs == usize_ints(offsets@),
            spans_within(offs, q_len as int, t.len() as int),
            bound == (if k == count {
                t.len() as int
            } else {
                offs[k as int]
            }),
            0 <= bound <= t.len(),
            buffer@ == t.subrange(0, bound) + tail,
            replaced_at(t, offs, q_len as int, r@) == replaced_at(
                t.subrange(0, bound),
                offs.subrange(0, k as int),
                q_len as int,
                r@,
            ) + tail,
            t.len() + count * r@.len() <= usize::MAX,
            tail.len() <= (count - k) * r@.len() + (t.len() - bound),
            history.open_group == group,
            history.groups_opened == old(history).groups_opened,
            history.records@.len() == recs0.len() + (count - k),
            forall|i: int| 0 <= i < recs0.len() ==> history.records@[i] == recs0[i],
            forall|jj: int|
                0 <= jj < count - k ==> {
                    let rec = #[trigger] history.records@[recs0.len() + jj];
                    let o = offs[count - 1 - jj];
                    &&& rec.pos == o
                    &&& rec.removed@ == t.subrange(o, o + q_len)
                    &&& rec.inserted@ == r@
                    &&& rec.cursor_before == cursor
                    &&& rec.cursor_after == cursor
                    &&& rec.group == group
                },
        decreases k,
    {
        k = k - 1;
        let pos = offsets[k];
        proof {
            assert(offs[k as int] == pos);
            if k + 1 < count {
                assert(offs[k as int] + q_len <= offs[k + 1]);
            }
        }
        let end_pos = pos + q_len;
        let old_text = buffer.get_text(pos, end_pos);
        proof {
            assert(old_text@ =~= t.subrange(pos as int, end_pos as int));
        }
        buffer.delete(pos, end_pos);
        proof {
            assert((count - k) * r@.len() == (count - (k + 1)) * r@.len() + r@.len())
                by (nonlinear_arith);
            assert((count - k) * r@.len() <= count * r@.len()) by (nonlinear_arith)
                requires
                    k <= count,
            ;
        }
        buffer.insert(pos, r);
        history.record_replace(pos, old_text, r, cursor, cursor);
        proof {
            let new_tail = r@ + t.subrange(pos + q_len, bound) + tail;
            assert(buffer@ =~= t.subrange(0, pos as int) + new_tail);
            lemma_replaced_at_step(t, offs, q_len as int, r@, k as int, bound);
            let head = replaced_at(
                t.subrange(0, pos as int),
                offs.subrange(0, k as int),
                q_len as int,
                r@,
            );
            assert(head + r@ + t.subrange(pos + q_len, bound) + tail =~= head + new_tail);
            tail = new_tail;
            bound = pos as int;
            let recs = history.records@;
            assert forall|jj: int| 0 <= jj < count - k implies {
                let rec = #[trigger] recs[recs0.len() + jj];
                let o = offs[count - 1 - jj];
                &&& rec.pos == o
                &&& rec.removed@ == t.subrange(o, o + q_len)
                &&& rec.inserted@ == r@
                &&& rec.cursor_before == cursor
                &&& rec.cursor_after == cursor
                &&& rec.group == group
            } by {
                if jj == count - k - 1 {
                    assert(recs[recs0.len() + jj] == recs.last());
                }
            }
        }
    }
    proof {
        reveal_with_fuel(replaced_at, 1);
        assert(offs.subrange(0, 0) =~= Seq::<int>::empty());
    }
}

/// The find state has cached results only when they are the text's matches.
pub open spec fn find_cache_ok(f: FindState, c: TabContent) -> bool {
    f.query@ == f.last_query@ && f.result_version == c.buffer_version && f.results@.len() > 0
        ==> f.results@ == text_matches(c.buffer, str_bytes(f.query))
}

/// Replace-all can run: the cache is sound and the grown text fits in `usize`.
pub open spec fn replace_all_fits(s: EditorState) -> bool {
    let q = str_bytes(s.find.query).len() as int;
    let r = str_bytes(s.find.replace_text).len() as int;
    let n = text_matches(s.content.buffer, str_bytes(s.find.query)).len() as int;
    &&& find_cache_ok(s.find, s.content)
    &&& s.content.buffer@.len() + n * r <= usize::MAX
    &&& s.content.buffer_version < u64::MAX
    &&& s.content.history.groups_opened < usize::MAX
}

/// The undo records replace-all adds: one per match, from the last match to
/// the first, in one group.
pub open spec fn replace_all_records(
    old_recs: Seq<crate::state::EditRecord>,
    new_recs: Seq<crate::state::EditRecord>,
    t: Seq<u8>,
    offs: Seq<int>,
    q_len: int,
    r: Seq<u8>,
    before: CursorPosition,
    group: Option<usize>,
) -> bool {
    let n = offs.len();
    &&& new_recs.len() == old_recs.len() + n
    &&& forall|i: int| 0 <= i < old_recs.len() ==> new_recs[i] == old_recs[i]
    &&& forall|j: int|
        0 <= j < n ==> {
            let rec = #[trigger] new_recs[old_recs.len() + j];
            let o = offs[n - 1 - j];
            &&& rec.pos == o
            &&& rec.removed@ == t.subrange(o, o + q_len)
            &&& rec.inserted@ == r
            &&& rec.cursor_before == before
            &&& rec.cursor_after == before
            &&& rec.group == group
        }
}

/// `f` and `count` are what replacing every match of the query in `o`
/// gives: nothing for an empty query or one equal to its replacement; with
/// no match the results are refreshed; otherwise every match is replaced in
/// one undo group, the results are dropped and the status gives the count.
pub open spec fn replace_all_done(o: EditorState, f: EditorState, count: usize) -> bool {
    let qs = o.find.query;
    if qs@.len() == 0 || qs@ == o.find.replace_text@ {
        count == 0 && f == o
    } else {
        let q = str_bytes(qs);
        let r = str_bytes(o.find.replace_text);
        let res = text_matches(o.content.buffer, q);
        let offs = match_offsets(o.content.buffer, res);
        let t = o.content.buffer@;
        &&& count == res.len()
        &&& if count == 0 {
            &&& f.content == o.content
            &&& find_all_post(o.find, o.content, f.find)
            &&& f.tab_bar == o.tab_bar
            &&& f.status == o.status
        } else {
            let c = f.content;
            let before = CursorPosition {
                line: o.content.cursor_line,
                column: o.content.cursor_col,
            };
            &&& c.buffer@ == replaced_at(t, offs, q.len() as int, r)
            &&& c == TabContent {
                buffer: c.buffer,
                history: c.history,
                is_dirty: true,
                buffer_version: (o.content.buffer_version + 1) as u64,
                ..o.content
            }
            &&& replace_all_records(
                o.content.history.records@,
                c.history.records@,
                t,
                offs,
                q.len() as int,
                r,
                before,
                Some(o.content.history.groups_opened),
            )
            &&& c.history.open_group.is_none()
            &&& c.history.groups_opened == o.content.history.groups_opened + 1
            &&& f.find.results@.len() == 0
            &&& f.find.active_index == 0
            &&& f.find.query == o.find.query
            &&& f.find.replace_text == o.find.replace_text
            &&& f.find.visible == o.find.visible
            &&& f.find.replace_visible == o.find.replace_visible
            &&& f.find.focus == o.find.focus
            &&& f.find.last_query@ == qs@
            &&& f.status == StatusMessage::Replaced(count)
            &&& f.tab_bar.active_tab == o.tab_bar.active_tab
            &&& f.tab_bar.tabs@.len() == o.tab_bar.tabs@.len()
            &&& forall|i: int|
                0 <= i < o.tab_bar.tabs@.len() ==> #[trigger] f.tab_bar.tabs@[i] == (
                if i == o.tab_bar.active_tab {
                    match o.tab_bar.tabs@[i] {
                        Tab::File(tc) => Tab::File(TabContent { is_dirty: true, ..tc }),
                        x => x,
                    }
                } else {
                    o.tab_bar.tabs@[i]
                })
        }
        &&& f.multi_cursor == o.multi_cursor
        &&& f.is_selecting == o.is_selecting
        &&& f.viewport == o.viewport
        &&& f.agent_mode == o.agent_mode
        &&& f.right_panel_visible == o.right_panel_visible
        &&& f.new_project_dialog == o.new_project_dialog
        &&& f.workspace == o.workspace
        &&& f.explorer == o.explorer
        &&& f.last_workspace == o.last_workspace
    }
}

/// Replaces every match of the query by the replacement text as one undo
/// group, marks the tab modified and reports the number of replacements.
#[verifier::spinoff_prover]
#[verifier::rlimit(60)]
pub fn replace_all(state: &mut EditorState) -> (count: usize)
    requires
        old(state).wf(),
        replace_all_fits(*old(state)),
    ensures
        final(state).wf(),
        replace_all_done(*old(state), *final(state), count),
{
    if state.find.query.as_str().is_empty() || state.find.query == state.find.replace_text {
        return 0;
    }
    find_all(&mut state.find, &state.content);
    let count = state.find.results.len();
    if count == 0 {
        return 0;
    }
    let ghost t = state.content.buffer@;
    let ghost b0 = state.content.buffer;
    let ghost qs = str_bytes(state.find.query);
    let ghost rs = str_bytes(state.find.replace_text);
    proof {
        lemma_all_matches(b0, qs, b0.line_count() as int);
        lemma_match_offsets(b0, qs, state.find.results@);
    }
    let ghost offs = match_offsets(b0, state.find.results@);
    let query_len = state.find.query.as_str().as_bytes().len();
    let replace_text = state.find.replace_text.clone();
    let r = replace_text.as_str().as_bytes();
    let mut offsets: Vec<usize> = Vec::with_capacity(count);
    let mut j: usize = 0;
    while j < count
        invariant
            state.wf(),
            b0.wf(),
            state.content.buffer == b0,
            t == b0@,
            count == state.find.results@.len(),
            matches_ok(b0, qs, state.find.results@),
            j <= count,
            offsets@.len() == j,
            offs == match_offsets(b0, state.find.results@),
            offsets_ok(t, qs, offs),
            forall|i: int| 0 <= i < j ==> offsets@[i] as int == offs[i],
        decreases count - j,
    {
        let (line, col) = state.find.results[j];
        proof {
            assert(matches_at(t, qs, offs[j as int]));
        }
        offsets.push(line_byte_start(state, line) + col);
        j = j + 1;
    }
    let cursor_before = CursorPosition::new(state.content.cursor_line, state.content.cursor_col);
    state.content.history.begin_group();
    proof {
        assert(usize_ints(offsets@) =~= offs);
        assert forall|k: int| 0 <= k < offs.len() implies 0 <= #[trigger] offs[k] && offs[k]
            + query_len <= t.len() by {
            assert(matches_at(t, qs, offs[k]));
        }
    }
    replace_spans_from_back(
        &mut state.content.buffer,
        &mut state.content.history,
        &offsets,
        query_len,
        r,
        cursor_before,
    );
    state.content.history.end_group();
    state.content.is_dirty = true;
    let active = state.tab_bar.active_tab;
    if active < state.tab_bar.tabs.len() {
        state.tab_bar.tabs[active].mark_dirty();
    }
    state.content.buffer_version = state.content.buffer_version + 1;
    state.find.results = Vec::new();
    state.find.active_index = 0;
    state.status = StatusMessage::Replaced(count);
    count
}

impl EditorState {
    /// Replaces every match of the query (see the free function).
    pub fn replace_all(&mut self) -> (count: usize)
        requires
            old(self).wf(),
            replace_all_fits(*old(self)),
        ensures
            final(self).wf(),
            replace_all_done(*old(self), *final(self), count),
    {
        replace_all(self)
    }
}

/// Going to the next match and then to the previous one comes back to the
/// match that was active, with the same results.
pub proof fn law_find_prev_undoes_find_next(
    f: FindState,
    c: TabContent,
    n1: FindState,
    c1: TabContent,
    n2: FindState,
    c2: TabContent,
)
    requires
        f.results@.len() > 0,
        f.active_index < f.results@.len(),
        moved_to_match(f, c, n1, c1, true),
        moved_to_match(n1, c1, n2, c2, false),
    ensures
        n2 == f,
        c2 == select_match(
            c,
            str_bytes(f.query).len() as int,
            f.results@[f.active_index as int].0,
            f.results@[f.active_index as int].1,
        ),
{
    let len = f.results@.len() as int;
    let a = f.active_index as int;
    assert(FindState { active_index: f.active_index, ..n1 } == f);
    assert(n1.results@ == f.results@);
    assert(FindState { active_index: n1.active_index, ..n2 } == n1);
    if a + 1 < len {
        assert((a + 1) % len == a + 1) by (nonlinear_arith)
            requires
                0 <= a + 1 < len,
        ;
    } else {
        assert((a + 1) % len == 0) by (nonlinear_arith)
            requires
                a + 1 == len,
                len > 0,
        ;
    }
}

/// Going to the previous match and then to the next one comes back to the
/// match that was active, with the same results.
pub proof fn law_find_next_undoes_find_prev(
    f: FindState,
    c: TabContent,
    n1: FindState,
    c1: TabContent,
    n2: FindState,
    c2: TabContent,
)
    requires
        f.results@.len() > 0,
        f.active_index < f.results@.len(),
        moved_to_match(f, c, n1, c1, false),
        moved_to_match(n1, c1, n2, c2, true),
    ensures
        n2 == f,
        c2 == select_match(
            c,
            str_bytes(f.query).len() as int,
            f.results@[f.active_index as int].0,
            f.results@[f.active_index as int].1,
        ),
{
    let len = f.results@.len() as int;
    let a = f.active_index as int;
    assert(FindState { active_index: f.active_index, ..n1 } == f);
    assert(n1.results@ == f.results@);
    assert(FindState { active_index: n1.active_index, ..n2 } == n1);
    let b = n1.active_index as int;
    if b + 1 < len {
        assert((b + 1) % len == b + 1) by (nonlinear_arith)
            requires
                0 <= b + 1 < len,
        ;
    } else {
        assert((b + 1) % len == 0) by (nonlinear_arith)
            requires
                b + 1 == len,
                len > 0,
        ;
    }
}

/// Steps `fs[k]`, `cs[k]` to `fs[k + 1]`, `cs[k + 1]` are each a move to
/// the next match.
pub open spec fn next_moves(fs: Seq<FindState>, cs: Seq<TabContent>) -> bool {
    &&& fs.len() == cs.len()
    &&& forall|k: int|
        0 <= k < fs.len() - 1 ==> moved_to_match(
            #[trigger] fs[k],
            cs[k],
            fs[k + 1],
            cs[k + 1],
            true,
        )
}

proof fn lemma_next_moves(fs: Seq<FindState>, cs: Seq<TabContent>, k: int)
    requires
        next_moves(fs, cs),
        fs.len() > 0,
        fs[0].results@.len() > 0,
        fs[0].active_index < fs[0].results@.len(),
        1 <= k < fs.len(),
    ensures
        fs[k] == (FindState {
            active_index: ((fs[0].active_index + k) % (fs[0].results@.len() as int)) as usize,
            ..fs[0]
        }),
        cs[k] == select_match(
            cs[0],
            str_bytes(fs[0].query).len() as int,
            fs[0].results@[(fs[0].active_index + k) % (fs[0].results@.len() as int)].0,
            fs[0].results@[(fs[0].active_index + k) % (fs[0].results@.len() as int)].1,
        ),
    decreases k,
{
    let len = fs[0].results@.len() as int;
    let a = fs[0].active_index as int;
    if k > 1 {
        lemma_next_moves(fs, cs, k - 1);
    }
    let p = fs[k - 1];
    assert(moved_to_match(fs[k - 1], cs[k - 1], fs[k], cs[k], true));
    assert(FindState { active_index: p.active_index, ..fs[k] } == p);
    let m = (a + k - 1) % len;
    assert(0 <= m < len) by {
        vstd::arithmetic::div_mod::lemma_mod_pos_bound(a + k - 1, len);
    }
    if k == 1 {
        assert(a % len == a) by {
            vstd::arithmetic::div_mod::lemma_small_mod(a as nat, len as nat);
        }
        assert(a + k - 1 == a);
        assert(k - 1 == 0);
        assert(p == fs[0]);
        assert(m == a % len);
        assert(m == a);
        assert(p.active_index == fs[0].active_index);
        assert(p.active_index as int == a);
        assert(p.active_index as int == m);
    } else {
        assert(a + (k - 1) == a + k - 1);
        vstd::std_specs::vec::axiom_spec_len(&fs[0].results);
        assert(len <= usize::MAX);
        assert(p.active_index == (m as usize));
        assert(p.active_index as int == m);
    }
    vstd::arithmetic::div_mod::lemma_add_mod_noop_right(1, a + k - 1, len);
    assert((m + 1) % len == (a + k) % len);
}

/// Going to the next match as many times as there are matches comes back
/// to the match that was active, with the same results, and selects it.
#[verifier::spinoff_prover]
#[verifier::rlimit(40)]
pub proof fn law_find_next_cycles(fs: Seq<FindState>, cs: Seq<TabContent>)
    requires
        next_moves(fs, cs),
        fs.len() > 0,
        fs[0].results@.len() > 0,
        fs[0].active_index < fs[0].results@.len(),
        fs.len() == fs[0].results@.len() + 1,
    ensures
        fs.last() == fs[0],
        cs.last() == select_match(
            cs[0],
            str_bytes(fs[0].query).len() as int,
            fs[0].results@[fs[0].active_index as int].0,
            fs[0].results@[fs[0].active_index as int].1,
        ),
{
    let len = fs[0].results@.len() as int;
    let a = fs[0].active_index as int;
    lemma_next_moves(fs, cs, len);
    vstd::arithmetic::div_mod::lemma_mod_add_multiples_vanish(a, len);
    vstd::arithmetic::div_mod::lemma_small_mod(a as nat, len as nat);
    assert((a + len) % len == a);
}

/// Undoing the edit that `replace_current` records gives back the text as
/// it was before the replacement.
pub proof fn law_replace_current_undo_restores(
    f: FindState,
    c: TabContent,
    nc: TabContent,
)
    requires
        f.results@.len() > 0,
        f.active_index < f.results@.len(),
        replace_current_fits(f, c),
        ({
            let (line, col) = f.results@[f.active_index as int];
            let pos = match_offset(c.buffer, line as int, col as int);
            let q = str_bytes(f.query);
            let r = str_bytes(f.replace_text);
            let t = c.buffer@;
            &&& nc.buffer@ == t.subrange(0, pos) + r + t.subrange(pos + q.len(), t.len() as int)
            &&& nc.history.records@.len() == c.history.records@.len() + 1
            &&& nc.history.records@.last().pos == pos
            &&& nc.history.records@.last().removed@ == t.subrange(pos, pos + q.len())
            &&& nc.history.records@.last().inserted@ == r
        }),
    ensures
        undo_record(nc.buffer@, nc.history.records@.last()) == c.buffer@,
{
    let (line, col) = f.results@[f.active_index as int];
    let pos = match_offset(c.buffer, line as int, col as int);
    let q = str_bytes(f.query);
    let r = str_bytes(f.replace_text);
    let t = c.buffer@;
    let u = nc.buffer@;
    assert(u.subrange(0, pos) =~= t.subrange(0, pos));
    assert(u.subrange(pos + r.len(), u.len() as int) =~= t.subrange(pos + q.len(), t.len() as int));
    assert(undo_record(u, nc.history.records@.last()) =~= t);
}

/// Spans that all start at or after `p` leave the first `p` bytes alone.
proof fn lemma_replaced_at_prefix(t: Seq<u8>, offs: Seq<int>, q_len: int, r: Seq<u8>, p: int)
    requires
        0 <= q_len,
        0 <= p <= t.len(),
        spans_within(offs, q_len, t.len() as int),
        forall|k: int| 0 <= k < offs.len() ==> p <= #[trigger] offs[k],
    ensures
        p <= replaced_at(t, offs, q_len, r).len(),
        replaced_at(t, offs, q_len, r).subrange(0, p) == t.subrange(0, p),
    decreases offs.len(),
{
    reveal_with_fuel(replaced_at, 1);
    if offs.len() > 0 {
        let o = offs.last();
        let d = offs.drop_last();
        let u = t.subrange(0, o);
        assert forall|k: int| 0 <= k < d.len() implies 0 <= #[trigger] d[k] && d[k] + q_len <= u.len() by {
            assert(d[k] == offs[k]);
            if k < d.len() - 1 {
                assert(offs[k] + q_len <= offs[k + 1]);
            }
            assert(offs[k] + q_len <= offs[offs.len() - 1]) by {
                lemma_spans_ascending(offs, q_len, t.len() as int, k, offs.len() - 1);
            }
        }
        assert forall|k: int| 0 <= k < d.len() - 1 implies #[trigger] d[k] + q_len <= d[k + 1] by {
            assert(d[k] == offs[k] && d[k + 1] == offs[k + 1]);
        }
        assert forall|k: int| 0 <= k < d.len() implies p <= #[trigger] d[k] by {
            assert(d[k] == offs[k]);
        }
        lemma_replaced_at_prefix(u, d, q_len, r, p);
        let x = replaced_at(u, d, q_len, r);
        assert((x + r + t.subrange(o + q_len, t.len() as int)).subrange(0, p) =~= x.subrange(0, p));
        assert(u.subrange(0, p) =~= t.subrange(0, p));
    }
}

/// In ascending disjoint spans, an earlier span ends before a later one starts.
proof fn lemma_spans_ascending(offs: Seq<int>, q_len: int, len: int, i: int, j: int)
    requires
        spans_within(offs, q_len, len),
        0 <= q_len,
        0 <= i < j < offs.len(),
    ensures
        offs[i] + q_len <= offs[j],
    decreases j - i,
{
    if i + 1 < j {
        lemma_spans_ascending(offs, q_len, len, i + 1, j);
        assert(offs[i] + q_len <= offs[i + 1]);
    } else {
        assert(offs[i] + q_len <= offs[i + 1]);
    }
}

/// Replacing all spans is replacing the first one in front of the text
/// with all the other spans replaced.
#[verifier::spinoff_prover]
#[verifier::rlimit(30)]
proof fn lemma_replaced_at_first(t: Seq<u8>, offs: Seq<int>, q_len: int, r: Seq<u8>)
    requires
        0 <= q_len,
        offs.len() > 0,
        spans_within(offs, q_len, t.len() as int),
    ensures
        ({
            let o0 = offs[0];
            let y = replaced_at(t, offs.drop_first(), q_len, r);
            &&& o0 + q_len <= y.len()
            &&& replaced_at(t, offs, q_len, r) == t.subrange(0, o0) + r + y.subrange(
                o0 + q_len,
                y.len() as int,
            )
        }),
    decreases offs.len(),
{
    reveal_with_fuel(replaced_at, 2);
    let o0 = offs[0];
    let rest = offs.drop_first();
    assert(spans_within(rest, q_len, t.len() as int)) by {
        assert forall|k: int| 0 <= k < rest.len() implies 0 <= #[trigger] rest[k] && rest[k] + q_len
            <= t.len() by {
            assert(rest[k] == offs[k + 1]);
        }
        assert forall|k: int| 0 <= k < rest.len() - 1 implies #[trigger] rest[k] + q_len <= rest[k
            + 1] by {
            assert(rest[k] == offs[k + 1] && rest[k + 1] == offs[k + 2]);
        }
    }
    assert forall|k: int| 0 <= k < rest.len() implies o0 + q_len <= #[trigger] rest[k] by {
        assert(rest[k] == offs[k + 1]);
        lemma_spans_ascending(offs, q_len, t.len() as int, 0, k + 1);
    }
    lemma_replaced_at_prefix(t, rest, q_len, r, o0 + q_len);
    let y = replaced_at(t, rest, q_len, r);
    if offs.len() == 1 {
        assert(rest =~= Seq::<int>::empty());
        assert(offs.drop_last() =~= Seq::<int>::empty());
        assert(offs.last() == o0);
        assert(replaced_at(t, offs, q_len, r) =~= t.subrange(0, o0) + r + y.subrange(
            o0 + q_len,
            y.len() as int,
        ));
    } else {
        let o = offs.last();
        let u = t.subrange(0, o);
        let d = offs.drop_last();
        assert(spans_within(d, q_len, u.len() as int)) by {
            assert forall|k: int| 0 <= k < d.len() implies 0 <= #[trigger] d[k] && d[k] + q_len
                <= u.len() by {
                assert(d[k] == offs[k]);
                lemma_spans_ascending(offs, q_len, t.len() as int, k, offs.len() - 1);
            }
            assert forall|k: int| 0 <= k < d.len() - 1 implies #[trigger] d[k] + q_len <= d[k
                + 1] by {
                assert(d[k] == offs[k] && d[k + 1] == offs[k + 1]);
            }
        }
        lemma_replaced_at_first(u, d, q_len, r);
        assert(d[0] == o0);
        let d_rest = d.drop_first();
        assert(d_rest =~= rest.drop_last());
        assert(rest.last() == o);
        let y2 = replaced_at(u, d_rest, q_len, r);
        assert(y == y2 + r + t.subrange(o + q_len, t.len() as int));
        assert(y.subrange(o0 + q_len, y.len() as int) =~= y2.subrange(o0 + q_len, y2.len() as int)
            + r + t.subrange(o + q_len, t.len() as int));
        assert(u.subrange(0, o0) =~= t.subrange(0, o0));
        let x = replaced_at(u, d, q_len, r);
        assert(x == u.subrange(0, o0) + r + y2.subrange(o0 + q_len, y2.len() as int));
        assert(replaced_at(t, offs, q_len, r) == x + r + t.subrange(o + q_len, t.len() as int));
        assert(replaced_at(t, offs, q_len, r) =~= t.subrange(0, o0) + r + y.subrange(
            o0 + q_len,
            y.len() as int,
        ));
    }
}

/// Undoing the records of a replace-all (latest first) gives back the text
/// before it: the replacements from `offs[k]` on are undone one by one.
proof fn lemma_undo_replaced(
    t: Seq<u8>,
    offs: Seq<int>,
    q_len: int,
    r: Seq<u8>,
    recs: Seq<crate::state::EditRecord>,
    k: int,
)
    requires
        0 <= q_len,
        0 <= k <= offs.len(),
        spans_within(offs, q_len, t.len() as int),
        recs.len() == offs.len(),
        forall|j: int|
            0 <= j < recs.len() ==> {
                let rec = #[trigger] recs[j];
                let o = offs[offs.len() - 1 - j];
                &&& rec.pos == o
                &&& rec.removed@ == t.subrange(o, o + q_len)
                &&& rec.inserted@ == r
            },
    ensures
        undo_records(
            replaced_at(t, offs.subrange(k, offs.len() as int), q_len, r),
            recs.subrange(0, offs.len() - k),
        ) == t,
    decreases offs.len() - k,
{
    let n = offs.len() as int;
    let sub = offs.subrange(k, n);
    assert(spans_within(sub, q_len, t.len() as int)) by {
        assert forall|i: int| 0 <= i < sub.len() implies 0 <= #[trigger] sub[i] && sub[i] + q_len
            <= t.len() by {
            assert(sub[i] == offs[k + i]);
        }
        assert forall|i: int| 0 <= i < sub.len() - 1 implies #[trigger] sub[i] + q_len <= sub[i
            + 1] by {
            assert(sub[i] == offs[k + i] && sub[i + 1] == offs[k + i + 1]);
        }
    }
    if k == n {
        reveal_with_fuel(replaced_at, 1);
        assert(sub =~= Seq::<int>::empty());
        assert(recs.subrange(0, 0) =~= Seq::<crate::state::EditRecord>::empty());
    } else {
        let g = replaced_at(t, sub, q_len, r);
        let next = offs.subrange(k + 1, n);
        assert(sub.drop_first() =~= next);
        lemma_replaced_at_first(t, sub, q_len, r);
        let y = replaced_at(t, next, q_len, r);
        let o = offs[k];
        assert(sub[0] == o);
        assert(spans_within(next, q_len, t.len() as int)) by {
            assert forall|i: int| 0 <= i < next.len() implies 0 <= #[trigger] next[i] && next[i]
                + q_len <= t.len() by {
                assert(next[i] == offs[k + 1 + i]);
            }
            assert forall|i: int| 0 <= i < next.len() - 1 implies #[trigger] next[i] + q_len
                <= next[i + 1] by {
                assert(next[i] == offs[k + 1 + i] && next[i + 1] == offs[k + 2 + i]);
            }
        }
        assert forall|i: int| 0 <= i < next.len() implies o + q_len <= #[trigger] next[i] by {
            assert(next[i] == offs[k + 1 + i]);
            lemma_spans_ascending(offs, q_len, t.len() as int, k, k + 1 + i);
        }
        lemma_replaced_at_prefix(t, next, q_len, r, o + q_len);
        let rs = recs.subrange(0, n - k);
        let rec = rs.last();
        assert(rec == recs[n - k - 1]);
        assert(rec.pos == o);
        assert(undo_record(g, rec) =~= y) by {
            assert(g.subrange(0, o) =~= t.subrange(0, o));
            assert(g.subrange(o + r.len(), g.len() as int) =~= y.subrange(o + q_len, y.len() as int));
            assert(y =~= y.subrange(0, o + q_len) + y.subrange(o + q_len, y.len() as int));
            assert(t.subrange(0, o + q_len) =~= t.subrange(0, o) + t.subrange(o, o + q_len));
        }
        assert(rs.drop_last() =~= recs.subrange(0, n - (k + 1)));
        lemma_undo_replaced(t, offs, q_len, r, recs, k + 1);
    }
}

/// The edits that `replace_all` records form one undo group that brings the
/// cursor back to where it was, and undoing them, latest first, gives back
/// the text as it was before the replacement.
pub proof fn law_replace_all_undo_restores(o: EditorState, f: EditorState)
    requires
        o.wf(),
        replace_all_fits(o),
        o.find.query@.len() > 0,
        o.find.query@ != o.find.replace_text@,
        text_matches(o.content.buffer, str_bytes(o.find.query)).len() > 0,
        ({
            let q = str_bytes(o.find.query);
            let r = str_bytes(o.find.replace_text);
            let res = text_matches(o.content.buffer, q);
            let offs = match_offsets(o.content.buffer, res);
            let t = o.content.buffer@;
            &&& f.content.buffer@ == replaced_at(t, offs, q.len() as int, r)
            &&& replace_all_records(
                o.content.history.records@,
                f.content.history.records@,
                t,
                offs,
                q.len() as int,
                r,
                CursorPosition { line: o.content.cursor_line, column: o.content.cursor_col },
                Some(o.content.history.groups_opened),
            )
        }),
    ensures
        undo_records(
            f.content.buffer@,
            f.content.history.records@.subrange(
                o.content.history.records@.len() as int,
                f.content.history.records@.len() as int,
            ),
        ) == o.content.buffer@,
        forall|j: int|
            o.content.history.records@.len() <= j < f.content.history.records@.len() ==> {
                &&& (#[trigger] f.content.history.records@[j]).group == Some(
                    o.content.history.groups_opened,
                )
                &&& f.content.history.records@[j].cursor_before == (CursorPosition {
                    line: o.content.cursor_line,
                    column: o.content.cursor_col,
                })
            },
{
    let q = str_bytes(o.find.query);
    let r = str_bytes(o.find.replace_text);
    let b = o.content.buffer;
    let res = text_matches(b, q);
    assert forall|j: int|
        o.content.history.records@.len() <= j < f.content.history.records@.len() implies {
            &&& (#[trigger] f.content.history.records@[j]).group == Some(
                o.content.history.groups_opened,
            )
            &&& f.content.history.records@[j].cursor_before == (CursorPosition {
                line: o.content.cursor_line,
                column: o.content.cursor_col,
            })
        } by {
        let jj = j - o.content.history.records@.len();
        assert(f.content.history.records@[o.content.history.records@.len() + jj]
            == f.content.history.records@[j]);
    }
    let offs = match_offsets(b, res);
    let t = b@;
    lemma_all_matches(b, q, b.line_count() as int);
    lemma_match_offsets(b, q, res);
    assert(spans_within(offs, q.len() as int, t.len() as int)) by {
        assert forall|k: int| 0 <= k < offs.len() implies 0 <= #[trigger] offs[k] && offs[k] + q.len()
            <= t.len() by {
            assert(matches_at(t, q, offs[k]));
        }
    }
    let m = o.content.history.records@.len() as int;
    let recs = f.content.history.records@.subrange(m, f.content.history.records@.len() as int);
    assert forall|j: int| 0 <= j < recs.len() implies {
        let rec = #[trigger] recs[j];
        let oo = offs[offs.len() - 1 - j];
        &&& rec.pos == oo
        &&& rec.removed@ == t.subrange(oo, oo + q.len())
        &&& rec.inserted@ == r
    } by {
        assert(recs[j] == f.content.history.records@[m + j]);
    }
    lemma_undo_replaced(t, offs, q.len() as int, r, recs, 0);
    assert(offs.subrange(0, offs.len() as int) =~= offs);
    assert(recs.subrange(0, offs.len() as int) =~= recs);
}

} // verus!
