//! The stack of recent file deletions that Ctrl+Z can undo.  Undoing pops
//! the most recent deletion that is still fresh; older ones are dropped (the
//! recycle bin still has them).  A deleted file's text is written back from,
//! in this order: the tab that still holds it, the snapshot taken when it
//! was deleted; without either only the recycle bin can restore it.
use std::path::PathBuf;
use std::time::{Duration, Instant};
use vstd::prelude::*;
use vstd::utf8::encode_utf8;

use crate::files::{active_is_file, tab_file};
use crate::state::{EditorState, Tab, TabBar, TabContent};

verus! {

#[verifier::external_type_specification]
#[verifier::external_body]
pub struct ExInstant(Instant);

#[verifier::external_type_specification]
#[verifier::external_body]
pub struct ExPathBuf(PathBuf);

/// `PathBuf::clone`: a new buffer holding the same path; the result is
/// claimed equal to the original.
pub assume_specification[ <PathBuf as Clone>::clone ](p: &PathBuf) -> (r: PathBuf)
    ensures
        r == *p,
;

/// `Instant::clone`: `Instant` is `Copy`, so the clone is the same clock
/// reading.
pub assume_specification[ <Instant as Clone>::clone ](t: &Instant) -> (r: Instant)
    ensures
        r == *t,
;

/// Age in seconds from which a deletion is no longer offered for undo.
pub const UNDO_WINDOW_SECS: u64 = 300;

/// One deleted file or folder.
#[derive(Clone, Debug)]
pub struct DeleteRecord {
    /// Absolute path the file or folder had.
    pub original_path: PathBuf,
    /// When it was deleted.
    pub timestamp: Instant,
    /// The file's text at deletion, when it was a file with a cached source;
    /// `None` for folders and large files, which only the recycle bin restores.
    pub content: Option<String>,
}

/// The records among the first `n` of `s` whose age (`ages`, same order) is
/// under the undo window, in stack order.
pub open spec fn fresh_records(s: Seq<DeleteRecord>, ages: Seq<u64>, n: int) -> Seq<DeleteRecord>
    decreases n,
{
    if n <= 0 {
        Seq::empty()
    } else {
        let p = fresh_records(s, ages, n - 1);
        if ages[n - 1] < UNDO_WINDOW_SECS {
            p.push(s[n - 1])
        } else {
            p
        }
    }
}

/// The stack `after` and the popped record `r` that undoing gives on the
/// stack `before` whose records have the ages `ages`.
pub open spec fn undo_outcome(
    before: Seq<DeleteRecord>,
    ages: Seq<u64>,
    after: Seq<DeleteRecord>,
    r: Option<DeleteRecord>,
) -> bool {
    let k = fresh_records(before, ages, before.len() as int);
    if k.len() == 0 {
        after.len() == 0 && r.is_none()
    } else {
        after == k.drop_last() && r == Some(k.last())
    }
}

/// Drops the records whose age (`ages[i]` for `stack[i]`) has reached the
/// undo window, then pops the most recent remaining one.
pub fn pop_last_delete_with_ages(stack: &mut Vec<DeleteRecord>, ages: &[u64]) -> (r: Option<
    DeleteRecord,
>)
    requires
        ages@.len() == old(stack)@.len(),
    ensures
        undo_outcome(old(stack)@, ages@, final(stack)@, r),
{
    let ghost s0 = stack@;
    let n = stack.len();
    let mut src: Vec<DeleteRecord> = Vec::new();
    std::mem::swap(stack, &mut src);
    let mut i: usize = 0;
    while i < n
        invariant
            n == s0.len() == ages@.len(),
            i <= n,
            src@ == s0.subrange(i as int, n as int),
            stack@ == fresh_records(s0, ages@, i as int),
        decreases n - i,
    {
        let rec = src.remove(0);
        proof {
            assert(rec == s0[i as int]);
            assert(src@ =~= s0.subrange(i + 1, n as int));
        }
        if ages[i] < UNDO_WINDOW_SECS {
            stack.push(rec);
        }
        i = i + 1;
    }
    stack.pop()
}

/// `Instant::now`: a reading of the monotonic clock.  Nothing is stated of it.
#[verifier::external_body]
fn clock_now() -> Instant {
    Instant::now()
}

/// The time from the clock reading `earlier` to the reading `now` (zero
/// when `earlier` is the later one), as `Instant::duration_since` gives it.
pub uninterp spec fn duration_between(now: Instant, earlier: Instant) -> Duration;

/// `Instant::duration_since`: the time from `earlier` to `now`, zero when
/// `earlier` is the later one (named `duration_between`).  Clock readings
/// are not modelled, so nothing more is stated of the result.
#[verifier::external_body]
fn instant_duration_since(now: &Instant, earlier: &Instant) -> (d: Duration)
    ensures
        d == duration_between(*now, *earlier),
{
    now.duration_since(*earlier)
}

/// The whole seconds of the span `d`, as `Duration::as_secs` gives them.
pub uninterp spec fn whole_secs(d: Duration) -> u64;

/// `Duration::as_secs`: the whole seconds of `d` (named `whole_secs`).
#[verifier::external_body]
fn duration_as_secs(d: &Duration) -> (r: u64)
    ensures
        r == whole_secs(*d),
{
    d.as_secs()
}

/// The age of each record at the clock reading `now`.
pub open spec fn record_ages(s: Seq<DeleteRecord>, now: Instant) -> Seq<u64> {
    s.map_values(|d: DeleteRecord| whole_secs(duration_between(now, d.timestamp)))
}

/// Undoes the most recent deletion: drops the deletions that are five
/// minutes old or older, then pops the most recent remaining one.  `None`
/// when none remains.  Which records are fresh depends on the clock; the
/// outcome is the one for the records' ages at the time of the call.
pub fn pop_last_delete(stack: &mut Vec<DeleteRecord>) -> (r: Option<DeleteRecord>)
    ensures
        exists|now: Instant|
            undo_outcome(
                old(stack)@,
                #[trigger] record_ages(old(stack)@, now),
                final(stack)@,
                r,
            ),
{
    let now = clock_now();
    let mut ages: Vec<u64> = Vec::with_capacity(stack.len());
    let mut i: usize = 0;
    while i < stack.len()
        invariant
            i <= stack@.len(),
            ages@ == record_ages(stack@, now).subrange(0, i as int),
        decreases stack@.len() - i,
    {
        ages.push(duration_as_secs(&instant_duration_since(&now, &stack[i].timestamp)));
        i = i + 1;
    }
    let r = pop_last_delete_with_ages(stack, ages.as_slice());
    proof {
        assert(ages@ =~= record_ages(old(stack)@, now));
        assert(undo_outcome(old(stack)@, record_ages(old(stack)@, now), stack@, r));
    }
    r
}

/// The tab holds the file `path` and it was deleted from disk.
pub open spec fn deleted_tab_of(t: Tab, path: Seq<char>) -> bool {
    tab_file(t) == Some(path) && t->File_0.deleted_from_disk
}

/// The first tab from `i` on that holds the deleted file `path`.
pub open spec fn first_deleted_tab(tabs: Seq<Tab>, path: Seq<char>, i: int) -> Option<int>
    decreases tabs.len() - i,
{
    if i < 0 || i >= tabs.len() {
        None
    } else if deleted_tab_of(tabs[i], path) {
        Some(i)
    } else {
        first_deleted_tab(tabs, path, i + 1)
    }
}

/// The text to write back for the deleted file `path`: the active
/// content's, when it is that file and was deleted; else that of the first
/// tab that holds the deleted file; else the snapshot taken at deletion.
pub open spec fn restore_text(s: EditorState, path: Seq<char>, snapshot: Option<Seq<char>>) -> Option<
    Seq<u8>,
> {
    if s.content.deleted_from_disk && active_is_file(s, path) {
        Some(s.content.buffer@)
    } else {
        match first_deleted_tab(s.tab_bar.tabs@, path, 0) {
            Some(k) => Some(s.tab_bar.tabs@[k]->File_0.buffer@),
            None => match snapshot {
                Some(t) => Some(encode_utf8(t)),
                None => None,
            },
        }
    }
}

/// The bytes to write back for the deleted file `path`, whose snapshot at
/// deletion is `snapshot` (see `restore_text`); `None` when there are none.
pub fn deleted_file_text(state: &EditorState, path: &String, snapshot: Option<String>) -> (r: Option<
    Vec<u8>,
>)
    ensures
        match (
            r,
            restore_text(
                *state,
                path@,
                match snapshot {
                    Some(t) => Some(t@),
                    None => None,
                },
            ),
        ) {
            (Some(v), Some(t)) => v@ == t,
            (None, None) => true,
            _ => false,
        },
{
    let active = match &state.content.file_path {
        Some(p) => *p == *path,
        None => false,
    };
    if state.content.deleted_from_disk && active {
        return Some(state.content.buffer.all_bytes());
    }
    let tabs = &state.tab_bar.tabs;
    let mut i: usize = 0;
    while i < tabs.len()
        invariant
            i <= tabs@.len(),
            tabs@ == state.tab_bar.tabs@,
            !(state.content.deleted_from_disk && active_is_file(*state, path@)),
            first_deleted_tab(tabs@, path@, 0) == first_deleted_tab(tabs@, path@, i as int),
        decreases tabs@.len() - i,
    {
        match &tabs[i] {
            Tab::File(c) => {
                let holds = match &c.file_path {
                    Some(p) => *p == *path,
                    None => false,
                };
                if holds && c.deleted_from_disk {
                    proof {
                        assert(deleted_tab_of(tabs@[i as int], path@));
                        assert(first_deleted_tab(tabs@, path@, i as int) == Some(i as int));
                    }
                    return Some(c.buffer.all_bytes());
                }
            },
            _ => {},
        }
        i = i + 1;
    }
    proof {
        assert(first_deleted_tab(tabs@, path@, i as int).is_none());
    }
    match snapshot {
        Some(t) => {
            let b = t.as_str().as_bytes();
            assert(b@ == encode_utf8(t@));
            Some(vstd::slice::slice_to_vec(b))
        },
        None => None,
    }
}

/// `c` with its deletion mark cleared when it holds the file `path`.
pub open spec fn content_unmarked(c: TabContent, path: Seq<char>) -> TabContent {
    if c.file_path is Some && c.file_path->0@ == path {
        TabContent { deleted_from_disk: false, ..c }
    } else {
        c
    }
}

/// `t` with its deletion mark cleared when it holds the file `path`.
pub open spec fn tab_unmarked(t: Tab, path: Seq<char>) -> Tab {
    match t {
        Tab::File(c) => Tab::File(content_unmarked(c, path)),
        _ => t,
    }
}

/// Clears the deletion mark of the active content and of every tab that
/// holds the file `path` (it was restored); nothing else changes.
pub fn clear_deleted_mark(state: &mut EditorState, path: &String)
    ensures
        *final(state) == (EditorState {
            content: content_unmarked(old(state).content, path@),
            tab_bar: TabBar { tabs: final(state).tab_bar.tabs, ..old(state).tab_bar },
            ..*old(state)
        }),
        final(state).tab_bar.tabs@ == old(state).tab_bar.tabs@.map_values(
            |t: Tab| tab_unmarked(t, path@),
        ),
{
    let active = match &state.content.file_path {
        Some(p) => *p == *path,
        None => false,
    };
    if active {
        state.content.deleted_from_disk = false;
    }
    let ghost tabs0 = state.tab_bar.tabs@;
    let mut i: usize = 0;
    while i < state.tab_bar.tabs.len()
        invariant
            i <= state.tab_bar.tabs@.len() == tabs0.len(),
            forall|k: int|
                0 <= k < i ==> #[trigger] state.tab_bar.tabs@[k] == tab_unmarked(tabs0[k], path@),
            forall|k: int| i <= k < tabs0.len() ==> #[trigger] state.tab_bar.tabs@[k] == tabs0[k],
            *state == (EditorState {
                content: content_unmarked(old(state).content, path@),
                tab_bar: TabBar { tabs: state.tab_bar.tabs, ..old(state).tab_bar },
                ..*old(state)
            }),
        decreases tabs0.len() - i,
    {
        let holds = match &state.tab_bar.tabs[i] {
            Tab::File(c) => match &c.file_path {
                Some(p) => *p == *path,
                None => false,
            },
            _ => false,
        };
        if holds {
            match &mut state.tab_bar.tabs[i] {
                Tab::File(c) => {
                    c.deleted_from_disk = false;
                },
                _ => {},
            }
        }
        i = i + 1;
    }
    proof {
        assert(state.tab_bar.tabs@ =~= tabs0.map_values(|t: Tab| tab_unmarked(t, path@)));
    }
}

} // verus!
