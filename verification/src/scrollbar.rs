//! The editor's overlay scrollbars: which bar the pointer works on and what a
//! pointer move means, and the width of the widest line, which the
//! horizontal bar is sized by.  Geometry is computed by the window in pixels.
use vstd::prelude::*;

use crate::cursor::{n_lines, spec_visible_line_range, visible_line_range};
use crate::state::{EditorState, TabContent};

verus! {

/// A scrollbar.
#[derive(Clone, Copy, Debug, PartialEq, Eq, Structural)]
pub enum Axis {
    Vertical,
    Horizontal,
}

/// What a pointer move did to the scrollbars.
#[derive(Clone, Copy, Debug, PartialEq, Eq, Structural)]
pub enum MoveOutcome {
    /// A thumb is being dragged: the window scrolls, repaints and consumes the event.
    Dragged,
    /// The highlighted bar changed: the window repaints.
    HoverChanged,
    /// Nothing to do with the scrollbars.
    Ignored,
}

/// Pointer state of the scrollbars: the bar whose thumb is dragged and the
/// bar under the pointer.
#[derive(Clone, Copy, Debug, PartialEq, Eq, Structural)]
pub struct ScrollbarPointer {
    pub drag: Option<Axis>,
    pub hover: Option<Axis>,
}

/// The outcome of a pointer move and the pointer state after it.
/// `editor_shown`: the view shows a code editor; `under_pointer`: the bar
/// the pointer is over.
pub open spec fn spec_pointer_moved(
    p: ScrollbarPointer,
    editor_shown: bool,
    under_pointer: Option<Axis>,
) -> (MoveOutcome, ScrollbarPointer) {
    if !editor_shown {
        if p.hover.is_some() {
            (MoveOutcome::HoverChanged, ScrollbarPointer { hover: None, ..p })
        } else {
            (MoveOutcome::Ignored, p)
        }
    } else if p.drag.is_some() {
        (MoveOutcome::Dragged, p)
    } else if under_pointer != p.hover {
        (MoveOutcome::HoverChanged, ScrollbarPointer { hover: under_pointer, ..p })
    } else {
        (MoveOutcome::Ignored, p)
    }
}

/// Handles a pointer move: while a thumb is dragged the move scrolls (the
/// window applies it); otherwise the highlighted bar follows the pointer.
/// Without a code editor on show, a highlight is cleared.
pub fn pointer_moved(
    pointer: &mut ScrollbarPointer,
    editor_shown: bool,
    under_pointer: Option<Axis>,
) -> (r: MoveOutcome)
    ensures
        (r, *final(pointer)) == spec_pointer_moved(*old(pointer), editor_shown, under_pointer),
{
    if !editor_shown {
        if pointer.hover.is_some() {
            pointer.hover = None;
            return MoveOutcome::HoverChanged;
        }
        return MoveOutcome::Ignored;
    }
    if pointer.drag.is_some() {
        return MoveOutcome::Dragged;
    }
    let changed = match (under_pointer, pointer.hover) {
        (Some(Axis::Vertical), Some(Axis::Vertical)) => false,
        (Some(Axis::Horizontal), Some(Axis::Horizontal)) => false,
        (None, None) => false,
        _ => true,
    };
    if changed {
        pointer.hover = under_pointer;
        return MoveOutcome::HoverChanged;
    }
    MoveOutcome::Ignored
}

/// The lines the widest-line cache must measure, as `[start, end)`: none
/// while it was measured for the current text version; the visible lines
/// of a large file; all lines otherwise.
pub open spec fn width_lines(s: EditorState) -> Option<(int, int)> {
    if s.content.content_width_version == Some(s.content.buffer_version) {
        None
    } else if s.content.is_large_file {
        Some(spec_visible_line_range(s))
    } else {
        Some((0, n_lines(s)))
    }
}

/// The largest of `w` and `base`.
pub open spec fn widest(w: Seq<usize>, base: int) -> int
    decreases w.len(),
{
    if w.len() == 0 {
        base
    } else {
        let m = widest(w.drop_last(), base);
        if w.last() > m {
            w.last() as int
        } else {
            m
        }
    }
}

proof fn lemma_widest_bounds(w: Seq<usize>, base: int)
    requires
        0 <= base <= usize::MAX,
    ensures
        base <= widest(w, base) <= usize::MAX,
        forall|k: int| 0 <= k < w.len() ==> w[k] <= widest(w, base),
        widest(w, base) == base || exists|k: int| 0 <= k < w.len() && widest(w, base) == w[k],
    decreases w.len(),
{
    if w.len() > 0 {
        lemma_widest_bounds(w.drop_last(), base);
        let m = widest(w.drop_last(), base);
        assert forall|k: int| 0 <= k < w.len() implies w[k] <= widest(w, base) by {
            if k < w.len() - 1 {
                assert(w[k] == w.drop_last()[k]);
            }
        }
        if widest(w, base) != base && widest(w, base) == m {
            let k = choose|k: int| 0 <= k < w.drop_last().len() && m == w.drop_last()[k];
            assert(w[k] == w.drop_last()[k]);
        }
    }
}

/// The lines whose display widths `refresh_content_width` needs (see
/// `width_lines`); `None` when the cached width is up to date.
pub fn content_width_lines(state: &EditorState) -> (r: Option<(usize, usize)>)
    requires
        state.wf(),
        state.content.is_large_file ==> state.viewport.line_height > 0,
    ensures
        match r {
            None => width_lines(*state).is_none(),
            Some(range) => width_lines(*state) == Some((range.0 as int, range.1 as int)),
        },
{
    match state.content.content_width_version {
        Some(v) => {
            if v == state.content.buffer_version {
                return None;
            }
        },
        None => {},
    }
    if state.content.is_large_file {
        Some(visible_line_range(state))
    } else {
        Some((0, state.content.buffer.len_lines()))
    }
}

/// Refreshes the cached width of the widest line from `widths`, the display
/// widths (in columns) of the lines `content_width_lines` named, in order.
/// A large file keeps the widest width seen so far (it only grows until the
/// file is opened again); other files are measured afresh.  Nothing changes
/// while the cache is up to date.
pub fn refresh_content_width(state: &mut EditorState, widths: &[usize])
    requires
        old(state).wf(),
        old(state).content.is_large_file ==> old(state).viewport.line_height > 0,
        match width_lines(*old(state)) {
            Some(range) => widths@.len() == range.1 - range.0,
            None => true,
        },
    ensures
        width_lines(*old(state)).is_none() ==> *final(state) == *old(state),
        old(state).content.is_large_file ==> final(state).content.content_width_chars
            >= old(state).content.content_width_chars,
        width_lines(*old(state)).is_some() ==> {
            &&& final(state).content.content_width_chars == widest(
                widths@,
                if old(state).content.is_large_file {
                    old(state).content.content_width_chars as int
                } else {
                    0
                },
            )
            &&& *final(state) == (EditorState {
                content: TabContent {
                    content_width_chars: final(state).content.content_width_chars,
                    content_width_version: Some(old(state).content.buffer_version),
                    ..old(state).content
                },
                ..*old(state)
            })
        },
{
    if content_width_lines(state).is_none() {
        return ;
    }
    let mut max_chars: usize = if state.content.is_large_file {
        state.content.content_width_chars
    } else {
        0
    };
    let ghost base = max_chars as int;
    let mut k: usize = 0;
    while k < widths.len()
        invariant
            k <= widths@.len(),
            max_chars == widest(widths@.subrange(0, k as int), base),
        decreases widths@.len() - k,
    {
        proof {
            assert(widths@.subrange(0, k + 1).drop_last() =~= widths@.subrange(0, k as int));
        }
        if widths[k] > max_chars {
            max_chars = widths[k];
        }
        k = k + 1;
    }
    proof {
        assert(widths@.subrange(0, widths@.len() as int) =~= widths@);
        lemma_widest_bounds(widths@, base);
    }
    state.content.content_width_chars = max_chars;
    state.content.content_width_version = Some(state.content.buffer_version);
}

} // verus!
