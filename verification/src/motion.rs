//! Cursor motions inside one line of UTF-8 bytes: one char left/right, over
//! white space, over a word, and the word around a position.
use vstd::prelude::*;

use crate::chars::{
    ceil_char_boundary, char_at, char_is_whitespace, decode_char_at, floor_char_boundary,
    is_boundary, is_word_char, lemma_ceil_boundary, lemma_floor_boundary, lemma_next_of_prev,
    lemma_prev_of_next, next_boundary, prev_boundary, unicode_white_space, word_char,
    floor_boundary, lemma_no_boundary_between,
};

verus! {

/// Smaller of two integers.
pub open spec fn min_int(a: int, b: int) -> int {
    if a <= b {
        a
    } else {
        b
    }
}

/// Whether the char that starts at `p` is white space.
pub open spec fn ws_at(s: Seq<u8>, p: int) -> bool {
    unicode_white_space(char_at(s, p))
}

/// Whether the char that starts at `p` is a word char.
pub open spec fn word_at(s: Seq<u8>, p: int) -> bool {
    is_word_char(char_at(s, p))
}

/// From boundary `p`, skips forward over white-space chars.
pub open spec fn skip_ws_fwd(s: Seq<u8>, p: int) -> int
    decreases s.len() - p,
{
    if 0 <= p < s.len() && ws_at(s, p) {
        proof {
            lemma_ceil_boundary(s, p + 1);
        }
        skip_ws_fwd(s, next_boundary(s, p))
    } else {
        p
    }
}

/// From boundary `p`, skips forward over word chars.
pub open spec fn skip_word_fwd(s: Seq<u8>, p: int) -> int
    decreases s.len() - p,
{
    if 0 <= p < s.len() && word_at(s, p) {
        proof {
            lemma_ceil_boundary(s, p + 1);
        }
        skip_word_fwd(s, next_boundary(s, p))
    } else {
        p
    }
}

/// From boundary `p`, skips back over white-space chars.
pub open spec fn skip_ws_back(s: Seq<u8>, p: int) -> int
    decreases p,
{
    if p > 0 && ws_at(s, prev_boundary(s, p)) {
        proof {
            lemma_floor_boundary(s, p - 1);
        }
        skip_ws_back(s, prev_boundary(s, p))
    } else {
        p
    }
}

/// From boundary `p`, skips back over word chars.
pub open spec fn skip_word_back(s: Seq<u8>, p: int) -> int
    decreases p,
{
    if p > 0 && word_at(s, prev_boundary(s, p)) {
        proof {
            lemma_floor_boundary(s, p - 1);
        }
        skip_word_back(s, prev_boundary(s, p))
    } else {
        p
    }
}

/// Column after moving one char left from column `col` (`col > 0`).
pub open spec fn left_col(s: Seq<u8>, col: int) -> int {
    let fc = floor_boundary(s, min_int(col, s.len() as int));
    if fc > 0 {
        prev_boundary(s, fc)
    } else {
        0
    }
}

/// Column of the first non-white-space char of the line (its length if none).
pub open spec fn first_non_ws(s: Seq<u8>) -> int {
    skip_ws_fwd(s, 0)
}

/// Column after moving one word left from column `col`: back over white
/// space, then over a word, or over one other char.
pub open spec fn word_left_col(s: Seq<u8>, col: int) -> int {
    let p1 = skip_ws_back(s, floor_boundary(s, min_int(col, s.len() as int)));
    if p1 > 0 {
        if word_at(s, prev_boundary(s, p1)) {
            skip_word_back(s, p1)
        } else {
            prev_boundary(s, p1)
        }
    } else {
        p1
    }
}

/// Column after moving one word right from column `col`: forward over white
/// space, then over a word, or over one other char.
pub open spec fn word_right_col(s: Seq<u8>, col: int) -> int {
    let p1 = skip_ws_fwd(s, floor_boundary(s, min_int(col, s.len() as int)));
    if p1 < s.len() {
        if word_at(s, p1) {
            skip_word_fwd(s, p1)
        } else {
            next_boundary(s, p1)
        }
    } else {
        p1
    }
}

/// Byte range of the word around column `col`, if the char there is a word char.
pub open spec fn word_around(s: Seq<u8>, col: int) -> Option<(int, int)> {
    let p = floor_boundary(s, min_int(col, s.len() as int));
    if p < s.len() && word_at(s, p) {
        Some((skip_word_back(s, p), skip_word_fwd(s, p)))
    } else {
        None
    }
}

pub proof fn lemma_skip_fwd_bounds(s: Seq<u8>, p: int)
    requires
        0 <= p <= s.len(),
        is_boundary(s, p),
    ensures
        p <= skip_ws_fwd(s, p) <= s.len(),
        is_boundary(s, skip_ws_fwd(s, p)),
        p <= skip_word_fwd(s, p) <= s.len(),
        is_boundary(s, skip_word_fwd(s, p)),
    decreases s.len() - p,
{
    if p < s.len() {
        lemma_ceil_boundary(s, p + 1);
        lemma_skip_fwd_bounds(s, next_boundary(s, p));
    }
}

pub proof fn lemma_skip_back_bounds(s: Seq<u8>, p: int)
    requires
        0 <= p <= s.len(),
        is_boundary(s, p),
    ensures
        0 <= skip_ws_back(s, p) <= p,
        is_boundary(s, skip_ws_back(s, p)),
        0 <= skip_word_back(s, p) <= p,
        is_boundary(s, skip_word_back(s, p)),
    decreases p,
{
    if p > 0 {
        lemma_floor_boundary(s, p - 1);
        lemma_skip_back_bounds(s, prev_boundary(s, p));
    }
}

/// Where a one-char step left from a char boundary inside the line lands, a
/// one-char step right leads back.
pub proof fn law_right_undoes_left(s: Seq<u8>, col: int)
    requires
        0 < col <= s.len(),
        is_boundary(s, col),
    ensures
        next_boundary(s, left_col(s, col)) == col,
        left_col(s, col) < col,
{
    lemma_floor_boundary(s, col);
    lemma_next_of_prev(s, col);
}

/// Where a one-char step right from a char boundary inside the line lands, a
/// one-char step left leads back.
pub proof fn law_left_undoes_right(s: Seq<u8>, col: int)
    requires
        0 <= col < s.len(),
        is_boundary(s, col),
    ensures
        left_col(s, next_boundary(s, col)) == col,
        col < next_boundary(s, col),
{
    lemma_prev_of_next(s, col);
    lemma_ceil_boundary(s, col + 1);
    lemma_floor_boundary(s, next_boundary(s, col));
}

/// Word motions stay in the line, land on char boundaries, and move in
/// their direction.
pub proof fn lemma_word_motion_bounds(s: Seq<u8>, col: int)
    requires
        0 <= col,
    ensures
        0 <= word_left_col(s, col) <= min_int(col, s.len() as int),
        is_boundary(s, word_left_col(s, col)),
        floor_boundary(s, min_int(col, s.len() as int)) <= word_right_col(s, col) <= s.len(),
        is_boundary(s, word_right_col(s, col)),
{
    let p0 = floor_boundary(s, min_int(col, s.len() as int));
    lemma_floor_boundary(s, min_int(col, s.len() as int));
    lemma_skip_back_bounds(s, p0);
    let p1 = skip_ws_back(s, p0);
    if p1 > 0 {
        lemma_floor_boundary(s, p1 - 1);
        lemma_skip_back_bounds(s, p1);
    }
    lemma_skip_fwd_bounds(s, p0);
    let q1 = skip_ws_fwd(s, p0);
    if q1 < s.len() {
        lemma_ceil_boundary(s, q1 + 1);
        lemma_skip_fwd_bounds(s, q1);
    }
}

/// Skipping back over word chars from boundary `p` stops at the start of
/// the run: every char from there up to `p` is a word char, and the char
/// before it (if any) is not.
proof fn lemma_skip_word_back_run(s: Seq<u8>, p: int)
    requires
        0 <= p <= s.len(),
        is_boundary(s, p),
    ensures
        forall|k: int|
            is_boundary(s, k) && skip_word_back(s, p) <= k < p ==> #[trigger] word_at(s, k),
        skip_word_back(s, p) == 0 || !word_at(s, prev_boundary(s, skip_word_back(s, p))),
    decreases p,
{
    if p > 0 && word_at(s, prev_boundary(s, p)) {
        let q = prev_boundary(s, p);
        lemma_next_of_prev(s, p);
        lemma_floor_boundary(s, p - 1);
        lemma_no_boundary_between(s, q, p - 1);
        lemma_skip_word_back_run(s, q);
        assert forall|k: int| is_boundary(s, k) && skip_word_back(s, p) <= k < p implies #[trigger] word_at(
            s,
            k,
        ) by {
            if k > q {
                assert(!is_boundary(s, k));
            }
        }
    }
}

/// Skipping back over white space from boundary `p` stops after the last
/// char that is not white space: every char from there up to `p` is white
/// space, and the char before it (if any) is not.
proof fn lemma_skip_ws_back_run(s: Seq<u8>, p: int)
    requires
        0 <= p <= s.len(),
        is_boundary(s, p),
    ensures
        forall|k: int| is_boundary(s, k) && skip_ws_back(s, p) <= k < p ==> #[trigger] ws_at(s, k),
        skip_ws_back(s, p) == 0 || !ws_at(s, prev_boundary(s, skip_ws_back(s, p))),
    decreases p,
{
    if p > 0 && ws_at(s, prev_boundary(s, p)) {
        let q = prev_boundary(s, p);
        lemma_next_of_prev(s, p);
        lemma_floor_boundary(s, p - 1);
        lemma_no_boundary_between(s, q, p - 1);
        lemma_skip_ws_back_run(s, q);
        assert forall|k: int| is_boundary(s, k) && skip_ws_back(s, p) <= k < p implies #[trigger] ws_at(
            s,
            k,
        ) by {
            if k > q {
                assert(!is_boundary(s, k));
            }
        }
    }
}

/// A word step left (Ctrl+Left) from column `col`: from the cursor `p` it
/// goes back over the white space before it to `p1`, which has only white
/// space between it and `p` and no white space just before it.  If nothing
/// but white space precedes, it lands at the line start.  Otherwise it
/// always moves strictly left of `p1`: over the whole run of word chars
/// before `p1` when that char is a word char (landing where the char
/// before is not one), or over exactly one char when it is a symbol.
pub proof fn law_word_left_steps_over(s: Seq<u8>, col: int)
    requires
        0 <= col,
    ensures
        ({
            let p = floor_boundary(s, min_int(col, s.len() as int));
            let p1 = skip_ws_back(s, p);
            let r = word_left_col(s, col);
            &&& 0 <= r <= p1 <= p
            &&& forall|k: int| is_boundary(s, k) && p1 <= k < p ==> #[trigger] ws_at(s, k)
            &&& p1 == 0 || !ws_at(s, prev_boundary(s, p1))
            &&& p1 == 0 ==> r == 0
            &&& p1 > 0 ==> r < p1
            &&& p1 > 0 && !word_at(s, prev_boundary(s, p1)) ==> next_boundary(s, r) == p1
            &&& p1 > 0 && word_at(s, prev_boundary(s, p1)) ==> {
                &&& forall|k: int| is_boundary(s, k) && r <= k < p1 ==> #[trigger] word_at(s, k)
                &&& r == 0 || !word_at(s, prev_boundary(s, r))
            }
        }),
{
    let p = floor_boundary(s, min_int(col, s.len() as int));
    lemma_floor_boundary(s, min_int(col, s.len() as int));
    lemma_skip_back_bounds(s, p);
    lemma_skip_ws_back_run(s, p);
    let p1 = skip_ws_back(s, p);
    if p1 > 0 {
        lemma_next_of_prev(s, p1);
        let q = prev_boundary(s, p1);
        if word_at(s, q) {
            lemma_skip_word_back_run(s, p1);
            lemma_skip_back_bounds(s, p1);
            assert(skip_word_back(s, p1) == skip_word_back(s, q));
            lemma_floor_boundary(s, p1 - 1);
            lemma_skip_back_bounds(s, q);
        }
    }
}

/// Skipping forward over word chars from boundary `p` stops at the end of
/// the run: every char from `p` up to there is a word char, and the char
/// there (if any) is not.
proof fn lemma_skip_word_fwd_run(s: Seq<u8>, p: int)
    requires
        0 <= p <= s.len(),
        is_boundary(s, p),
    ensures
        forall|k: int|
            is_boundary(s, k) && p <= k < skip_word_fwd(s, p) ==> #[trigger] word_at(s, k),
        skip_word_fwd(s, p) == s.len() || !word_at(s, skip_word_fwd(s, p)),
    decreases s.len() - p,
{
    if 0 <= p < s.len() && word_at(s, p) {
        let q = next_boundary(s, p);
        lemma_ceil_boundary(s, p + 1);
        lemma_skip_word_fwd_run(s, q);
        assert forall|k: int| is_boundary(s, k) && p <= k < skip_word_fwd(s, p) implies #[trigger] word_at(
            s,
            k,
        ) by {
            if p < k < q {
                assert(!is_boundary(s, k));
            }
        }
    }
}

/// Skipping forward over white space from boundary `p` stops at the first
/// char that is not white space (or the end of the line).
proof fn lemma_skip_ws_fwd_run(s: Seq<u8>, p: int)
    requires
        0 <= p <= s.len(),
        is_boundary(s, p),
    ensures
        forall|k: int| is_boundary(s, k) && p <= k < skip_ws_fwd(s, p) ==> #[trigger] ws_at(s, k),
        skip_ws_fwd(s, p) == s.len() || !ws_at(s, skip_ws_fwd(s, p)),
    decreases s.len() - p,
{
    if 0 <= p < s.len() && ws_at(s, p) {
        let q = next_boundary(s, p);
        lemma_ceil_boundary(s, p + 1);
        lemma_skip_ws_fwd_run(s, q);
        assert forall|k: int| is_boundary(s, k) && p <= k < skip_ws_fwd(s, p) implies #[trigger] ws_at(
            s,
            k,
        ) by {
            if p < k < q {
                assert(!is_boundary(s, k));
            }
        }
    }
}

/// A word step right (Ctrl+Right) from column `col`: from the cursor `p` it
/// goes forward over white space to `q1`, the first char that is not white
/// space.  At the line end it stays there.  Otherwise it always moves
/// strictly right of `q1`: over the whole run of word chars when the char at
/// `q1` is a word char (landing where the char is not one), or over exactly
/// one char when it is a symbol.
pub proof fn law_word_right_steps_over(s: Seq<u8>, col: int)
    requires
        0 <= col,
    ensures
        ({
            let p = floor_boundary(s, min_int(col, s.len() as int));
            let q1 = skip_ws_fwd(s, p);
            let r = word_right_col(s, col);
            &&& p <= q1 <= r <= s.len()
            &&& forall|k: int| is_boundary(s, k) && p <= k < q1 ==> #[trigger] ws_at(s, k)
            &&& q1 == s.len() || !ws_at(s, q1)
            &&& q1 == s.len() ==> r == s.len()
            &&& q1 < s.len() ==> q1 < r
            &&& q1 < s.len() && !word_at(s, q1) ==> prev_boundary(s, r) == q1
            &&& q1 < s.len() && word_at(s, q1) ==> {
                &&& forall|k: int| is_boundary(s, k) && q1 <= k < r ==> #[trigger] word_at(s, k)
                &&& r == s.len() || !word_at(s, r)
            }
        }),
{
    let p = floor_boundary(s, min_int(col, s.len() as int));
    lemma_floor_boundary(s, min_int(col, s.len() as int));
    lemma_skip_fwd_bounds(s, p);
    lemma_skip_ws_fwd_run(s, p);
    let q1 = skip_ws_fwd(s, p);
    if q1 < s.len() {
        lemma_prev_of_next(s, q1);
        lemma_skip_word_fwd_run(s, q1);
        lemma_skip_fwd_bounds(s, q1);
        lemma_ceil_boundary(s, q1 + 1);
        lemma_skip_fwd_bounds(s, next_boundary(s, q1));
    }
}

/// The word around a column lies inside the line.
pub proof fn lemma_word_around_bounds(s: Seq<u8>, col: int)
    requires
        0 <= col,
    ensures
        match word_around(s, col) {
            Some((a, b)) => 0 <= a <= b <= s.len(),
            None => true,
        },
{
    let p = floor_boundary(s, min_int(col, s.len() as int));
    lemma_floor_boundary(s, min_int(col, s.len() as int));
    lemma_skip_back_bounds(s, p);
    lemma_skip_fwd_bounds(s, p);
}

/// The char starting at boundary `p` of `s` and where it ends.
pub fn next_char(s: &[u8], p: usize) -> (r: (char, usize))
    requires
        p < s@.len(),
    ensures
        r.0 == char_at(s@, p as int),
        r.1 == next_boundary(s@, p as int),
        p < r.1 <= s@.len(),
{
    proof {
        lemma_ceil_boundary(s@, p + 1);
    }
    let n = s.len();
    assert(p < n);
    (decode_char_at(s, p), ceil_char_boundary(s, p + 1))
}

/// The char ending at `p` of `s` (`p > 0`) and where it starts.
pub fn prev_char(s: &[u8], p: usize) -> (r: (char, usize))
    requires
        0 < p <= s@.len(),
    ensures
        r.0 == char_at(s@, prev_boundary(s@, p as int)),
        r.1 == prev_boundary(s@, p as int),
        r.1 < p,
{
    proof {
        lemma_floor_boundary(s@, p - 1);
    }
    let q = floor_char_boundary(s, p - 1);
    (decode_char_at(s, q), q)
}

/// `skip_ws_fwd` / `skip_word_fwd` (by `word`) from boundary `p`.
pub fn skip_fwd(s: &[u8], p: usize, word: bool) -> (r: usize)
    requires
        p <= s@.len(),
    ensures
        r == (if word {
            skip_word_fwd(s@, p as int)
        } else {
            skip_ws_fwd(s@, p as int)
        }),
        p <= r <= s@.len(),
{
    let mut q = p;
    while q < s.len()
        invariant
            p <= q <= s@.len(),
            (if word {
                skip_word_fwd(s@, q as int)
            } else {
                skip_ws_fwd(s@, q as int)
            }) == (if word {
                skip_word_fwd(s@, p as int)
            } else {
                skip_ws_fwd(s@, p as int)
            }),
        decreases s@.len() - q,
    {
        let (c, nq) = next_char(s, q);
        let hit = if word {
            word_char(c)
        } else {
            char_is_whitespace(c)
        };
        if !hit {
            return q;
        }
        q = nq;
    }
    q
}

/// `skip_ws_back` / `skip_word_back` (by `word`) from `p`.
pub fn skip_back(s: &[u8], p: usize, word: bool) -> (r: usize)
    requires
        p <= s@.len(),
    ensures
        r == (if word {
            skip_word_back(s@, p as int)
        } else {
            skip_ws_back(s@, p as int)
        }),
        r <= p,
{
    let mut q = p;
    while q > 0
        invariant
            q <= p <= s@.len(),
            (if word {
                skip_word_back(s@, q as int)
            } else {
                skip_ws_back(s@, q as int)
            }) == (if word {
                skip_word_back(s@, p as int)
            } else {
                skip_ws_back(s@, p as int)
            }),
        decreases q,
    {
        let (c, pq) = prev_char(s, q);
        let hit = if word {
            word_char(c)
        } else {
            char_is_whitespace(c)
        };
        if !hit {
            return q;
        }
        q = pq;
    }
    q
}

/// Column after a one-word step left from `col` in line `s`.
pub fn word_left(s: &[u8], col: usize) -> (r: usize)
    ensures
        r == word_left_col(s@, col as int),
{
    let c = if col < s.len() {
        col
    } else {
        s.len()
    };
    let p0 = floor_char_boundary(s, c);
    let p1 = skip_back(s, p0, false);
    if p1 > 0 {
        let (ch, pp) = prev_char(s, p1);
        if word_char(ch) {
            skip_back(s, p1, true)
        } else {
            pp
        }
    } else {
        p1
    }
}

/// Column after a one-word step right from `col` in line `s`.
pub fn word_right(s: &[u8], col: usize) -> (r: usize)
    ensures
        r == word_right_col(s@, col as int),
{
    let c = if col < s.len() {
        col
    } else {
        s.len()
    };
    let p0 = floor_char_boundary(s, c);
    let p1 = skip_fwd(s, p0, false);
    if p1 < s.len() {
        let (ch, np) = next_char(s, p1);
        if word_char(ch) {
            skip_fwd(s, p1, true)
        } else {
            np
        }
    } else {
        p1
    }
}

/// The byte range of the word around `col` in line `s`, if any.
pub fn word_range_at(s: &[u8], col: usize) -> (r: Option<(usize, usize)>)
    ensures
        match r {
            Some((a, b)) => word_around(s@, col as int) == Some((a as int, b as int)),
            None => word_around(s@, col as int).is_none(),
        },
{
    let c = if col < s.len() {
        col
    } else {
        s.len()
    };
    let p = floor_char_boundary(s, c);
    if p < s.len() {
        let (ch, _) = next_char(s, p);
        if word_char(ch) {
            return Some((skip_back(s, p, true), skip_fwd(s, p, true)));
        }
    }
    None
}

} // verus!
