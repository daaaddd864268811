//! The terminal's input line: where the shell prompt ends, so that the
//! prompt and the typed command can be drawn in two colours.
use vstd::prelude::*;
use vstd::std_specs::iter::IteratorSpec;

verus! {

broadcast use vstd::string::axiom_spec_iter, vstd::string::next_postcondition;

/// The greatest `j < end - 1` with `s[j] == a` and `s[j + 1] == b`.
pub open spec fn last_pair_before(s: Seq<char>, a: char, b: char, end: int) -> Option<int>
    decreases end,
{
    if end < 2 {
        None
    } else if s[end - 2] == a && s[end - 1] == b {
        Some(end - 2)
    } else {
        last_pair_before(s, a, b, end - 1)
    }
}

/// The greatest `j < end` with `s[j] == a`.
pub open spec fn last_char_before(s: Seq<char>, a: char, end: int) -> Option<int>
    decreases end,
{
    if end < 1 {
        None
    } else if s[end - 1] == a {
        Some(end - 1)
    } else {
        last_char_before(s, a, end - 1)
    }
}

/// Number of chars of the prompt at the start of the terminal line `s`,
/// found from the last PowerShell-style `> `, else the last bash/zsh-style
/// `$ ` or `% `, else the last cmd-style `>`; the marker counts as prompt.
pub open spec fn prompt_boundary(s: Seq<char>) -> Option<int> {
    let n = s.len() as int;
    match last_pair_before(s, '>', ' ', n) {
        Some(j) => Some(j + 2),
        None => match last_pair_before(s, '$', ' ', n) {
            Some(j) => Some(j + 2),
            None => match last_pair_before(s, '%', ' ', n) {
                Some(j) => Some(j + 2),
                None => match last_char_before(s, '>', n) {
                    Some(j) => Some(j + 1),
                    None => None,
                },
            },
        },
    }
}

/// The chars of `s`, in order.
pub(crate) fn chars_of(s: &str) -> (r: Vec<char>)
    ensures
        r@ == s@,
{
    let ghost cs = s@;
    let mut out: Vec<char> = Vec::new();
    let mut it = s.chars();
    let ghost mut k: int = 0;
    loop
        invariant
            0 <= k <= cs.len(),
            it.remaining() == cs.subrange(k, cs.len() as int),
            out@ == cs.subrange(0, k),
        ensures
            out@ == cs,
        decreases cs.len() - k,
    {
        match it.next() {
            Some(c) => {
                proof {
                    assert(cs.subrange(k + 1, cs.len() as int) =~= cs.subrange(
                        k,
                        cs.len() as int,
                    ).drop_first());
                }
                out.push(c);
                proof {
                    assert(out@ =~= cs.subrange(0, k + 1));
                    k = k + 1;
                }
            },
            None => {
                proof {
                    assert(cs.subrange(0, cs.len() as int) =~= cs);
                }
                break ;
            },
        }
    }
    out
}

/// The last `a` followed by `b` in `s`.
fn last_pair(s: &Vec<char>, a: char, b: char) -> (r: Option<usize>)
    ensures
        match r {
            Some(j) => last_pair_before(s@, a, b, s@.len() as int) == Some(j as int),
            None => last_pair_before(s@, a, b, s@.len() as int).is_none(),
        },
{
    let mut end = s.len();
    while end >= 2
        invariant
            end <= s@.len(),
            last_pair_before(s@, a, b, end as int) == last_pair_before(
                s@,
                a,
                b,
                s@.len() as int,
            ),
        decreases end,
    {
        if s[end - 2] == a && s[end - 1] == b {
            return Some(end - 2);
        }
        end = end - 1;
    }
    None
}

/// The last `a` in `s`.
fn last_char(s: &Vec<char>, a: char) -> (r: Option<usize>)
    ensures
        match r {
            Some(j) => last_char_before(s@, a, s@.len() as int) == Some(j as int),
            None => last_char_before(s@, a, s@.len() as int).is_none(),
        },
{
    let mut end = s.len();
    while end >= 1
        invariant
            end <= s@.len(),
            last_char_before(s@, a, end as int) == last_char_before(s@, a, s@.len() as int),
        decreases end,
    {
        if s[end - 1] == a {
            return Some(end - 1);
        }
        end = end - 1;
    }
    None
}

proof fn lemma_last_pair_bound(s: Seq<char>, a: char, b: char, end: int)
    requires
        end <= s.len(),
    ensures
        match last_pair_before(s, a, b, end) {
            Some(j) => 0 <= j && j + 2 <= end,
            None => true,
        },
    decreases end,
{
    if end >= 2 && !(s[end - 2] == a && s[end - 1] == b) {
        lemma_last_pair_bound(s, a, b, end - 1);
    }
}

proof fn lemma_last_char_bound(s: Seq<char>, a: char, end: int)
    requires
        end <= s.len(),
    ensures
        match last_char_before(s, a, end) {
            Some(j) => 0 <= j && j + 1 <= end,
            None => true,
        },
    decreases end,
{
    if end >= 1 && s[end - 1] != a {
        lemma_last_char_bound(s, a, end - 1);
    }
}

/// Where the prompt ends on the terminal input line `line`, in chars
/// (see `prompt_boundary`); `None` when no prompt marker is found.
pub fn prompt_boundary_chars(line: &str) -> (r: Option<usize>)
    ensures
        match r {
            Some(k) => prompt_boundary(line@) == Some(k as int),
            None => prompt_boundary(line@).is_none(),
        },
{
    let cs = chars_of(line);
    proof {
        lemma_last_pair_bound(cs@, '>', ' ', cs@.len() as int);
        lemma_last_pair_bound(cs@, '$', ' ', cs@.len() as int);
        lemma_last_pair_bound(cs@, '%', ' ', cs@.len() as int);
        lemma_last_char_bound(cs@, '>', cs@.len() as int);
        assert(cs@.len() == cs.len());
    }
    if let Some(j) = last_pair(&cs, '>', ' ') {
        return Some(j + 2);
    }
    if let Some(j) = last_pair(&cs, '$', ' ') {
        return Some(j + 2);
    }
    if let Some(j) = last_pair(&cs, '%', ' ') {
        return Some(j + 2);
    }
    if let Some(j) = last_char(&cs, '>') {
        return Some(j + 1);
    }
    None
}

} // verus!
