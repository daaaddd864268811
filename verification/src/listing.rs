//! What the assistant is shown of the workspace: a directory's entries,
//! directories first and then by name, at most `LISTING_CAP` of them, one
//! per line; and the lines found by a keyword search, at most
//! `SEARCH_RESULT_CAP` of them; and what it may read of a file.  Reading
//! the disk is the window's.
use vstd::prelude::*;
use vstd::string::StringExecFns;
use vstd::utf8::{decode_utf8, encode_utf8};

use crate::browser::{trim_chars, trim_str};
use crate::ai_edits::{truncate_chars, truncation_notice};
use crate::chars::{ascii_chars, lemma_ascii_chars, string_from_utf8, string_from_utf8_lossy, utf8_lossy};

verus! {

broadcast use vstd::seq_lib::to_multiset_build, vstd::seq_lib::to_multiset_insert;

/// Most entries a listing shows.
pub const LISTING_CAP: usize = 300;

/// Most search results shown.
pub const SEARCH_RESULT_CAP: usize = 50;

/// Largest file the assistant reads, in bytes (1 MB).
pub const READ_LIMIT_BYTES: u64 = 1048576;

/// Most characters of a file the assistant is shown.
pub const READ_LIMIT_CHARS: usize = 8000;

/// `a` comes no later than `b` in byte-wise lexicographic order.
pub open spec fn bytes_le(a: Seq<u8>, b: Seq<u8>) -> bool
    decreases a.len(),
{
    if a.len() == 0 {
        true
    } else if b.len() == 0 {
        false
    } else if a[0] != b[0] {
        a[0] < b[0]
    } else {
        bytes_le(a.drop_first(), b.drop_first())
    }
}

/// A directory entry as a plain value: whether it is a directory, and its name.
pub open spec fn entry_view(e: (bool, String)) -> (bool, Seq<char>) {
    (e.0, e.1@)
}

/// `a` is listed no later than `b`: directories first, then by name, names
/// compared byte-wise in UTF-8.
pub open spec fn listed_before(a: (bool, Seq<char>), b: (bool, Seq<char>)) -> bool {
    (a.0 && !b.0) || (a.0 == b.0 && bytes_le(encode_utf8(a.1), encode_utf8(b.1)))
}

/// `s` is in listing order.
pub open spec fn listing_sorted(s: Seq<(bool, Seq<char>)>) -> bool {
    forall|i: int, j: int| 0 <= i < j < s.len() ==> listed_before(#[trigger] s[i], #[trigger] s[j])
}

/// `s` holds the entries of `entries`, each as often, in listing order.
pub open spec fn is_listing_order(
    s: Seq<(bool, Seq<char>)>,
    entries: Seq<(bool, String)>,
) -> bool {
    &&& s.to_multiset() == entries.map_values(|e: (bool, String)| entry_view(e)).to_multiset()
    &&& listing_sorted(s)
}

/// The line of an entry: its name, with a `/` after a directory's.
pub open spec fn entry_line(e: (bool, Seq<char>)) -> Seq<char> {
    if e.0 {
        e.1.push('/')
    } else {
        e.1
    }
}

/// `lines` joined by line breaks.
pub open spec fn joined(lines: Seq<Seq<char>>) -> Seq<char>
    decreases lines.len(),
{
    if lines.len() == 0 {
        Seq::empty()
    } else if lines.len() == 1 {
        lines[0]
    } else {
        joined(lines.drop_last()).push('\n') + lines.last()
    }
}

/// The ASCII decimal digits of `n`.
pub open spec fn decimal_digits(n: nat) -> Seq<u8>
    decreases n,
{
    if n < 10 {
        seq![(0x30 + n) as u8]
    } else {
        decimal_digits(n / 10).push((0x30 + n % 10) as u8)
    }
}

/// `n` written in decimal.
pub open spec fn decimal(n: nat) -> Seq<char> {
    ascii_chars(decimal_digits(n))
}

/// The lines of a listing of the entries `s` (in listing order): the first
/// `LISTING_CAP` entries, and a line with the total when some are left out.
pub open spec fn listing_lines(s: Seq<(bool, Seq<char>)>) -> Seq<Seq<char>> {
    let shown = s.take(
        if s.len() > LISTING_CAP {
            LISTING_CAP as int
        } else {
            s.len() as int
        },
    ).map_values(|e: (bool, Seq<char>)| entry_line(e));
    if s.len() > LISTING_CAP {
        shown.push("…（共 "@ + decimal(s.len()) + " 项，已省略其余）"@)
    } else {
        shown
    }
}

/// The listing of the entries `s` (in listing order); a note for an empty
/// directory.
pub open spec fn listing_text(s: Seq<(bool, Seq<char>)>) -> Seq<char> {
    if s.len() == 0 {
        "（空目录）"@
    } else {
        joined(listing_lines(s))
    }
}

proof fn lemma_bytes_le_total(a: Seq<u8>, b: Seq<u8>)
    ensures
        bytes_le(a, b) || bytes_le(b, a),
    decreases a.len(),
{
    if a.len() > 0 && b.len() > 0 && a[0] == b[0] {
        lemma_bytes_le_total(a.drop_first(), b.drop_first());
    }
}

proof fn lemma_bytes_le_trans(a: Seq<u8>, b: Seq<u8>, c: Seq<u8>)
    requires
        bytes_le(a, b),
        bytes_le(b, c),
    ensures
        bytes_le(a, c),
    decreases a.len(),
{
    if a.len() > 0 && b.len() > 0 && c.len() > 0 && a[0] == b[0] && b[0] == c[0] {
        lemma_bytes_le_trans(a.drop_first(), b.drop_first(), c.drop_first());
    }
}

proof fn lemma_bytes_le_antisym(a: Seq<u8>, b: Seq<u8>)
    requires
        bytes_le(a, b),
        bytes_le(b, a),
    ensures
        a == b,
    decreases a.len(),
{
    if a.len() > 0 {
        lemma_bytes_le_antisym(a.drop_first(), b.drop_first());
        assert(a =~= seq![a[0]] + a.drop_first());
        assert(b =~= seq![b[0]] + b.drop_first());
    } else {
        assert(b.len() == 0);
        assert(a =~= b);
    }
}

proof fn lemma_listed_before_total(a: (bool, Seq<char>), b: (bool, Seq<char>))
    ensures
        listed_before(a, b) || listed_before(b, a),
{
    lemma_bytes_le_total(encode_utf8(a.1), encode_utf8(b.1));
}

proof fn lemma_listed_before_trans(a: (bool, Seq<char>), b: (bool, Seq<char>), c: (bool, Seq<char>))
    requires
        listed_before(a, b),
        listed_before(b, c),
    ensures
        listed_before(a, c),
{
    if a.0 == b.0 && b.0 == c.0 {
        lemma_bytes_le_trans(encode_utf8(a.1), encode_utf8(b.1), encode_utf8(c.1));
    }
}

/// Entries that each come no later than the other are the same entry.
proof fn lemma_listed_before_antisym(a: (bool, Seq<char>), b: (bool, Seq<char>))
    requires
        listed_before(a, b),
        listed_before(b, a),
    ensures
        a == b,
{
    lemma_bytes_le_antisym(encode_utf8(a.1), encode_utf8(b.1));
    vstd::utf8::encode_utf8_decode_utf8(a.1);
    vstd::utf8::encode_utf8_decode_utf8(b.1);
    assert(a.1 == decode_utf8(encode_utf8(a.1)));
}

/// Two sequences in listing order that hold the same entries are equal.
proof fn lemma_listing_order_unique(s1: Seq<(bool, Seq<char>)>, s2: Seq<(bool, Seq<char>)>)
    requires
        listing_sorted(s1),
        listing_sorted(s2),
        s1.to_multiset() == s2.to_multiset(),
    ensures
        s1 == s2,
    decreases s1.len(),
{
    broadcast use vstd::seq_lib::to_multiset_len, vstd::seq_lib::to_multiset_contains,
        vstd::seq_lib::to_multiset_remove;

    if s1.len() == 0 {
        assert(s2.to_multiset().len() == 0);
        assert(s1 =~= s2);
    } else {
        assert(s2.to_multiset().len() == s1.len());
        let a = s1[0];
        let b = s2[0];
        assert(s1.contains(a));
        assert(s1.to_multiset().count(a) > 0);
        assert(s2.contains(a));
        let j = choose|j: int| 0 <= j < s2.len() && s2[j] == a;
        assert(s2.contains(b));
        assert(s2.to_multiset().count(b) > 0);
        assert(s1.contains(b));
        let i = choose|i: int| 0 <= i < s1.len() && s1[i] == b;
        if j > 0 {
            assert(listed_before(s2[0], s2[j]));
        }
        if i > 0 {
            assert(listed_before(s1[0], s1[i]));
        }
        if i > 0 && j > 0 {
            lemma_listed_before_antisym(a, b);
        }
        assert(a == b);
        let t1 = s1.drop_first();
        let t2 = s2.drop_first();
        assert(s1.remove(0) =~= t1);
        assert(s2.remove(0) =~= t2);
        assert(t1.to_multiset() == s1.to_multiset().remove(a));
        assert(t2.to_multiset() == s2.to_multiset().remove(b));
        assert forall|x: int, y: int| 0 <= x < y < t1.len() implies listed_before(
            #[trigger] t1[x],
            #[trigger] t1[y],
        ) by {
            assert(t1[x] == s1[x + 1] && t1[y] == s1[y + 1]);
        }
        assert forall|x: int, y: int| 0 <= x < y < t2.len() implies listed_before(
            #[trigger] t2[x],
            #[trigger] t2[y],
        ) by {
            assert(t2[x] == s2[x + 1] && t2[y] == s2[y + 1]);
        }
        lemma_listing_order_unique(t1, t2);
        assert(s1 =~= s2) by {
            assert forall|x: int| 0 <= x < s1.len() implies s1[x] == s2[x] by {
                if x > 0 {
                    assert(s1[x] == t1[x - 1] && s2[x] == t2[x - 1]);
                }
            }
        }
    }
}

/// Whether the name `a` comes no later than the name `b` (byte-wise).
fn name_le(a: &str, b: &str) -> (r: bool)
    ensures
        r == bytes_le(encode_utf8(a@), encode_utf8(b@)),
{
    let x = a.as_bytes();
    let y = b.as_bytes();
    let mut i: usize = 0;
    proof {
        assert(x@.subrange(0, x@.len() as int) =~= x@);
        assert(y@.subrange(0, y@.len() as int) =~= y@);
    }
    while i < x.len() && i < y.len()
        invariant
            i <= x@.len(),
            i <= y@.len(),
            x@ == encode_utf8(a@),
            y@ == encode_utf8(b@),
            bytes_le(x@, y@) == bytes_le(
                x@.subrange(i as int, x@.len() as int),
                y@.subrange(i as int, y@.len() as int),
            ),
        decreases x@.len() - i,
    {
        proof {
            let s = x@.subrange(i as int, x@.len() as int);
            let t = y@.subrange(i as int, y@.len() as int);
            assert(s[0] == x@[i as int] && t[0] == y@[i as int]);
            assert(s.drop_first() =~= x@.subrange(i + 1, x@.len() as int));
            assert(t.drop_first() =~= y@.subrange(i + 1, y@.len() as int));
        }
        if x[i] != y[i] {
            return x[i] < y[i];
        }
        i = i + 1;
    }
    proof {
        assert(x@.subrange(i as int, x@.len() as int).len() == x@.len() - i);
    }
    i == x.len()
}

/// Whether the entry `a` is listed no later than `b` (see `listed_before`).
fn entry_le(a: &(bool, String), b: &(bool, String)) -> (r: bool)
    ensures
        r == listed_before(entry_view(*a), entry_view(*b)),
{
    if a.0 != b.0 {
        a.0
    } else {
        name_le(a.1.as_str(), b.1.as_str())
    }
}

/// `entries` in listing order.
fn sort_entries(entries: Vec<(bool, String)>) -> (out: Vec<(bool, String)>)
    ensures
        is_listing_order(out@.map_values(|e: (bool, String)| entry_view(e)), entries@),
{
    let ghost all = entries@;
    let mut src = entries;
    let mut out: Vec<(bool, String)> = Vec::new();
    proof {
        assert(all.subrange(all.len() as int, all.len() as int).map_values(
            |e: (bool, String)| entry_view(e),
        ) =~= out@.map_values(|e: (bool, String)| entry_view(e)));
    }
    while src.len() > 0
        invariant
            all.len() >= src@.len(),
            src@ == all.subrange(0, src@.len() as int),
            out@.map_values(|e: (bool, String)| entry_view(e)).to_multiset() == all.subrange(
                src@.len() as int,
                all.len() as int,
            ).map_values(|e: (bool, String)| entry_view(e)).to_multiset(),
            listing_sorted(out@.map_values(|e: (bool, String)| entry_view(e))),
        decreases src@.len(),
    {
        let x = src.pop().unwrap();
        let ghost k: int = src@.len() as int;
        let ghost before = out@.map_values(|e: (bool, String)| entry_view(e));
        let mut p: usize = 0;
        while p < out.len() && entry_le(&out[p], &x)
            invariant
                p <= out@.len(),
                before == out@.map_values(|e: (bool, String)| entry_view(e)),
                forall|q: int| 0 <= q < p ==> listed_before(#[trigger] before[q], entry_view(x)),
            decreases out@.len() - p,
        {
            p = p + 1;
        }
        let ghost xv = entry_view(x);
        out.insert(p, x);
        proof {
            let after = out@.map_values(|e: (bool, String)| entry_view(e));
            assert(after =~= before.insert(p as int, xv));
            if p < before.len() {
                lemma_listed_before_total(before[p as int], xv);
            }
            assert forall|i: int, j: int| 0 <= i < j < after.len() implies listed_before(
                #[trigger] after[i],
                #[trigger] after[j],
            ) by {
                if j < p {
                    assert(after[i] == before[i] && after[j] == before[j]);
                } else if j == p {
                    assert(after[i] == before[i]);
                } else if i < p {
                    assert(after[i] == before[i] && after[j] == before[j - 1]);
                    assert(listed_before(before[i], xv));
                    lemma_listed_before_total(before[p as int], xv);
                    if p < j - 1 {
                        lemma_listed_before_trans(xv, before[p as int], before[j - 1]);
                    }
                    lemma_listed_before_trans(before[i], xv, before[j - 1]);
                } else if i == p {
                    assert(after[j] == before[j - 1]);
                    if p < j - 1 {
                        lemma_listed_before_trans(xv, before[p as int], before[j - 1]);
                    }
                } else {
                    assert(after[i] == before[i - 1] && after[j] == before[j - 1]);
                }
            }
            let rest_old = all.subrange(k + 1, all.len() as int);
            let rest_new = all.subrange(k, all.len() as int);
            assert(rest_new =~= seq![all[k]] + rest_old);
            assert(rest_new.map_values(|e: (bool, String)| entry_view(e)) =~= seq![xv]
                + rest_old.map_values(|e: (bool, String)| entry_view(e)));
            vstd::seq_lib::lemma_multiset_commutative(
                seq![xv],
                rest_old.map_values(|e: (bool, String)| entry_view(e)),
            );
            vstd::seq_lib::lemma_multiset_commutative(
                rest_old.map_values(|e: (bool, String)| entry_view(e)),
                seq![xv],
            );
            assert(rest_old.map_values(|e: (bool, String)| entry_view(e)) + seq![xv]
                =~= rest_old.map_values(|e: (bool, String)| entry_view(e)).push(xv));
            assert(src@ =~= all.subrange(0, src@.len() as int));
        }
    }
    proof {
        assert(all.subrange(0, all.len() as int) =~= all);
    }
    out
}

proof fn lemma_decimal_digits_ascii(n: nat)
    ensures
        forall|i: int|
            0 <= i < decimal_digits(n).len() ==> 0x30 <= #[trigger] decimal_digits(n)[i] < 0x3a,
    decreases n,
{
    if n >= 10 {
        lemma_decimal_digits_ascii(n / 10);
        let d = decimal_digits(n / 10);
        assert forall|i: int| 0 <= i < decimal_digits(n).len() implies 0x30
            <= #[trigger] decimal_digits(n)[i] < 0x3a by {
            if i < d.len() {
                assert(decimal_digits(n)[i] == d[i]);
            }
        }
    }
}

/// Appends the decimal digits of `n` to `out`.
fn push_decimal_digits(out: &mut Vec<u8>, n: u64)
    ensures
        final(out)@ == old(out)@ + decimal_digits(n as nat),
    decreases n,
{
    if n >= 10 {
        push_decimal_digits(out, n / 10);
    }
    out.push((0x30 + n % 10) as u8);
    proof {
        if n < 10 {
            assert(n % 10 == n);
        }
        assert(final(out)@ =~= old(out)@ + decimal_digits(n as nat));
    }
}

/// `n` written in decimal.
pub(crate) fn decimal_string(n: u64) -> (r: String)
    ensures
        r@ == decimal(n as nat),
{
    let mut digits: Vec<u8> = Vec::new();
    push_decimal_digits(&mut digits, n);
    proof {
        assert(digits@ =~= decimal_digits(n as nat));
        lemma_decimal_digits_ascii(n as nat);
        lemma_ascii_chars(digits@);
    }
    let r = string_from_utf8(digits);
    proof {
        vstd::utf8::encode_utf8_decode_utf8(r@);
        vstd::utf8::encode_utf8_decode_utf8(decimal(n as nat));
    }
    r
}

/// The listing of a directory whose entries are `entries` (whether each is
/// a directory, and its name), in any order: `listing_text` of the
/// entries in listing order (there is exactly one such order).
pub fn format_dir_listing(entries: Vec<(bool, String)>) -> (r: String)
    ensures
        exists|s: Seq<(bool, Seq<char>)>| is_listing_order(s, entries@),
        forall|s: Seq<(bool, Seq<char>)>| is_listing_order(s, entries@) ==> r@ == listing_text(s),
{
    let ghost all = entries@;
    let sorted = sort_entries(entries);
    let ghost s = sorted@.map_values(|e: (bool, String)| entry_view(e));
    let total = sorted.len();
    if total == 0 {
        let r = String::from_str("（空目录）");
        proof {
            assert(is_listing_order(s, all) && r@ == listing_text(s));
            assert forall|s2: Seq<(bool, Seq<char>)>| is_listing_order(s2, all) implies r@
                == listing_text(s2) by {
                lemma_listing_order_unique(s, s2);
            }
        }
        return r;
    }
    let shown = if total > LISTING_CAP {
        LISTING_CAP
    } else {
        total
    };
    let ghost lines = listing_lines(s);
    let mut r = String::new();
    let mut k: usize = 0;
    while k < shown
        invariant
            0 < shown <= total == s.len() == sorted@.len(),
            shown == (if total > LISTING_CAP {
                LISTING_CAP
            } else {
                total
            }),
            s == sorted@.map_values(|e: (bool, String)| entry_view(e)),
            lines == listing_lines(s),
            k <= shown,
            r@ == joined(lines.take(k as int)),
        decreases shown - k,
    {
        proof {
            assert(lines[k as int] == entry_line(s[k as int]));
            assert(lines.take(k + 1).drop_last() =~= lines.take(k as int));
            assert(lines.take(k + 1).last() == lines[k as int]);
        }
        if k > 0 {
            r.append("\n");
        }
        r.append(sorted[k].1.as_str());
        if sorted[k].0 {
            r.append("/");
        }
        proof {
            reveal_strlit("\n");
            reveal_strlit("/");
            if k == 0 {
                assert(lines.take(1) =~= seq![lines[0]]);
            }
            assert(r@ =~= joined(lines.take(k + 1)));
        }
        k = k + 1;
    }
    if total > LISTING_CAP {
        let count = decimal_string(total as u64);
        r.append("\n");
        r.append("…（共 ");
        r.append(count.as_str());
        r.append(" 项，已省略其余）");
        proof {
            reveal_strlit("\n");
            assert(lines.take(shown as int + 1).drop_last() =~= lines.take(shown as int));
            assert(lines.take(shown as int + 1) =~= lines);
            assert(r@ =~= joined(lines));
        }
    } else {
        proof {
            assert(lines.take(shown as int) =~= lines);
        }
    }
    proof {
        assert(is_listing_order(s, all) && r@ == listing_text(s));
        assert forall|s2: Seq<(bool, Seq<char>)>| is_listing_order(s2, all) implies r@
            == listing_text(s2) by {
            lemma_listing_order_unique(s, s2);
        }
    }
    r
}

/// A search result as a plain value: the file (relative to the workspace
/// where it lies inside it), the line number, and the line's text.
pub open spec fn result_view(r: (String, usize, String)) -> (Seq<char>, usize, Seq<char>) {
    (r.0@, r.1, r.2@)
}

/// The line shown for a search result: `file:line: text`, the text without
/// its leading and trailing white space.
pub open spec fn result_line(r: (Seq<char>, usize, Seq<char>)) -> Seq<char> {
    r.0 + ":"@ + decimal(r.1 as nat) + ": "@ + trim_chars(r.2)
}

/// The lines shown for the search results `rs`: the first
/// `SEARCH_RESULT_CAP`, and a line with the total when some are left out.
pub open spec fn search_lines(rs: Seq<(Seq<char>, usize, Seq<char>)>) -> Seq<Seq<char>> {
    let shown = rs.take(
        if rs.len() > SEARCH_RESULT_CAP {
            SEARCH_RESULT_CAP as int
        } else {
            rs.len() as int
        },
    ).map_values(|r: (Seq<char>, usize, Seq<char>)| result_line(r));
    if rs.len() > SEARCH_RESULT_CAP {
        shown.push("…（共 "@ + decimal(rs.len()) + " 个结果，已省略其余）"@)
    } else {
        shown
    }
}

/// What the assistant is shown of a search for `keyword` that found `rs`.
pub open spec fn search_text(keyword: Seq<char>, rs: Seq<(Seq<char>, usize, Seq<char>)>) -> Seq<
    char,
> {
    if rs.len() == 0 {
        "未找到包含 \""@ + keyword + "\" 的代码"@
    } else {
        joined(search_lines(rs))
    }
}

/// The text shown for a search for `keyword` that found `results` (see
/// `search_text`), each result its file, line number and line text.
pub fn format_search_results(keyword: &str, results: &Vec<(String, usize, String)>) -> (r: String)
    ensures
        r@ == search_text(
            keyword@,
            results@.map_values(|x: (String, usize, String)| result_view(x)),
        ),
{
    let ghost rs = results@.map_values(|x: (String, usize, String)| result_view(x));
    let total = results.len();
    if total == 0 {
        let mut r = String::from_str("未找到包含 \"");
        r.append(keyword);
        r.append("\" 的代码");
        return r;
    }
    let shown = if total > SEARCH_RESULT_CAP {
        SEARCH_RESULT_CAP
    } else {
        total
    };
    let ghost lines = search_lines(rs);
    let mut r = String::new();
    let mut k: usize = 0;
    while k < shown
        invariant
            0 < shown <= total == rs.len() == results@.len(),
            shown == (if total > SEARCH_RESULT_CAP {
                SEARCH_RESULT_CAP
            } else {
                total
            }),
            rs == results@.map_values(|x: (String, usize, String)| result_view(x)),
            lines == search_lines(rs),
            k <= shown,
            r@ == joined(lines.take(k as int)),
        decreases shown - k,
    {
        proof {
            assert(lines[k as int] == result_line(rs[k as int]));
            assert(lines.take(k + 1).drop_last() =~= lines.take(k as int));
            assert(lines.take(k + 1).last() == lines[k as int]);
        }
        if k > 0 {
            r.append("\n");
        }
        let item = &results[k];
        r.append(item.0.as_str());
        r.append(":");
        let num = decimal_string(item.1 as u64);
        r.append(num.as_str());
        r.append(": ");
        r.append(trim_str(item.2.as_str()));
        proof {
            reveal_strlit("\n");
            if k == 0 {
                assert(lines.take(1) =~= seq![lines[0]]);
            }
            assert(r@ =~= joined(lines.take(k + 1)));
        }
        k = k + 1;
    }
    if total > SEARCH_RESULT_CAP {
        let count = decimal_string(total as u64);
        r.append("\n");
        r.append("…（共 ");
        r.append(count.as_str());
        r.append(" 个结果，已省略其余）");
        proof {
            reveal_strlit("\n");
            assert(lines.take(shown as int + 1).drop_last() =~= lines.take(shown as int));
            assert(lines.take(shown as int + 1) =~= lines);
            assert(r@ =~= joined(lines));
        }
    } else {
        proof {
            assert(lines.take(shown as int) =~= lines);
        }
    }
    r
}

/// Why the assistant may not read a file: it is a directory, or it is over
/// `READ_LIMIT_BYTES` (the message gives its size).  `None` when it may.
pub open spec fn read_refusal(is_dir: bool, len: u64) -> Option<Seq<char>> {
    if is_dir {
        Some("这是一个目录，请改用列目录工具"@)
    } else if len > READ_LIMIT_BYTES {
        Some("文件过大（"@ + decimal(len as nat) + " 字节，上限 1MB），请分段查看或改用命令"@)
    } else {
        None
    }
}

/// Whether the assistant may read a file that is a directory (`is_dir`) or
/// holds `len` bytes: `Ok` exactly when `read_refusal` gives no reason,
/// else `Err` with that reason.
pub fn check_readable(is_dir: bool, len: u64) -> (r: Result<(), String>)
    ensures
        match r {
            Ok(()) => read_refusal(is_dir, len).is_none(),
            Err(e) => read_refusal(is_dir, len) == Some(e@),
        },
{
    if is_dir {
        return Err(String::from_str("这是一个目录，请改用列目录工具"));
    }
    if len > READ_LIMIT_BYTES {
        let mut e = String::from_str("文件过大（");
        let size = decimal_string(len);
        e.append(size.as_str());
        e.append(" 字节，上限 1MB），请分段查看或改用命令");
        return Err(e);
    }
    Ok(())
}

/// What the assistant is shown of a file's bytes: their text (invalid
/// UTF-8 replaced, see `utf8_lossy`) cut to `READ_LIMIT_CHARS` chars, with a
/// notice when cut.
pub fn file_text_for_agent(bytes: &[u8]) -> (r: String)
    ensures
        r@ == (if utf8_lossy(bytes@).len() <= READ_LIMIT_CHARS {
            utf8_lossy(bytes@)
        } else {
            utf8_lossy(bytes@).subrange(0, READ_LIMIT_CHARS as int) + truncation_notice()
        }),
{
    let text = string_from_utf8_lossy(bytes);
    truncate_chars(text.as_str(), READ_LIMIT_CHARS)
}

} // verus!
