//! Characters inside a line of UTF-8 bytes: char boundaries, stepping from one
//! char to the next, decoding the char that starts at a boundary, and the
//! Unicode classes that word motion needs.
use vstd::prelude::*;
use vstd::utf8::*;

verus! {

/// Whether byte offset `p` of `s` starts a char (or is the end of `s`).
pub open spec fn is_boundary(s: Seq<u8>, p: int) -> bool {
    ||| p == 0
    ||| p == s.len()
    ||| (0 < p < s.len() && !is_continuation_byte(s[p]))
}

/// The greatest char boundary not after `p` (the end of `s` when `p` is past it).
pub open spec fn floor_boundary(s: Seq<u8>, p: int) -> int
    decreases p,
{
    if p <= 0 {
        0
    } else if p >= s.len() {
        s.len() as int
    } else if is_boundary(s, p) {
        p
    } else {
        floor_boundary(s, p - 1)
    }
}

/// The least char boundary not before `q` (the end of `s` when there is none before it).
pub open spec fn ceil_boundary(s: Seq<u8>, q: int) -> int
    decreases s.len() - q,
{
    if q >= s.len() {
        s.len() as int
    } else if q <= 0 {
        0
    } else if is_boundary(s, q) {
        q
    } else {
        ceil_boundary(s, q + 1)
    }
}

/// Start of the char that ends at `p` (for `p > 0`).
pub open spec fn prev_boundary(s: Seq<u8>, p: int) -> int {
    floor_boundary(s, p - 1)
}

/// End of the char that starts at `p` (for `p < s.len()`).
pub open spec fn next_boundary(s: Seq<u8>, p: int) -> int {
    ceil_boundary(s, p + 1)
}

pub proof fn lemma_floor_boundary(s: Seq<u8>, p: int)
    ensures
        0 <= floor_boundary(s, p),
        p >= 0 ==> floor_boundary(s, p) <= p,
        floor_boundary(s, p) <= s.len(),
        is_boundary(s, floor_boundary(s, p)),
        0 <= p <= s.len() && is_boundary(s, p) ==> floor_boundary(s, p) == p,
    decreases p,
{
    if p > 0 && p < s.len() && !is_boundary(s, p) {
        lemma_floor_boundary(s, p - 1);
    }
}

pub proof fn lemma_ceil_boundary(s: Seq<u8>, q: int)
    ensures
        q <= s.len() ==> q <= ceil_boundary(s, q) || q < 0,
        0 <= ceil_boundary(s, q) <= s.len(),
        is_boundary(s, ceil_boundary(s, q)),
        0 <= q <= s.len() && is_boundary(s, q) ==> ceil_boundary(s, q) == q,
        forall|m: int| q <= m < ceil_boundary(s, q) ==> !is_boundary(s, m),
    decreases s.len() - q,
{
    if q < s.len() && q > 0 && !is_boundary(s, q) {
        lemma_ceil_boundary(s, q + 1);
    }
}

/// Stepping back from the end of the char that starts at boundary `p` returns to `p`.
pub proof fn lemma_prev_of_next(s: Seq<u8>, p: int)
    requires
        0 <= p < s.len(),
        is_boundary(s, p),
    ensures
        prev_boundary(s, next_boundary(s, p)) == p,
        p < next_boundary(s, p) <= s.len(),
{
    lemma_ceil_boundary(s, p + 1);
    let q = next_boundary(s, p);
    lemma_floor_walks_down(s, p, q - 1);
}

/// Walking down from `m` over non-boundaries reaches the boundary `p`.
pub proof fn lemma_floor_walks_down(s: Seq<u8>, p: int, m: int)
    requires
        0 <= p <= m < s.len(),
        is_boundary(s, p),
        forall|k: int| p < k <= m ==> !is_boundary(s, k),
    ensures
        floor_boundary(s, m) == p,
    decreases m - p,
{
    if m > p {
        lemma_floor_walks_down(s, p, m - 1);
    }
}

/// Stepping forward from the start of the char that ends at boundary `p` returns to `p`.
pub proof fn lemma_next_of_prev(s: Seq<u8>, p: int)
    requires
        0 < p <= s.len(),
        is_boundary(s, p),
    ensures
        next_boundary(s, prev_boundary(s, p)) == p,
        0 <= prev_boundary(s, p) < p,
{
    lemma_floor_boundary(s, p - 1);
    let b = prev_boundary(s, p);
    lemma_no_boundary_between(s, b, p - 1);
    lemma_ceil_walks_up(s, b + 1, p);
}

/// No boundary lies strictly between `floor_boundary(s, m)` and `m`.
pub proof fn lemma_no_boundary_between(s: Seq<u8>, b: int, m: int)
    requires
        0 <= m < s.len(),
        b == floor_boundary(s, m),
    ensures
        forall|k: int| b < k <= m ==> !is_boundary(s, k),
    decreases m,
{
    if m > 0 && !is_boundary(s, m) {
        lemma_no_boundary_between(s, floor_boundary(s, m - 1), m - 1);
    }
}

/// Walking up from `q` over non-boundaries reaches the boundary `p`.
pub proof fn lemma_ceil_walks_up(s: Seq<u8>, q: int, p: int)
    requires
        0 < q <= p <= s.len(),
        is_boundary(s, p),
        forall|k: int| q <= k < p ==> !is_boundary(s, k),
    ensures
        ceil_boundary(s, q) == p,
    decreases p - q,
{
    if q < p {
        lemma_ceil_walks_up(s, q + 1, p);
    }
}

/// Replacement char for bytes that do not start a well-formed UTF-8 char.
pub open spec fn replacement_char() -> char {
    '\u{FFFD}'
}

/// The char whose UTF-8 encoding starts `b` (the replacement char when there is none).
pub open spec fn decode_char(b: Seq<u8>) -> char {
    if b.len() > 0 && valid_first_scalar(b) && is_scalar(decode_first_scalar(b)) {
        decode_first_scalar(b) as char
    } else {
        replacement_char()
    }
}

/// The char that starts at byte offset `p` of `s`.
pub open spec fn char_at(s: Seq<u8>, p: int) -> char {
    decode_char(s.subrange(p, s.len() as int))
}

/// Whether `c` has the Unicode `White_Space` property (the code points
/// that `PropList.txt` lists under it), which `char::is_whitespace` tests.
pub open spec fn unicode_white_space(c: char) -> bool {
    let u = c as u32;
    ||| 0x09 <= u <= 0x0d
    ||| u == 0x20
    ||| u == 0x85
    ||| u == 0xa0
    ||| u == 0x1680
    ||| 0x2000 <= u <= 0x200a
    ||| u == 0x2028
    ||| u == 0x2029
    ||| u == 0x202f
    ||| u == 0x205f
    ||| u == 0x3000
}

/// Whether `std` counts `c` as alphanumeric (Unicode `Alphabetic` or `Numeric`).
pub uninterp spec fn unicode_alphanumeric(c: char) -> bool;

/// Chars that make up words: alphanumerics and `_`.
pub open spec fn is_word_char(c: char) -> bool {
    unicode_alphanumeric(c) || c == '_'
}

/// Whether `c` is white space (see `unicode_white_space`).
pub fn char_is_whitespace(c: char) -> (r: bool)
    ensures
        r == unicode_white_space(c),
{
    let u = c as u32;
    (0x09 <= u && u <= 0x0d) || u == 0x20 || u == 0x85 || u == 0xa0 || u == 0x1680 || (0x2000 <= u
        && u <= 0x200a) || u == 0x2028 || u == 0x2029 || u == 0x202f || u == 0x205f || u == 0x3000
}

/// `char::is_alphanumeric`: `c` is `Alphabetic` or `Numeric`.  The result is
/// named; only the ASCII letters and digits that `std` documents are stated.
#[verifier::external_body]
pub(crate) fn char_is_alphanumeric(c: char) -> (r: bool)
    ensures
        r == unicode_alphanumeric(c),
        ('a' <= c <= 'z') || ('A' <= c <= 'Z') || ('0' <= c <= '9') ==> r,
        c == ' ' || c == '\t' || c == '\n' || c == '\r' || c == '_' || c == '.' ==> !r,
{
    c.is_alphanumeric()
}

/// `char::from_u32`: `Some` exactly for Unicode scalar values.
#[verifier::external_body]
pub(crate) fn char_from_u32(i: u32) -> (r: Option<char>)
    ensures
        r == (if is_scalar(i) {
            Some(i as char)
        } else {
            None::<char>
        }),
{
    char::from_u32(i)
}

/// Whether `c` is part of a word (alphanumeric or `_`).
pub fn word_char(c: char) -> (r: bool)
    ensures
        r == is_word_char(c),
{
    c == '_' || char_is_alphanumeric(c)
}

/// Whether offset `p` of `s` is a char boundary.
pub fn boundary(s: &[u8], p: usize) -> (r: bool)
    ensures
        r == is_boundary(s@, p as int),
{
    p == 0 || p == s.len() || (p < s.len() && !(0x80 <= s[p] && s[p] <= 0xbf))
}

/// `str::floor_char_boundary`: the greatest char boundary not after `p`.
pub fn floor_char_boundary(s: &[u8], p: usize) -> (r: usize)
    ensures
        r == floor_boundary(s@, p as int),
        r <= s@.len(),
        is_boundary(s@, r as int),
{
    proof {
        lemma_floor_boundary(s@, p as int);
    }
    if p >= s.len() {
        return s.len();
    }
    let mut q = p;
    while q > 0 && !boundary(s, q)
        invariant
            q <= p < s@.len(),
            floor_boundary(s@, q as int) == floor_boundary(s@, p as int),
        decreases q,
    {
        q = q - 1;
    }
    q
}

/// The least char boundary not before `q` (`q <= s.len()`).
pub fn ceil_char_boundary(s: &[u8], q: usize) -> (r: usize)
    requires
        q <= s@.len(),
    ensures
        r == ceil_boundary(s@, q as int),
        q <= r <= s@.len(),
{
    proof {
        lemma_ceil_boundary(s@, q as int);
    }
    let mut k = q;
    while k < s.len() && !boundary(s, k)
        invariant
            q <= k <= s@.len(),
            ceil_boundary(s@, k as int) == ceil_boundary(s@, q as int),
        decreases s@.len() - k,
    {
        k = k + 1;
    }
    k
}

/// Decodes the char starting at offset `p` of `s` (the replacement char when
/// the bytes there are not a well-formed UTF-8 char).
pub fn decode_char_at(s: &[u8], p: usize) -> (c: char)
    requires
        p < s@.len(),
    ensures
        c == char_at(s@, p as int),
{
    let ghost b = s@.subrange(p as int, s@.len() as int);
    let n = s.len() - p;
    let b0 = s[p];
    let mut cp: u32 = 0;
    let mut ok = false;
    if b0 <= 0x7f {
        cp = (b0 & 0x7F) as u32;
        ok = true;
    } else if 0xc0 <= b0 && b0 <= 0xdf {
        if n >= 2 {
            let b1 = s[p + 1];
            if 0x80 <= b1 && b1 <= 0xbf {
                cp = (((b0 & 0x1F) as u32) << 6) | ((b1 & 0x3f) as u32);
                ok = 0x80 <= cp && !(0xD800 <= cp && cp <= 0xDFFF);
            }
        }
    } else if 0xe0 <= b0 && b0 <= 0xef {
        if n >= 3 {
            let b1 = s[p + 1];
            let b2 = s[p + 2];
            if 0x80 <= b1 && b1 <= 0xbf && 0x80 <= b2 && b2 <= 0xbf {
                cp = (((b0 & 0x0F) as u32) << 12) | (((b1 & 0x3f) as u32) << 6) | ((b2
                    & 0x3f) as u32);
                ok = 0x800 <= cp && !(0xD800 <= cp && cp <= 0xDFFF);
            }
        }
    } else if 0xf0 <= b0 && b0 <= 0xf7 {
        if n >= 4 {
            let b1 = s[p + 1];
            let b2 = s[p + 2];
            let b3 = s[p + 3];
            if 0x80 <= b1 && b1 <= 0xbf && 0x80 <= b2 && b2 <= 0xbf && 0x80 <= b3 && b3 <= 0xbf {
                cp = (((b0 & 0x07) as u32) << 18) | (((b1 & 0x3f) as u32) << 12) | (((b2
                    & 0x3f) as u32) << 6) | ((b3 & 0x3f) as u32);
                ok = 0x10000 <= cp && cp <= 0x10ffff && !(0xD800 <= cp && cp <= 0xDFFF);
            }
        }
    }
    proof {
        assert(b[0] == b0);
        if n >= 2 {
            assert(b[1] == s@[p + 1]);
        }
        if n >= 3 {
            assert(b[2] == s@[p + 2]);
        }
        if n >= 4 {
            assert(b[3] == s@[p + 3]);
        }
        assert(ok == (valid_first_scalar(b)));
        if ok {
            assert(cp == decode_first_scalar(b));
        }
    }
    if ok {
        match char_from_u32(cp) {
            Some(c) => c,
            None => '\u{FFFD}',
        }
    } else {
        '\u{FFFD}'
    }
}


/// The characters of ASCII bytes.
pub open spec fn ascii_chars(b: Seq<u8>) -> Seq<char> {
    Seq::new(b.len(), |i: int| b[i] as char)
}

/// ASCII bytes are the UTF-8 encoding of their characters.
pub proof fn lemma_ascii_chars(b: Seq<u8>)
    requires
        forall|i: int| 0 <= i < b.len() ==> #[trigger] b[i] < 0x80,
    ensures
        is_ascii_chars(ascii_chars(b)),
        encode_utf8(ascii_chars(b)) == b,
        valid_utf8(b),
{
    let c = ascii_chars(b);
    assert forall|i: int| 0 <= i < c.len() implies '\0' <= #[trigger] c[i] <= '\u{7f}' by {
        assert(c[i] == b[i] as char);
    }
    vstd::utf8::is_ascii_chars_encode_utf8(c);
    assert forall|i: int| 0 <= i < c.len() implies #[trigger] encode_utf8(c)[i] == b[i] by {
        assert(encode_utf8(c)[i] == c[i] as u8);
        assert(c[i] == b[i] as char);
    }
    assert(encode_utf8(c) =~= b);
    vstd::utf8::encode_utf8_valid_utf8(c);
}

/// A text is empty exactly when its UTF-8 encoding is.
pub proof fn lemma_encode_utf8_empty(s: Seq<char>)
    ensures
        (vstd::utf8::encode_utf8(s).len() == 0) == (s.len() == 0),
{
    vstd::utf8::encode_utf8_decode_utf8(s);
    if vstd::utf8::encode_utf8(s).len() == 0 {
        assert(vstd::utf8::encode_utf8(s) =~= Seq::<u8>::empty());
        assert(vstd::utf8::valid_utf8(Seq::<u8>::empty()));
        assert(vstd::utf8::decode_utf8(Seq::<u8>::empty()) =~= Seq::<char>::empty());
    }
}

/// `String::from_utf8`: the bytes, which are valid UTF-8, as a `String`
/// whose UTF-8 encoding they are.
#[verifier::external_body]
pub(crate) fn string_from_utf8(bytes: Vec<u8>) -> (s: String)
    requires
        valid_utf8(bytes@),
    ensures
        encode_utf8(s@) == bytes@,
{
    match String::from_utf8(bytes) {
        Ok(s) => s,
        Err(_) => String::new(),
    }
}

/// The text `String::from_utf8_lossy` makes of `bytes`: the bytes decoded
/// as UTF-8, each invalid sequence replaced by U+FFFD.
pub uninterp spec fn utf8_lossy(bytes: Seq<u8>) -> Seq<char>;

/// `String::from_utf8_lossy`: the text of `bytes` with invalid sequences
/// replaced (named `utf8_lossy`); bytes that are valid UTF-8 give exactly
/// the text they encode.
#[verifier::external_body]
pub(crate) fn string_from_utf8_lossy(bytes: &[u8]) -> (s: String)
    ensures
        s@ == utf8_lossy(bytes@),
        valid_utf8(bytes@) ==> s@ == decode_utf8(bytes@),
{
    String::from_utf8_lossy(bytes).into_owned()
}

/// UTF-8 encoding of a concatenation is the concatenation of the encodings.
pub proof fn lemma_encode_utf8_concat(a: Seq<char>, b: Seq<char>)
    ensures
        encode_utf8(a + b) == encode_utf8(a) + encode_utf8(b),
    decreases a.len(),
{
    if a.len() == 0 {
        assert(a + b =~= b);
        assert(encode_utf8(a) =~= Seq::<u8>::empty());
        assert(encode_utf8(a) + encode_utf8(b) =~= encode_utf8(b));
    } else {
        assert((a + b).drop_first() =~= a.drop_first() + b);
        assert((a + b)[0] == a[0]);
        lemma_encode_utf8_concat(a.drop_first(), b);
        assert(encode_utf8(a + b) =~= encode_scalar(a[0] as u32) + encode_utf8(a.drop_first())
            + encode_utf8(b));
    }
}

/// In valid UTF-8, an ASCII byte that starts a char is followed by a char boundary.
pub proof fn lemma_boundary_after_ascii(b: Seq<u8>, i: int)
    requires
        valid_utf8(b),
        0 <= i < b.len(),
        is_char_boundary(b, i),
        b[i] < 0x80,
    ensures
        is_char_boundary(b, i + 1),
    decreases b.len(),
{
    let l = length_of_first_scalar(b);
    let rest = pop_first_scalar(b);
    assert(valid_first_scalar(b) && valid_utf8(rest));
    assert(1 <= l <= b.len());
    assert(rest.len() == b.len() - l);
    if i == 0 {
        assert(l == 1);
        assert(is_char_boundary(rest, 0));
    } else {
        assert(is_char_boundary(rest, i - l));
        assert(i - l >= 0);
        assert(rest[i - l] == b[i]);
        lemma_boundary_after_ascii(rest, i - l);
    }
}

} // verus!
