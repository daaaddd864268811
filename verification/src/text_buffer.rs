//! The editable text of a tab: UTF-8 bytes together with the byte offset at
//! which each line starts.  Lines are separated by `\n`; a line's text does
//! not include its terminating newline.  The last line always exists (it is
//! empty when the text ends with a newline or the text is empty).
use vstd::prelude::*;
use vstd::string::StringSliceAdditionalSpecFns;

verus! {

/// Line feed, the line separator.
pub const NEWLINE: u8 = 10;

/// End (exclusive) of line `i` in `text`, given the line starts `st`.
pub open spec fn seg_end(text: Seq<u8>, st: Seq<usize>, i: int) -> int {
    if i + 1 < st.len() {
        st[i + 1] - 1
    } else {
        text.len() as int
    }
}

/// `st` lists exactly the starts of the `\n`-separated lines of `text`.
pub open spec fn starts_wf(text: Seq<u8>, st: Seq<usize>) -> bool {
    &&& st.len() >= 1
    &&& st[0] == 0
    &&& forall|i: int| 1 <= i < st.len() ==> 1 <= #[trigger] st[i] <= text.len()
    &&& forall|i: int| 1 <= i < st.len() ==> text[#[trigger] st[i] - 1] == NEWLINE
    &&& forall|i: int, j: int| 0 <= i < j < st.len() ==> #[trigger] st[i] < #[trigger] st[j]
    &&& forall|i: int, k: int|
        #![trigger st[i], text[k]]
        0 <= i < st.len() && st[i] <= k < seg_end(text, st, i) ==> text[k] != NEWLINE
}

pub struct TextBuffer {
    bytes: Vec<u8>,
    line_starts: Vec<usize>,
}

impl View for TextBuffer {
    type V = Seq<u8>;

    closed spec fn view(&self) -> Seq<u8> {
        self.bytes@
    }
}

impl TextBuffer {
    /// The start offsets of the lines.
    pub closed spec fn starts(&self) -> Seq<usize> {
        self.line_starts@
    }

    pub open spec fn wf(&self) -> bool {
        &&& starts_wf(self@, self.starts())
        &&& self@.len() <= usize::MAX
        &&& self.starts().len() <= usize::MAX
    }

    pub open spec fn line_count(&self) -> nat {
        self.starts().len()
    }

    /// Byte offset of the start of line `i`.
    pub open spec fn line_start(&self, i: int) -> int {
        self.starts()[i] as int
    }

    /// Byte offset just past the text of line `i` (its newline, or the end of the text).
    pub open spec fn line_end(&self, i: int) -> int {
        seg_end(self@, self.starts(), i)
    }

    /// The text of line `i`, without its newline.
    pub open spec fn line(&self, i: int) -> Seq<u8> {
        self@.subrange(self.line_start(i), self.line_end(i))
    }

    /// Start of line `i`, or the end of the text when there is no such line.
    pub open spec fn line_start_or_end(&self, i: int) -> int {
        if 0 <= i < self.line_count() {
            self.line_start(i)
        } else {
            self@.len() as int
        }
    }

    /// Facts about the line structure that every well-formed buffer has.
    pub proof fn lemma_lines(&self)
        requires
            self.wf(),
        ensures
            self.line_count() >= 1,
            self.line_start(0) == 0,
            self.line_end(self.line_count() - 1) == self@.len(),
            forall|i: int|
                0 <= i < self.line_count() ==> 0 <= #[trigger] self.line_start(i) <= self.line_end(
                    i,
                ) <= self@.len(),
            forall|i: int|
                0 <= i < self.line_count() - 1 ==> #[trigger] self.line_end(i) + 1
                    == self.line_start(i + 1) && self@[self.line_end(i)] == NEWLINE,
            forall|i: int, j: int|
                0 <= i < j < self.line_count() ==> #[trigger] self.line_start(i)
                    < #[trigger] self.line_start(j),
            forall|i: int, k: int|
                #![trigger self.line_start(i), self@[k]]
                0 <= i < self.line_count() && self.line_start(i) <= k < self.line_end(i)
                    ==> self@[k] != NEWLINE,
    {
        let st = self.starts();
        assert forall|i: int| 0 <= i < self.line_count() implies 0 <= #[trigger] self.line_start(
            i,
        ) <= self.line_end(i) <= self@.len() by {
            if i + 1 < st.len() {
                assert(st[i] < st[i + 1]);
            }
        }
    }


    /// An empty buffer: one empty line.
    pub fn new() -> (r: Self)
        ensures
            r.wf(),
            r@ == Seq::<u8>::empty(),
    {
        let bytes: Vec<u8> = Vec::new();
        let line_starts = compute_line_starts(&bytes);
        let _ = bytes.len();
        let _ = line_starts.len();
        TextBuffer { bytes, line_starts }
    }

    /// A buffer holding the given bytes.
    pub fn from_bytes(bytes: Vec<u8>) -> (r: Self)
        ensures
            r.wf(),
            r@ == bytes@,
    {
        let line_starts = compute_line_starts(&bytes);
        let _ = bytes.len();
        let _ = line_starts.len();
        TextBuffer { bytes, line_starts }
    }

    /// A buffer holding the UTF-8 encoding of `s`.
    pub fn from_str(s: &str) -> (r: Self)
        ensures
            r.wf(),
            r@ == s.spec_bytes(),
    {
        let bytes = vstd::slice::slice_to_vec(s.as_bytes());
        Self::from_bytes(bytes)
    }

    /// Number of bytes.
    pub fn len_bytes(&self) -> (r: usize)
        ensures
            r == self@.len(),
    {
        self.bytes.len()
    }

    /// Number of lines (at least one).
    pub fn len_lines(&self) -> (r: usize)
        requires
            self.wf(),
        ensures
            r == self.line_count(),
            r >= 1,
    {
        self.line_starts.len()
    }

    /// Byte offset at which line `i` starts; the text length when there is no line `i`.
    pub fn line_start_byte(&self, i: usize) -> (r: usize)
        requires
            self.wf(),
        ensures
            r == self.line_start_or_end(i as int),
            r <= self@.len(),
    {
        proof {
            self.lemma_lines();
        }
        if i < self.line_starts.len() {
            self.line_starts[i]
        } else {
            self.bytes.len()
        }
    }

    /// Byte offset just past the text of line `i` (which must exist).
    pub fn line_end_byte(&self, i: usize) -> (r: usize)
        requires
            self.wf(),
            i < self.line_count(),
        ensures
            r == self.line_end(i as int),
            self.line_start(i as int) <= r <= self@.len(),
    {
        if i < self.line_starts.len() - 1 {
            assert(self.line_starts@[i as int] < self.line_starts@[i + 1]);
            self.line_starts[i + 1] - 1
        } else {
            self.bytes.len()
        }
    }

    /// Length in bytes of line `i`, or `None` when there is no line `i`.
    pub fn line_len(&self, i: usize) -> (r: Option<usize>)
        requires
            self.wf(),
        ensures
            r == (if i < self.line_count() {
                Some(self.line(i as int).len() as usize)
            } else {
                None::<usize>
            }),
    {
        if i < self.line_starts.len() {
            let s = self.line_start_byte(i);
            let e = self.line_end_byte(i);
            Some(e - s)
        } else {
            None
        }
    }

    /// The byte at offset `pos`, if any.
    pub fn byte_at(&self, pos: usize) -> (r: Option<u8>)
        ensures
            r == (if pos < self@.len() {
                Some(self@[pos as int])
            } else {
                None::<u8>
            }),
    {
        if pos < self.bytes.len() {
            Some(self.bytes[pos])
        } else {
            None
        }
    }

    /// Whether the byte at `pos` exists and is a UTF-8 continuation byte.
    pub fn is_continuation_at(&self, pos: usize) -> (r: bool)
        ensures
            r == (pos < self@.len() && vstd::utf8::is_continuation_byte(self@[pos as int])),
    {
        match self.byte_at(pos) {
            Some(x) => 0x80 <= x && x <= 0xbf,
            None => false,
        }
    }

    /// The bytes in `[start, end)`, with both ends clamped to the text.
    pub fn get_text(&self, start: usize, end: usize) -> (r: Vec<u8>)
        ensures
            r@ == clamped_range(self@, start as int, end as int),
    {
        let e = if end < self.bytes.len() {
            end
        } else {
            self.bytes.len()
        };
        let s = if start < e {
            start
        } else {
            e
        };
        copy_range(&self.bytes, s, e)
    }

    /// The text of line `i`, or `None` when there is no line `i`.
    pub fn get_line(&self, i: usize) -> (r: Option<Vec<u8>>)
        requires
            self.wf(),
        ensures
            match r {
                Some(v) => i < self.line_count() && v@ == self.line(i as int),
                None => i >= self.line_count(),
            },
    {
        if i < self.line_starts.len() {
            let s = self.line_start_byte(i);
            let e = self.line_end_byte(i);
            Some(copy_range(&self.bytes, s, e))
        } else {
            None
        }
    }

    /// A copy of the whole text.
    pub fn all_bytes(&self) -> (r: Vec<u8>)
        ensures
            r@ == self@,
    {
        let r = copy_range(&self.bytes, 0, self.bytes.len());
        assert(r@ =~= self@);
        r
    }

    /// Inserts `s` at byte offset `pos`.
    pub fn insert(&mut self, pos: usize, s: &[u8])
        requires
            old(self).wf(),
            pos <= old(self)@.len(),
            old(self)@.len() + s@.len() <= usize::MAX,
        ensures
            final(self).wf(),
            final(self)@ == old(self)@.subrange(0, pos as int) + s@ + old(self)@.subrange(
                pos as int,
                old(self)@.len() as int,
            ),
    {
        let n = self.bytes.len();
        let mut out: Vec<u8> = Vec::with_capacity(n + s.len());
        append_range(&mut out, &self.bytes, 0, pos);
        append_range(&mut out, s, 0, s.len());
        append_range(&mut out, &self.bytes, pos, n);
        assert(s@.subrange(0, s@.len() as int) =~= s@);
        let starts = compute_line_starts(&out);
        let _ = out.len();
        let _ = starts.len();
        self.bytes = out;
        self.line_starts = starts;
    }

    /// Deletes the bytes in `[start, end)`.
    pub fn delete(&mut self, start: usize, end: usize)
        requires
            old(self).wf(),
            start <= end <= old(self)@.len(),
        ensures
            final(self).wf(),
            final(self)@ == old(self)@.subrange(0, start as int) + old(self)@.subrange(
                end as int,
                old(self)@.len() as int,
            ),
    {
        let n = self.bytes.len();
        let mut out: Vec<u8> = Vec::with_capacity(n - (end - start));
        append_range(&mut out, &self.bytes, 0, start);
        append_range(&mut out, &self.bytes, end, n);
        let starts = compute_line_starts(&out);
        let _ = out.len();
        let _ = starts.len();
        self.bytes = out;
        self.line_starts = starts;
    }
}

/// `s[start..end]` with `end` clamped to `s` and `start` clamped to `end`.
pub open spec fn clamped_range(s: Seq<u8>, start: int, end: int) -> Seq<u8> {
    let e = if end < s.len() {
        end
    } else {
        s.len() as int
    };
    let b = if start < e {
        start
    } else {
        e
    };
    s.subrange(b, e)
}

/// Appends `src[start..end]` to `out`.
pub fn append_range(out: &mut Vec<u8>, src: &[u8], start: usize, end: usize)
    requires
        start <= end <= src@.len(),
    ensures
        final(out)@ == old(out)@ + src@.subrange(start as int, end as int),
{
    let mut k = start;
    while k < end
        invariant
            start <= k <= end <= src@.len(),
            out@ == old(out)@ + src@.subrange(start as int, k as int),
        decreases end - k,
    {
        out.push(src[k]);
        k = k + 1;
        assert(out@ =~= old(out)@ + src@.subrange(start as int, k as int));
    }
}

/// A new vector holding `src[start..end]`.
pub fn copy_range(src: &[u8], start: usize, end: usize) -> (r: Vec<u8>)
    requires
        start <= end <= src@.len(),
    ensures
        r@ == src@.subrange(start as int, end as int),
{
    let mut out: Vec<u8> = Vec::new();
    append_range(&mut out, src, start, end);
    assert(out@ =~= src@.subrange(start as int, end as int));
    out
}

/// Scans `bytes` for line feeds and returns the start offset of every line.
pub fn compute_line_starts(bytes: &[u8]) -> (st: Vec<usize>)
    ensures
        starts_wf(bytes@, st@),
{
    let mut st: Vec<usize> = Vec::new();
    st.push(0);
    let n = bytes.len();
    let mut k: usize = 0;
    while k < n
        invariant
            n == bytes@.len(),
            k <= n,
            st@.len() >= 1,
            st@[0] == 0,
            forall|i: int| 1 <= i < st@.len() ==> 1 <= #[trigger] st@[i] <= k,
            forall|i: int| 1 <= i < st@.len() ==> bytes@[#[trigger] st@[i] - 1] == NEWLINE,
            forall|i: int, j: int|
                0 <= i < j < st@.len() ==> #[trigger] st@[i] < #[trigger] st@[j],
            forall|i: int, m: int|
                #![trigger st@[i], bytes@[m]]
                0 <= i < st@.len() && st@[i] <= m < (if i + 1 < st@.len() {
                    st@[i + 1] - 1
                } else {
                    k as int
                }) ==> bytes@[m] != NEWLINE,
        decreases n - k,
    {
        let ghost old_st = st@;
        if bytes[k] == NEWLINE {
            st.push(k + 1);
            assert forall|i: int, m: int|
                #![trigger st@[i], bytes@[m]]
                0 <= i < st@.len() && st@[i] <= m < (if i + 1 < st@.len() {
                    st@[i + 1] - 1
                } else {
                    (k + 1) as int
                }) implies bytes@[m] != NEWLINE by {
                if i + 1 < old_st.len() {
                    assert(st@[i + 1] == old_st[i + 1]);
                } else if i + 1 == old_st.len() {
                    assert(st@[i] == old_st[i]);
                }
            }
        }
        k = k + 1;
    }
    st
}

} // verus!
