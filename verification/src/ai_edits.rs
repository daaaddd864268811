//! Precise edits proposed by the assistant: finding the byte range an edit
//! targets (by line numbers, by a code snippet, or by the first line holding
//! a keyword) and applying the edit to a file's text.
//!
//! Lines are those of `str::lines`: split at `\n`, a `\r` before the `\n`
//! dropped, no empty line after a final `\n`.  A line's offset counts each
//! earlier line's length plus one.
use vstd::prelude::*;
use vstd::string::StringExecFns;
use vstd::string::StringSliceAdditionalSpecFns;
use vstd::utf8::encode_utf8;

use crate::chars::{
    char_at, lemma_encode_utf8_concat, decode_char_at, floor_char_boundary, is_word_char, lemma_boundary_after_ascii,
    lemma_floor_boundary, prev_boundary, word_char,
};
use crate::browser::{trim_chars, trim_end_index, trim_start_index};
use crate::chars::char_is_whitespace;
use crate::terminal::chars_of;
use crate::search::{find_bytes, find_bytes_from, first_match, first_match_from, lemma_first_match_from};
use crate::text_buffer::NEWLINE;

verus! {

/// Carriage return.
pub const CR: u8 = 13;

/// Why an edit target could not be located.
#[derive(Clone, Copy, Debug, PartialEq, Eq, Structural)]
pub enum LocateError {
    /// The 1-based line range (start, end) is outside the text.
    InvalidLineRange(usize, usize),
    /// No line holds the keyword.
    KeywordNotFound,
    /// The snippet does not occur in the text.
    SnippetNotFound,
}

/// `x` without one trailing `\r`.
pub open spec fn strip_cr(x: Seq<u8>) -> Seq<u8> {
    if x.len() > 0 && x.last() == CR {
        x.drop_last()
    } else {
        x
    }
}

/// The lines of `c` from offset `i` on, the current line having started at `start`.
pub open spec fn lines_from(c: Seq<u8>, start: int, i: int) -> Seq<Seq<u8>>
    decreases c.len() - i,
{
    if i >= c.len() || i < 0 {
        if 0 <= start < c.len() {
            seq![c.subrange(start, c.len() as int)]
        } else {
            Seq::empty()
        }
    } else if c[i] == NEWLINE {
        seq![strip_cr(c.subrange(start, i))] + lines_from(c, i + 1, i + 1)
    } else {
        lines_from(c, start, i + 1)
    }
}

/// The lines of `c` (`str::lines`).
pub open spec fn text_lines(c: Seq<u8>) -> Seq<Seq<u8>> {
    lines_from(c, 0, 0)
}

/// Offset of line `k` (0-based): the lengths of the lines before it, plus one each.
pub open spec fn line_offset(lines: Seq<Seq<u8>>, k: int) -> int
    decreases k,
{
    if k <= 0 {
        0
    } else {
        line_offset(lines, k - 1) + lines[k - 1].len() + 1
    }
}

/// The texts of the (start, length) spans of `c`.
pub open spec fn span_texts(c: Seq<u8>, spans: Seq<(usize, usize)>) -> Seq<Seq<u8>> {
    Seq::new(spans.len(), |j: int| c.subrange(spans[j].0 as int, spans[j].0 + spans[j].1))
}

/// Spans lie in `c` in order, each line starting after the previous one's
/// newline and ending before a `\r` or `\n` or at the end of `c`.
pub open spec fn spans_ok(c: Seq<u8>, spans: Seq<(usize, usize)>) -> bool {
    &&& forall|j: int| 0 <= j < spans.len() ==> #[trigger] spans[j].0 + spans[j].1 <= c.len()
    &&& forall|j: int|
        0 <= j < spans.len() - 1 ==> #[trigger] spans[j].0 + spans[j].1 + 1 <= spans[j + 1].0
    &&& forall|j: int|
        0 <= j < spans.len() ==> (#[trigger] spans[j].0 == 0 || c[spans[j].0 - 1] == NEWLINE)
    &&& forall|j: int|
        0 <= j < spans.len() ==> (#[trigger] spans[j].0 + spans[j].1 == c.len() || c[spans[j].0
            + spans[j].1] == NEWLINE || c[spans[j].0 + spans[j].1] == CR)
}

/// Splits `c` into its lines, as (start, length) spans.
pub fn split_lines(c: &[u8]) -> (spans: Vec<(usize, usize)>)
    ensures
        span_texts(c@, spans@) == text_lines(c@),
        spans_ok(c@, spans@),
{
    let mut spans: Vec<(usize, usize)> = Vec::new();
    let mut start: usize = 0;
    let mut i: usize = 0;
    while i < c.len()
        invariant
            start <= i <= c@.len(),
            start == 0 || c@[start - 1] == NEWLINE,
            span_texts(c@, spans@) + lines_from(c@, start as int, i as int) == text_lines(c@),
            spans_ok(c@, spans@),
            spans@.len() > 0 ==> spans@.last().0 + spans@.last().1 + 1 <= start,
        decreases c@.len() - i,
    {
        if c[i] == NEWLINE {
            let mut e = i;
            if e > start && c[e - 1] == CR {
                e = e - 1;
            }
            let ghost old_spans = spans@;
            spans.push((start, e - start));
            proof {
                assert(c@.subrange(start as int, e as int) =~= strip_cr(
                    c@.subrange(start as int, i as int),
                ));
                assert(span_texts(c@, spans@) =~= span_texts(c@, old_spans).push(
                    strip_cr(c@.subrange(start as int, i as int)),
                ));
                assert(lines_from(c@, start as int, i as int) == seq![
                    strip_cr(c@.subrange(start as int, i as int)),
                ] + lines_from(c@, i + 1, i + 1));
                assert(span_texts(c@, spans@) + lines_from(c@, i + 1, i + 1) =~= span_texts(
                    c@,
                    old_spans,
                ) + lines_from(c@, start as int, i as int));
            }
            start = i + 1;
        }
        i = i + 1;
    }
    if start < c.len() {
        let ghost old_spans = spans@;
        spans.push((start, c.len() - start));
        proof {
            assert(span_texts(c@, spans@) =~= span_texts(c@, old_spans) + lines_from(
                c@,
                start as int,
                c@.len() as int,
            ));
        }
    } else {
        proof {
            assert(span_texts(c@, spans@) =~= span_texts(c@, spans@) + lines_from(
                c@,
                start as int,
                c@.len() as int,
            ));
        }
    }
    spans
}

/// Offset of line `k` given the spans (the lengths before it, plus one each).
fn span_offset(spans: &Vec<(usize, usize)>, k: usize, Ghost(c): Ghost<Seq<u8>>) -> (r: usize)
    requires
        k <= spans@.len(),
        spans_ok(c, spans@),
        c.len() < usize::MAX,
    ensures
        r == line_offset(span_texts(c, spans@), k as int),
{
    let ghost lines = span_texts(c, spans@);
    let mut sum: usize = 0;
    let mut j: usize = 0;
    while j < k
        invariant
            j <= k <= spans@.len(),
            spans_ok(c, spans@),
            c.len() < usize::MAX,
            lines == span_texts(c, spans@),
            sum == line_offset(lines, j as int),
            j > 0 ==> sum <= spans@[j - 1].0 + spans@[j - 1].1 + 1,
        decreases k - j,
    {
        proof {
            assert(lines[j as int].len() == spans@[j as int].1);
            if j > 0 {
                assert(spans@[j - 1].0 + spans@[j - 1].1 + 1 <= spans@[j as int].0);
            }
            assert(spans@[j as int].0 + spans@[j as int].1 <= c.len());
        }
        sum = sum + spans[j].1 + 1;
        j = j + 1;
    }
    sum
}

/// Byte range of the 1-based lines `start_line..=end_line` of `content`:
/// from the offset of the first line to the offset just past the last.
pub open spec fn spec_locate_by_line_range(c: Seq<u8>, start_line: usize, end_line: usize) -> Result<
    (usize, usize),
    LocateError,
> {
    let lines = text_lines(c);
    let n = lines.len();
    if start_line == 0 || end_line == 0 || start_line > n || end_line > n {
        Err(LocateError::InvalidLineRange(start_line, end_line))
    } else {
        Ok(
            (
                line_offset(lines, start_line - 1) as usize,
                line_offset(lines, end_line as int) as usize,
            ),
        )
    }
}

/// Locates the 1-based line range `start_line..=end_line` (see
/// `spec_locate_by_line_range`); an error when either end is 0 or past the
/// last line.
pub fn locate_by_line_range(content: &str, start_line: usize, end_line: usize) -> (r: Result<
    (usize, usize),
    LocateError,
>)
    requires
        encode_utf8(content@).len() < usize::MAX,
    ensures
        r == spec_locate_by_line_range(encode_utf8(content@), start_line, end_line),
{
    let c = content.as_bytes();
    let spans = split_lines(c);
    let n = spans.len();
    if start_line == 0 || end_line == 0 || start_line > n || end_line > n {
        return Err(LocateError::InvalidLineRange(start_line, end_line));
    }
    let start_pos = span_offset(&spans, start_line - 1, Ghost(c@));
    let end_pos = span_offset(&spans, end_line, Ghost(c@));
    Ok((start_pos, end_pos))
}

/// Byte range of the first occurrence of `snippet` in `content`.
pub open spec fn spec_locate_by_code_snippet(c: Seq<u8>, snippet: Seq<u8>) -> Result<
    (usize, usize),
    LocateError,
> {
    match first_match(c, snippet) {
        Some(p) => Ok((p as usize, (p + snippet.len()) as usize)),
        None => Err(LocateError::SnippetNotFound),
    }
}

/// Locates the first occurrence of `snippet` in `content` (the snippet as
/// it is: no similarity matching is done).
pub fn locate_by_code_snippet(content: &str, snippet: &str) -> (r: Result<
    (usize, usize),
    LocateError,
>)
    ensures
        r == spec_locate_by_code_snippet(encode_utf8(content@), encode_utf8(snippet@)),
{
    let c = content.as_bytes();
    let s = snippet.as_bytes();
    match find_bytes(c, s) {
        Some(p) => {
            proof {
                crate::search::lemma_first_match_from(c@, s@, 0);
                assert(crate::search::matches_at(c@, s@, p as int));
                assert(c@.len() == c.len());
            }
            Ok((p, p + s.len()))
        },
        None => Err(LocateError::SnippetNotFound),
    }
}

/// `std`'s lower-case mapping of a text (Unicode `Lowercase`).
pub uninterp spec fn lowercase(s: Seq<char>) -> Seq<char>;

/// `str::to_lowercase`: the lower-case equivalent of `s`, named `lowercase`.
#[verifier::external_body]
fn str_to_lowercase(s: &str) -> (r: String)
    ensures
        r@ == lowercase(s@),
{
    s.to_lowercase()
}

/// The match of `n_len` bytes at `abs` in `h` stands alone: no word char
/// right before it or right after it.
pub open spec fn word_bounded(h: Seq<u8>, n_len: int, abs: int) -> bool {
    &&& (abs == 0 || !is_word_char(char_at(h, prev_boundary(h, abs))))
    &&& (abs + n_len >= h.len() || !is_word_char(char_at(h, abs + n_len)))
}

/// Scanning `h` for `n` from `start`, each search resuming after the
/// previous match, some match stands alone as a word.
pub open spec fn whole_word_from(h: Seq<u8>, n: Seq<u8>, start: int) -> bool
    decreases h.len() - start,
{
    if start < 0 || n.len() == 0 || start > h.len() {
        false
    } else {
        match first_match_from(h, n, start) {
            None => false,
            Some(abs) => if word_bounded(h, n.len() as int, abs) {
                true
            } else {
                proof {
                    lemma_first_match_from(h, n, start);
                }
                whole_word_from(h, n, abs + n.len())
            },
        }
    }
}

/// `keyword` is found in `line`: ignoring case (both lower-cased) when
/// `case_insensitive`, and only as a whole word when `whole_word`.  An empty
/// keyword is found nowhere.
pub open spec fn keyword_in_line(
    line: Seq<char>,
    keyword: Seq<char>,
    case_insensitive: bool,
    whole_word: bool,
) -> bool {
    let hay = encode_utf8(
        if case_insensitive {
            lowercase(line)
        } else {
            line
        },
    );
    let needle = encode_utf8(
        if case_insensitive {
            lowercase(keyword)
        } else {
            keyword
        },
    );
    if needle.len() == 0 {
        false
    } else if !whole_word {
        first_match(hay, needle).is_some()
    } else {
        whole_word_from(hay, needle, 0)
    }
}

/// `keyword_in_line` on the bytes of the (possibly lower-cased) texts.
fn keyword_in_bytes(hay: &[u8], needle: &[u8], whole_word: bool) -> (r: bool)
    ensures
        r == (if needle@.len() == 0 {
            false
        } else if !whole_word {
            first_match(hay@, needle@).is_some()
        } else {
            whole_word_from(hay@, needle@, 0)
        }),
{
    if needle.len() == 0 {
        return false;
    }
    if !whole_word {
        return find_bytes(hay, needle).is_some();
    }
    let mut start: usize = 0;
    loop
        invariant
            needle@.len() > 0,
            whole_word,
            start <= hay@.len(),
            whole_word_from(hay@, needle@, start as int) == whole_word_from(hay@, needle@, 0),
        decreases hay@.len() - start,
    {
        match find_bytes_from(hay, needle, start) {
            None => {
                return false;
            },
            Some(abs) => {
                proof {
                    lemma_first_match_from(hay@, needle@, start as int);
                    assert(crate::search::matches_at(hay@, needle@, abs as int));
                    assert(hay@.len() == hay.len());
                }
                let before_ok = if abs == 0 {
                    true
                } else {
                    let p = floor_char_boundary(hay, abs - 1);
                    proof {
                        lemma_floor_boundary(hay@, abs - 1);
                    }
                    !word_char(decode_char_at(hay, p))
                };
                let after = abs + needle.len();
                let after_ok = if after >= hay.len() {
                    true
                } else {
                    !word_char(decode_char_at(hay, after))
                };
                if before_ok && after_ok {
                    return true;
                }
                start = after;
            },
        }
    }
}

/// Whether `line` holds `keyword` (see `keyword_in_line`).
pub fn line_matches_keyword(
    line: &str,
    keyword: &str,
    case_insensitive: bool,
    whole_word: bool,
) -> (r: bool)
    ensures
        r == keyword_in_line(line@, keyword@, case_insensitive, whole_word),
{
    if case_insensitive {
        let hay = str_to_lowercase(line);
        let needle = str_to_lowercase(keyword);
        keyword_in_bytes(hay.as_str().as_bytes(), needle.as_str().as_bytes(), whole_word)
    } else {
        keyword_in_bytes(line.as_bytes(), keyword.as_bytes(), whole_word)
    }
}

/// Index of the first line from `i` on that holds the keyword.
pub open spec fn first_keyword_line(
    lines: Seq<Seq<u8>>,
    keyword: Seq<char>,
    case_insensitive: bool,
    whole_word: bool,
    i: int,
) -> Option<int>
    decreases lines.len() - i,
{
    if i < 0 || i >= lines.len() {
        None
    } else if keyword_in_line(
        vstd::utf8::decode_utf8(lines[i]),
        keyword,
        case_insensitive,
        whole_word,
    ) {
        Some(i)
    } else {
        first_keyword_line(lines, keyword, case_insensitive, whole_word, i + 1)
    }
}

/// Byte range of the first line holding the keyword together with
/// `context_lines` lines on each side (clamped to the text).
pub open spec fn spec_locate_by_keyword(
    c: Seq<u8>,
    keyword: Seq<char>,
    context_lines: usize,
    case_insensitive: bool,
    whole_word: bool,
) -> Result<(usize, usize), LocateError> {
    let lines = text_lines(c);
    match first_keyword_line(lines, keyword, case_insensitive, whole_word, 0) {
        None => Err(LocateError::KeywordNotFound),
        Some(i) => {
            let s = if i >= context_lines {
                i - context_lines
            } else {
                0
            };
            let e = if i + context_lines + 1 <= lines.len() {
                i + context_lines + 1
            } else {
                lines.len() as int
            };
            Ok((line_offset(lines, s) as usize, line_offset(lines, e) as usize))
        },
    }
}

/// A span's start is at least its index.
proof fn lemma_span_start_at_least_index(c: Seq<u8>, spans: Seq<(usize, usize)>, j: int)
    requires
        spans_ok(c, spans),
        0 <= j < spans.len(),
    ensures
        j <= spans[j].0,
    decreases j,
{
    if j > 0 {
        lemma_span_start_at_least_index(c, spans, j - 1);
        assert(spans[j - 1].0 + spans[j - 1].1 + 1 <= spans[j].0);
    }
}

/// Line `j` of `content` (given its spans) as a `&str`.
fn span_str<'a>(content: &'a str, spans: &Vec<(usize, usize)>, j: usize) -> (line: &'a str)
    requires
        j < spans@.len(),
        spans_ok(encode_utf8(content@), spans@),
    ensures
        encode_utf8(line@) == span_texts(encode_utf8(content@), spans@)[j as int],
{
    let ghost c = encode_utf8(content@);
    let (start, len) = spans[j];
    proof {
        vstd::utf8::encode_utf8_valid_utf8(content@);
        vstd::utf8::is_char_boundary_start_end_of_seq(c);
        if start > 0 {
            vstd::utf8::is_char_boundary_iff_not_is_continuation_byte(c, start - 1);
            if start < c.len() {
                lemma_boundary_after_ascii(c, start - 1);
            }
        }
    }
    let (_, rest) = content.split_at(start);
    proof {
        let r = c.subrange(start as int, c.len() as int);
        vstd::utf8::valid_utf8_split(c, start as int);
        assert(rest.spec_bytes() == r);
        vstd::utf8::is_char_boundary_start_end_of_seq(r);
        if len < r.len() {
            assert(r[len as int] == c[start + len]);
            vstd::utf8::is_char_boundary_iff_not_is_continuation_byte(r, len as int);
        }
    }
    let (line, _) = rest.split_at(len);
    proof {
        assert(line.spec_bytes() =~= c.subrange(start as int, start + len));
    }
    line
}

/// Locates the first line holding `keyword` with `context_lines` lines
/// around it (see `spec_locate_by_keyword`).
pub fn locate_by_keyword(
    content: &str,
    keyword: &str,
    context_lines: usize,
    case_insensitive: bool,
    whole_word: bool,
) -> (r: Result<(usize, usize), LocateError>)
    requires
        encode_utf8(content@).len() + context_lines < usize::MAX,
    ensures
        r == spec_locate_by_keyword(
            encode_utf8(content@),
            keyword@,
            context_lines,
            case_insensitive,
            whole_word,
        ),
{
    let ghost c = encode_utf8(content@);
    let spans = split_lines(content.as_bytes());
    let ghost lines = span_texts(c, spans@);
    let n = spans.len();
    let mut i: usize = 0;
    while i < n
        invariant
            n == spans@.len() == lines.len(),
            lines == span_texts(c, spans@),
            lines == text_lines(c),
            spans_ok(c, spans@),
            c == encode_utf8(content@),
            c.len() + context_lines < usize::MAX,
            i <= n,
            first_keyword_line(lines, keyword@, case_insensitive, whole_word, i as int)
                == first_keyword_line(lines, keyword@, case_insensitive, whole_word, 0),
        decreases n - i,
    {
        let line = span_str(content, &spans, i);
        proof {
            vstd::utf8::encode_utf8_decode_utf8(line@);
        }
        if line_matches_keyword(line, keyword, case_insensitive, whole_word) {
            proof {
                lemma_span_start_at_least_index(c, spans@, i as int);
            }
            let s = if i >= context_lines {
                i - context_lines
            } else {
                0
            };
            let e = if i + context_lines + 1 <= n {
                i + context_lines + 1
            } else {
                n
            };
            let start_pos = span_offset(&spans, s, Ghost(c));
            let end_pos = span_offset(&spans, e, Ghost(c));
            return Ok((start_pos, end_pos));
        }
        i = i + 1;
    }
    Err(LocateError::KeywordNotFound)
}

/// Where an insertion goes relative to the located range.
#[derive(Clone, Copy, Debug, PartialEq, Eq, Structural)]
pub enum InsertPosition {
    Before,
    After,
}

/// An edit of a located byte range.
pub enum EditOperation {
    /// Replace the range by `new_content`.
    Replace { new_content: String },
    /// Insert `content` before or after the range.
    Insert { content: String, position: InsertPosition },
    /// Remove the range.
    Delete,
    /// Rename an identifier; applied across the workspace, not to a range.
    Rename { from: String, to: String },
}

/// Why an edit could not be applied to a range.
#[derive(Clone, Copy, Debug, PartialEq, Eq, Structural)]
pub enum EditError {
    /// Renames are not range edits.
    RenameNotRangeEdit,
}

/// The text (as bytes) after applying `op` to the range `s..e` of `c`.
pub open spec fn spec_apply_edit(c: Seq<u8>, s: int, e: int, op: EditOperation) -> Result<
    Seq<u8>,
    EditError,
> {
    match op {
        EditOperation::Replace { new_content } => Ok(
            c.subrange(0, s) + encode_utf8(new_content@) + c.subrange(e, c.len() as int),
        ),
        EditOperation::Insert { content, position } => match position {
            InsertPosition::Before => Ok(
                c.subrange(0, s) + encode_utf8(content@) + c.subrange(s, c.len() as int),
            ),
            InsertPosition::After => Ok(
                c.subrange(0, e) + encode_utf8(content@) + c.subrange(e, c.len() as int),
            ),
        },
        EditOperation::Delete => Ok(c.subrange(0, s) + c.subrange(e, c.len() as int)),
        EditOperation::Rename { .. } => Err(EditError::RenameNotRangeEdit),
    }
}

/// `a`, then `mid`, then `b`, as one `String`.
fn join3(a: &str, mid: &str, b: &str) -> (r: String)
    ensures
        encode_utf8(r@) == encode_utf8(a@) + encode_utf8(mid@) + encode_utf8(b@),
{
    let r = String::from_str(a).concat(mid).concat(b);
    proof {
        lemma_encode_utf8_concat(a@, mid@);
        lemma_encode_utf8_concat(a@ + mid@, b@);
    }
    r
}

/// Applies an edit to the byte range `start_pos..end_pos` of `content`
/// (both char boundaries; see `spec_apply_edit`).  Renames are refused.
pub fn apply_edit_operation(
    content: &str,
    start_pos: usize,
    end_pos: usize,
    operation: &EditOperation,
) -> (r: Result<String, EditError>)
    requires
        vstd::utf8::is_char_boundary(encode_utf8(content@), start_pos as int),
        vstd::utf8::is_char_boundary(encode_utf8(content@), end_pos as int),
    ensures
        match (r, spec_apply_edit(encode_utf8(content@), start_pos as int, end_pos as int, *operation)) {
            (Ok(t), Ok(b)) => encode_utf8(t@) == b,
            (Err(x), Err(y)) => x == y,
            _ => false,
        },
{
    let ghost c = encode_utf8(content@);
    proof {
        vstd::utf8::encode_utf8_valid_utf8(content@);
    }
    let (before_start, from_start) = content.split_at(start_pos);
    let (before_end, from_end) = content.split_at(end_pos);
    let ghost s = start_pos as int;
    let ghost e = end_pos as int;
    let ghost n = c.len() as int;
    match operation {
        EditOperation::Replace { new_content } => {
            let t = join3(before_start, new_content.as_str(), from_end);
            proof {
                assert(encode_utf8(t@) =~= c.subrange(0, s) + encode_utf8(new_content@)
                    + c.subrange(e, n));
            }
            Ok(t)
        },
        EditOperation::Insert { content: inserted, position } => match position {
            InsertPosition::Before => {
                let t = join3(before_start, inserted.as_str(), from_start);
                proof {
                    assert(encode_utf8(t@) =~= c.subrange(0, s) + encode_utf8(inserted@)
                        + c.subrange(s, n));
                }
                Ok(t)
            },
            InsertPosition::After => {
                let t = join3(before_end, inserted.as_str(), from_end);
                proof {
                    assert(encode_utf8(t@) =~= c.subrange(0, e) + encode_utf8(inserted@)
                        + c.subrange(e, n));
                }
                Ok(t)
            },
        },
        EditOperation::Delete => {
            let t = join3(before_start, "", from_end);
            proof {
                reveal_strlit("");
                assert(encode_utf8(""@) =~= Seq::<u8>::empty());
                assert(encode_utf8(t@) =~= c.subrange(0, s) + c.subrange(e, n));
            }
            Ok(t)
        },
        EditOperation::Rename { .. } => Err(EditError::RenameNotRangeEdit),
    }
}

/// The notice appended to text cut by `truncate_chars`.
pub open spec fn truncation_notice() -> Seq<char> {
    "\n…（输出过长已截断）"@
}

/// Keeps at most `max` chars of `s`; longer text is cut to its first `max`
/// chars followed by a notice that it was cut.
pub fn truncate_chars(s: &str, max: usize) -> (r: String)
    ensures
        r@ == (if s@.len() <= max {
            s@
        } else {
            s@.subrange(0, max as int) + truncation_notice()
        }),
{
    let n = s.unicode_len();
    if n <= max {
        String::from_str(s)
    } else {
        String::from_str(s.substring_char(0, max)).concat("\n…（输出过长已截断）")
    }
}

/// `s` without trailing white space (`str::trim_end`).
pub open spec fn trim_end_chars(s: Seq<char>) -> Seq<char> {
    s.subrange(0, trim_end_index(s, s.len() as int))
}

/// The lines of `text` (`str::lines`), as chars.
pub open spec fn text_char_lines(text: Seq<char>) -> Seq<Seq<char>> {
    text_lines(encode_utf8(text)).map_values(|l: Seq<u8>| vstd::utf8::decode_utf8(l))
}

/// The path a file-block header line names: the trimmed rest of the line
/// after `prefix`, when the line (without trailing white space) starts with it.
pub open spec fn header_path(line: Seq<char>, prefix: Seq<char>) -> Option<Seq<char>> {
    let t = trim_end_chars(line);
    if t.len() >= prefix.len() && t.subrange(0, prefix.len() as int) == prefix {
        Some(trim_chars(t.subrange(prefix.len() as int, t.len() as int)))
    } else {
        None
    }
}

/// Index of the first line from `i` on that is a header for `target`.
pub open spec fn first_header_line(
    ls: Seq<Seq<char>>,
    prefix: Seq<char>,
    target: Seq<char>,
    i: int,
) -> Option<int>
    decreases ls.len() - i,
{
    if i < 0 || i >= ls.len() {
        None
    } else if header_path(ls[i], prefix) == Some(target) {
        Some(i)
    } else {
        first_header_line(ls, prefix, target, i + 1)
    }
}

/// Index of the first line from `i` on that reads `marker` (trailing white
/// space aside).
pub open spec fn first_marker_line(ls: Seq<Seq<char>>, marker: Seq<char>, i: int) -> Option<int>
    decreases ls.len() - i,
{
    if i < 0 || i >= ls.len() {
        None
    } else if trim_end_chars(ls[i]) == marker {
        Some(i)
    } else {
        first_marker_line(ls, marker, i + 1)
    }
}

/// `ls` joined with line feeds.
pub open spec fn join_lines(ls: Seq<Seq<char>>) -> Seq<char>
    decreases ls.len(),
{
    if ls.len() == 0 {
        Seq::empty()
    } else if ls.len() == 1 {
        ls[0]
    } else {
        join_lines(ls.drop_last()) + seq!['\n'] + ls.last()
    }
}

/// The content of the file block for `target` in the assistant's output
/// `text`: the lines after the block's separator line up to its footer
/// line (or the end), joined with line feeds.  `None` when there is no
/// header for `target` or no separator after it.
pub open spec fn extracted_file_content(
    text: Seq<char>,
    target: Seq<char>,
    prefix: Seq<char>,
    separator: Seq<char>,
    footer: Seq<char>,
) -> Option<Seq<char>> {
    let ls = text_char_lines(text);
    match first_header_line(ls, prefix, target, 0) {
        None => None,
        Some(h) => match first_marker_line(ls, separator, h + 1) {
            None => None,
            Some(j) => {
                let e = match first_marker_line(ls, footer, j + 1) {
                    Some(f) => f,
                    None => ls.len() as int,
                };
                Some(join_lines(ls.subrange(j + 1, e)))
            },
        },
    }
}

proof fn lemma_trim_end_bound(s: Seq<char>, j: int)
    requires
        0 <= j <= s.len(),
    ensures
        0 <= trim_end_index(s, j) <= j,
    decreases j,
{
    if j > 0 && crate::chars::unicode_white_space(s[j - 1]) {
        lemma_trim_end_bound(s, j - 1);
    }
}

/// `cs[a..e]` as a vector.
fn slice_chars(cs: &Vec<char>, a: usize, e: usize) -> (r: Vec<char>)
    requires
        a <= e <= cs@.len(),
    ensures
        r@ == cs@.subrange(a as int, e as int),
{
    let mut out: Vec<char> = Vec::new();
    let mut i = a;
    while i < e
        invariant
            a <= i <= e <= cs@.len(),
            out@ == cs@.subrange(a as int, i as int),
        decreases e - i,
    {
        out.push(cs[i]);
        proof {
            assert(out@ =~= cs@.subrange(a as int, i + 1));
        }
        i = i + 1;
    }
    out
}

/// End of `cs` once its trailing white space is removed.
fn trim_end_len(cs: &Vec<char>) -> (r: usize)
    ensures
        r == trim_end_index(cs@, cs@.len() as int),
        r <= cs@.len(),
{
    let mut e = cs.len();
    while e > 0
        invariant
            e <= cs@.len(),
            trim_end_index(cs@, e as int) == trim_end_index(cs@, cs@.len() as int),
        decreases e,
    {
        if !char_is_whitespace(cs[e - 1]) {
            return e;
        }
        e = e - 1;
    }
    0
}

/// `cs` without leading and trailing white space.
fn trim_vec(cs: &Vec<char>) -> (r: Vec<char>)
    ensures
        r@ == trim_chars(cs@),
{
    let n = cs.len();
    let mut a: usize = 0;
    while a < n
        invariant
            a <= n == cs@.len(),
            trim_start_index(cs@, a as int) == trim_start_index(cs@, 0),
        ensures
            a <= n,
            a == n || !crate::chars::unicode_white_space(cs@[a as int]),
            trim_start_index(cs@, a as int) == trim_start_index(cs@, 0),
        decreases n - a,
    {
        if !char_is_whitespace(cs[a]) {
            break;
        }
        a = a + 1;
    }
    let e = trim_end_len(cs);
    proof {
        lemma_trim_end_bound(cs@, n as int);
    }
    if e <= a {
        Vec::new()
    } else {
        slice_chars(cs, a, e)
    }
}

/// `a` and `b` hold the same chars.
fn chars_equal(a: &Vec<char>, b: &Vec<char>) -> (r: bool)
    ensures
        r == (a@ == b@),
{
    if a.len() != b.len() {
        return false;
    }
    let mut i: usize = 0;
    while i < a.len()
        invariant
            a@.len() == b@.len(),
            i <= a@.len(),
            forall|k: int| 0 <= k < i ==> a@[k] == b@[k],
        decreases a@.len() - i,
    {
        if a[i] != b[i] {
            return false;
        }
        i = i + 1;
    }
    proof {
        assert(a@ =~= b@);
    }
    true
}

/// The path the header line `line` names, if it is a header.
fn header_path_of(line: &str, prefix: &Vec<char>) -> (r: Option<Vec<char>>)
    ensures
        match r {
            Some(p) => header_path(line@, prefix@) == Some(p@),
            None => header_path(line@, prefix@).is_none(),
        },
{
    let cs = chars_of(line);
    let e = trim_end_len(&cs);
    let t = slice_chars(&cs, 0, e);
    if t.len() < prefix.len() {
        return None;
    }
    let head = slice_chars(&t, 0, prefix.len());
    if !chars_equal(&head, prefix) {
        return None;
    }
    let rest = slice_chars(&t, prefix.len(), t.len());
    Some(trim_vec(&rest))
}

/// Whether line `line` reads `marker`, trailing white space aside.
fn is_marker_line(line: &str, marker: &Vec<char>) -> (r: bool)
    ensures
        r == (trim_end_chars(line@) == marker@),
{
    let cs = chars_of(line);
    let e = trim_end_len(&cs);
    let t = slice_chars(&cs, 0, e);
    chars_equal(&t, marker)
}

/// The spans of `text` are its lines.
pub open spec fn spans_are_lines(text: &str, spans: Seq<(usize, usize)>) -> bool {
    &&& spans_ok(encode_utf8(text@), spans)
    &&& span_texts(encode_utf8(text@), spans) == text_lines(encode_utf8(text@))
}

/// Line `k` of `text` as a `&str`, with its chars.
fn line_at<'a>(text: &'a str, spans: &Vec<(usize, usize)>, k: usize) -> (line: &'a str)
    requires
        k < spans@.len(),
        spans_are_lines(text, spans@),
    ensures
        line@ == text_char_lines(text@)[k as int],
{
    let l = span_str(text, spans, k);
    proof {
        vstd::utf8::encode_utf8_decode_utf8(l@);
    }
    l
}

/// The first line from `from` on that reads `marker`.
fn find_marker_line(text: &str, spans: &Vec<(usize, usize)>, from: usize, marker: &Vec<char>) -> (r:
    Option<usize>)
    requires
        spans_are_lines(text, spans@),
    ensures
        match r {
            Some(j) => first_marker_line(text_char_lines(text@), marker@, from as int) == Some(
                j as int,
            ) && j < spans@.len(),
            None => first_marker_line(text_char_lines(text@), marker@, from as int).is_none(),
        },
{
    let ghost ls = text_char_lines(text@);
    let n = spans.len();
    let mut j = from;
    while j < n
        invariant
            n == spans@.len() == ls.len(),
            spans_are_lines(text, spans@),
            ls == text_char_lines(text@),
            from <= j,
            first_marker_line(ls, marker@, j as int) == first_marker_line(ls, marker@, from as int),
        decreases n - j,
    {
        let l = line_at(text, spans, j);
        if is_marker_line(l, marker) {
            return Some(j);
        }
        j = j + 1;
    }
    None
}

/// The lines from `start` up to the first `footer` line (or the end),
/// joined with line feeds.
fn join_block(text: &str, spans: &Vec<(usize, usize)>, start: usize, footer: &Vec<char>) -> (r:
    String)
    requires
        spans_are_lines(text, spans@),
        start <= spans@.len(),
    ensures
        ({
            let ls = text_char_lines(text@);
            let e = match first_marker_line(ls, footer@, start as int) {
                Some(f) => f,
                None => ls.len() as int,
            };
            r@ == join_lines(ls.subrange(start as int, e))
        }),
{
    let ghost ls = text_char_lines(text@);
    let n = spans.len();
    let mut k = start;
    let mut out = String::new();
    proof {
        assert(ls.subrange(start as int, start as int) =~= Seq::<Seq<char>>::empty());
    }
    while k < n
        invariant
            n == spans@.len() == ls.len(),
            spans_are_lines(text, spans@),
            ls == text_char_lines(text@),
            start <= k <= n,
            out@ == join_lines(ls.subrange(start as int, k as int)),
            first_marker_line(ls, footer@, k as int) == first_marker_line(
                ls,
                footer@,
                start as int,
            ),
        ensures
            start <= k <= n,
            out@ == join_lines(ls.subrange(start as int, k as int)),
            k == (match first_marker_line(ls, footer@, start as int) {
                Some(f) => f,
                None => ls.len() as int,
            }),
        decreases n - k,
    {
        let l = line_at(text, spans, k);
        if is_marker_line(l, footer) {
            break;
        }
        if k > start {
            out.append("\n");
        }
        out.append(l);
        proof {
            reveal_strlit("\n");
            let sub = ls.subrange(start as int, k + 1);
            assert(sub.drop_last() =~= ls.subrange(start as int, k as int));
            assert(sub.last() == l@);
            if k == start {
                assert(sub =~= seq![l@]);
            }
            assert(out@ =~= join_lines(sub));
        }
        k = k + 1;
    }
    out
}

/// Extracts the content of the file block for `target_path` from the
/// assistant's output `text` (see `extracted_file_content`); a block starts
/// with a line `header_prefix` + path, then a `separator` line, then the
/// content, up to a `footer` line.
#[verifier::spinoff_prover]
#[verifier::rlimit(50)]
pub fn extract_file_content_from_output(
    text: &str,
    target_path: &str,
    header_prefix: &str,
    separator: &str,
    footer: &str,
) -> (r: Option<String>)
    ensures
        match r {
            Some(c) => extracted_file_content(
                text@,
                target_path@,
                header_prefix@,
                separator@,
                footer@,
            ) == Some(c@),
            None => extracted_file_content(
                text@,
                target_path@,
                header_prefix@,
                separator@,
                footer@,
            ).is_none(),
        },
{
    let spans = split_lines(text.as_bytes());
    let prefix = chars_of(header_prefix);
    let target = chars_of(target_path);
    let sep = chars_of(separator);
    let foot = chars_of(footer);
    match find_header_line(text, &spans, &prefix, &target) {
        None => None,
        Some(h) => match find_marker_line(text, &spans, h + 1, &sep) {
            None => None,
            Some(j) => Some(join_block(text, &spans, j + 1, &foot)),
        },
    }
}

/// The first header line for `target`.
fn find_header_line(
    text: &str,
    spans: &Vec<(usize, usize)>,
    prefix: &Vec<char>,
    target: &Vec<char>,
) -> (r: Option<usize>)
    requires
        spans_are_lines(text, spans@),
    ensures
        match r {
            Some(h) => first_header_line(text_char_lines(text@), prefix@, target@, 0) == Some(
                h as int,
            ) && h < spans@.len(),
            None => first_header_line(text_char_lines(text@), prefix@, target@, 0).is_none(),
        },
{
    let ghost ls = text_char_lines(text@);
    let n = spans.len();
    let mut i: usize = 0;
    while i < n
        invariant
            n == spans@.len() == ls.len(),
            spans_are_lines(text, spans@),
            ls == text_char_lines(text@),
            i <= n,
            first_header_line(ls, prefix@, target@, i as int) == first_header_line(
                ls,
                prefix@,
                target@,
                0,
            ),
        decreases n - i,
    {
        let line = line_at(text, spans, i);
        let is_target = match header_path_of(line, prefix) {
            Some(p) => chars_equal(&p, target),
            None => false,
        };
        if is_target {
            return Some(i);
        }
        i = i + 1;
    }
    None
}

} // verus!
