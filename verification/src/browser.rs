//! The embedded browser tab: what the address bar makes of typed input, and
//! which browser instance the window is showing.
use vstd::prelude::*;
use vstd::string::StringExecFns;
use vstd::utf8::encode_utf8;

use crate::chars::{
    ascii_chars, char_is_whitespace, lemma_ascii_chars, lemma_encode_utf8_concat,
    lemma_encode_utf8_empty, string_from_utf8, unicode_white_space,
};
use crate::search::{find_bytes, first_match};
use crate::state::{EditorState, Tab};

verus! {

/// Index of the first character at or after `i` that is not white space.
pub open spec fn trim_start_index(s: Seq<char>, i: int) -> int
    decreases s.len() - i,
{
    if i < 0 || i >= s.len() || !unicode_white_space(s[i]) {
        i
    } else {
        trim_start_index(s, i + 1)
    }
}

/// End of `s[0..j]` once its trailing white space is removed.
pub open spec fn trim_end_index(s: Seq<char>, j: int) -> int
    decreases j,
{
    if j <= 0 || j > s.len() || !unicode_white_space(s[j - 1]) {
        j
    } else {
        trim_end_index(s, j - 1)
    }
}

/// `s` without leading and trailing white space (`str::trim`).
pub open spec fn trim_chars(s: Seq<char>) -> Seq<char> {
    let a = trim_start_index(s, 0);
    let e = trim_end_index(s, s.len() as int);
    if e <= a {
        Seq::empty()
    } else {
        s.subrange(a, e)
    }
}

/// `needle` occurs in `hay`.
pub open spec fn contains_bytes(hay: Seq<u8>, needle: Seq<u8>) -> bool {
    first_match(hay, needle).is_some()
}

/// The bytes of `://`.
pub open spec fn scheme_separator() -> Seq<u8> {
    seq![0x3au8, 0x2fu8, 0x2fu8]
}

/// The bytes of `localhost`.
pub open spec fn localhost_bytes() -> Seq<u8> {
    seq![0x6cu8, 0x6fu8, 0x63u8, 0x61u8, 0x6cu8, 0x68u8, 0x6fu8, 0x73u8, 0x74u8]
}

/// Input that reads as a host name: no space, and a dot or a `localhost` start.
pub open spec fn looks_like_domain(b: Seq<u8>) -> bool {
    !contains_bytes(b, seq![0x20u8]) && (contains_bytes(b, seq![0x2eu8]) || (b.len()
        >= localhost_bytes().len() && b.subrange(0, localhost_bytes().len() as int)
        == localhost_bytes()))
}

/// RFC 3986 unreserved bytes: ASCII letters, digits and `-_.~`.
pub open spec fn is_unreserved(b: u8) -> bool {
    (0x41 <= b <= 0x5a) || (0x61 <= b <= 0x7a) || (0x30 <= b <= 0x39) || b == 0x2d || b == 0x5f
        || b == 0x2e || b == 0x7e
}

/// Upper-case hexadecimal digit of `d` (0..16).
pub open spec fn hex_digit(d: int) -> u8 {
    if d < 10 {
        (0x30 + d) as u8
    } else {
        (0x41 + d - 10) as u8
    }
}

/// Percent-encoding of one byte.
pub open spec fn percent_byte(b: u8) -> Seq<u8> {
    if is_unreserved(b) {
        seq![b]
    } else {
        seq![0x25u8, hex_digit((b / 16) as int), hex_digit((b % 16) as int)]
    }
}

/// Percent-encoding of `b`: unreserved bytes stay, every other byte becomes
/// `%` and two upper-case hex digits.
pub open spec fn percent_bytes(b: Seq<u8>) -> Seq<u8>
    decreases b.len(),
{
    if b.len() == 0 {
        Seq::empty()
    } else {
        percent_bytes(b.drop_last()) + percent_byte(b.last())
    }
}

/// The URL the address bar navigates to for the typed `input`: the home
/// page for blank input, the input itself when it names a scheme, `https://`
/// before what looks like a host name, and a web search otherwise.
pub open spec fn normalized_url(input: Seq<char>) -> Seq<char> {
    let t = trim_chars(input);
    let b = encode_utf8(t);
    if t.len() == 0 {
        "https://www.bing.com"@
    } else if contains_bytes(b, scheme_separator()) {
        t
    } else if looks_like_domain(b) {
        "https://"@ + t
    } else {
        "https://www.bing.com/search?q="@ + ascii_chars(percent_bytes(b))
    }
}

proof fn lemma_trim_end_index(s: Seq<char>, j: int)
    requires
        0 <= j <= s.len(),
    ensures
        0 <= trim_end_index(s, j) <= j,
    decreases j,
{
    if j > 0 && unicode_white_space(s[j - 1]) {
        lemma_trim_end_index(s, j - 1);
    }
}

/// `str::trim`, by characters.
pub(crate) fn trim_str(s: &str) -> (r: &str)
    ensures
        r@ == trim_chars(s@),
{
    let n = s.unicode_len();
    let mut a: usize = 0;
    while a < n
        invariant
            a <= n == s@.len(),
            trim_start_index(s@, a as int) == trim_start_index(s@, 0),
        ensures
            a <= n,
            a == n || !unicode_white_space(s@[a as int]),
            trim_start_index(s@, a as int) == trim_start_index(s@, 0),
        decreases n - a,
    {
        if !char_is_whitespace(s.get_char(a)) {
            break;
        }
        a = a + 1;
    }
    let mut e: usize = n;
    while e > a
        invariant
            a <= e <= n == s@.len(),
            trim_end_index(s@, e as int) == trim_end_index(s@, n as int),
        ensures
            a <= e <= n,
            e == a || !unicode_white_space(s@[e - 1]),
            trim_end_index(s@, e as int) == trim_end_index(s@, n as int),
        decreases e,
    {
        if !char_is_whitespace(s.get_char(e - 1)) {
            break;
        }
        e = e - 1;
    }
    proof {
        lemma_trim_end_index(s@, a as int);
    }
    s.substring_char(a, e)
}

/// Hexadecimal digit for `d` < 16.
fn hex_digit_byte(d: u8) -> (r: u8)
    requires
        d < 16,
    ensures
        r == hex_digit(d as int),
{
    if d < 10 {
        0x30 + d
    } else {
        0x41 + (d - 10)
    }
}

/// Percent-encoding output is ASCII.
proof fn lemma_percent_bytes_ascii(b: Seq<u8>)
    ensures
        forall|i: int| 0 <= i < percent_bytes(b).len() ==> #[trigger] percent_bytes(b)[i] < 0x80,
    decreases b.len(),
{
    if b.len() > 0 {
        lemma_percent_bytes_ascii(b.drop_last());
        let p = percent_bytes(b.drop_last());
        let q = percent_byte(b.last());
        assert(percent_bytes(b) == p + q);
        assert forall|i: int| 0 <= i < (p + q).len() implies #[trigger] (p + q)[i] < 0x80 by {
            if i >= p.len() {
                assert(q[i - p.len()] < 0x80);
            }
        }
    }
}

/// Percent-encodes the bytes of `s` (see `percent_bytes`).
pub fn percent_encode(s: &str) -> (r: String)
    ensures
        r@ == ascii_chars(percent_bytes(encode_utf8(s@))),
{
    let b = s.as_bytes();
    let mut out: Vec<u8> = Vec::new();
    let mut i: usize = 0;
    while i < b.len()
        invariant
            i <= b@.len(),
            out@ == percent_bytes(b@.subrange(0, i as int)),
        decreases b@.len() - i,
    {
        let x = b[i];
        proof {
            assert(b@.subrange(0, i + 1).drop_last() =~= b@.subrange(0, i as int));
        }
        if (0x41 <= x && x <= 0x5a) || (0x61 <= x && x <= 0x7a) || (0x30 <= x && x <= 0x39)
            || x == 0x2d || x == 0x5f || x == 0x2e || x == 0x7e {
            out.push(x);
        } else {
            out.push(0x25);
            out.push(hex_digit_byte(x / 16));
            out.push(hex_digit_byte(x % 16));
        }
        proof {
            assert(out@ =~= percent_bytes(b@.subrange(0, i + 1)));
        }
        i = i + 1;
    }
    proof {
        assert(b@.subrange(0, b@.len() as int) =~= b@);
        lemma_percent_bytes_ascii(b@);
        lemma_ascii_chars(out@);
    }
    let r = string_from_utf8(out);
    proof {
        vstd::utf8::encode_utf8_decode_utf8(r@);
        vstd::utf8::encode_utf8_decode_utf8(ascii_chars(percent_bytes(b@)));
    }
    r
}

/// Turns address-bar input into a URL: blank input gives the home page,
/// input with a scheme (`://`) is kept, input that looks like a host name
/// (no space, and a dot or a `localhost` start) gets `https://`, and
/// anything else becomes a web search for the percent-encoded input.
/// Leading and trailing white space is ignored throughout.
pub fn normalize_url(input: &str) -> (r: String)
    ensures
        r@ == normalized_url(input@),
{
    let t = trim_str(input);
    if t.is_empty() {
        return String::from_str("https://www.bing.com");
    }
    let b = t.as_bytes();
    let sep: Vec<u8> = vec![0x3au8, 0x2fu8, 0x2fu8];
    proof {
        assert(sep@ =~= scheme_separator());
    }
    if find_bytes(b, sep.as_slice()).is_some() {
        return String::from_str(t);
    }
    let space: Vec<u8> = vec![0x20u8];
    let dot: Vec<u8> = vec![0x2eu8];
    let localhost: Vec<u8> = vec![0x6cu8, 0x6fu8, 0x63u8, 0x61u8, 0x6cu8, 0x68u8, 0x6fu8, 0x73u8, 0x74u8];
    proof {
        assert(space@ =~= seq![0x20u8]);
        assert(dot@ =~= seq![0x2eu8]);
        assert(localhost@ =~= localhost_bytes());
    }
    let has_space = find_bytes(b, space.as_slice()).is_some();
    let has_dot = find_bytes(b, dot.as_slice()).is_some();
    let mut starts_localhost = b.len() >= localhost.len();
    let mut k: usize = 0;
    while k < localhost.len() && starts_localhost
        invariant
            localhost@ == localhost_bytes(),
            k <= localhost@.len(),
            starts_localhost ==> b@.len() >= localhost@.len() && b@.subrange(0, k as int)
                =~= localhost@.subrange(0, k as int),
            !starts_localhost ==> !(b@.len() >= localhost@.len() && b@.subrange(
                0,
                localhost@.len() as int,
            ) == localhost@),
        decreases localhost@.len() - k,
    {
        if b[k] != localhost[k] {
            starts_localhost = false;
            proof {
                assert(b@.subrange(0, localhost@.len() as int)[k as int] != localhost@[k as int]);
            }
        }
        k = k + 1;
    }
    proof {
        if starts_localhost {
            assert(b@.subrange(0, localhost@.len() as int) =~= localhost@);
        }
    }
    if !has_space && (has_dot || starts_localhost) {
        String::from_str("https://").concat(t)
    } else {
        let enc = percent_encode(t);
        String::from_str("https://www.bing.com/search?q=").concat(enc.as_str())
    }
}

/// The browser instance the window shows: the active tab's, when it is a
/// browser tab and, in agent mode, the right panel is open.
pub open spec fn spec_active_browser_id(s: EditorState) -> Option<usize> {
    if s.agent_mode && !s.right_panel_visible {
        None
    } else if s.tab_bar.active_tab < s.tab_bar.tabs@.len() {
        match s.tab_bar.tabs@[s.tab_bar.active_tab as int] {
            Tab::Browser(id) => Some(id),
            _ => None,
        }
    } else {
        None
    }
}

impl EditorState {
    /// Id of the browser instance on show (see `spec_active_browser_id`).
    pub fn active_browser_id(&self) -> (r: Option<usize>)
        ensures
            r == spec_active_browser_id(*self),
    {
        if self.agent_mode && !self.right_panel_visible {
            return None;
        }
        let active = self.tab_bar.active_tab;
        if active < self.tab_bar.tabs.len() {
            match &self.tab_bar.tabs[active] {
                Tab::Browser(id) => Some(*id),
                _ => None,
            }
        } else {
            None
        }
    }
}

/// Percent-encoding leaves only URL-safe bytes: unreserved ones, `%`, and
/// upper-case hexadecimal digits.
pub proof fn law_percent_encoding_is_url_safe(b: Seq<u8>)
    ensures
        forall|i: int|
            0 <= i < percent_bytes(b).len() ==> {
                let x = #[trigger] percent_bytes(b)[i];
                is_unreserved(x) || x == 0x25 || (0x30 <= x <= 0x39) || (0x41 <= x <= 0x46)
            },
    decreases b.len(),
{
    if b.len() > 0 {
        law_percent_encoding_is_url_safe(b.drop_last());
        let p = percent_bytes(b.drop_last());
        let q = percent_byte(b.last());
        assert(percent_bytes(b) == p + q);
        assert forall|i: int| 0 <= i < (p + q).len() implies {
            let x = #[trigger] (p + q)[i];
            is_unreserved(x) || x == 0x25 || (0x30 <= x <= 0x39) || (0x41 <= x <= 0x46)
        } by {
            if i >= p.len() {
                let x = q[i - p.len()];
                assert(x == (p + q)[i]);
            }
        }
    }
}

/// `trim_start_index` stops at `i` or later, on a char that is not white
/// space or at the end.
proof fn lemma_trim_start_stops(s: Seq<char>, i: int)
    requires
        0 <= i,
    ensures
        i <= trim_start_index(s, i),
        trim_start_index(s, i) >= s.len() || !unicode_white_space(s[trim_start_index(s, i)]),
    decreases s.len() - i,
{
    if i < s.len() && unicode_white_space(s[i]) {
        lemma_trim_start_stops(s, i + 1);
    }
}

/// `trim_end_index` stops after a char that is not white space, or at 0.
proof fn lemma_trim_end_stops(s: Seq<char>, j: int)
    requires
        0 <= j <= s.len(),
    ensures
        trim_end_index(s, j) <= 0 || !unicode_white_space(s[trim_end_index(s, j) - 1]),
    decreases j,
{
    if j > 0 && unicode_white_space(s[j - 1]) {
        lemma_trim_end_stops(s, j - 1);
    }
}

/// Trimmed text starts and ends with a char that is not white space.
proof fn lemma_trim_chars_ends(s: Seq<char>)
    ensures
        trim_chars(s).len() > 0 ==> !unicode_white_space(trim_chars(s)[0])
            && !unicode_white_space(trim_chars(s).last()),
{
    lemma_trim_start_stops(s, 0);
    lemma_trim_end_index(s, s.len() as int);
    lemma_trim_end_stops(s, s.len() as int);
}

/// Text that starts and ends with a char that is not white space is its own trim.
proof fn lemma_trim_chars_fixed(s: Seq<char>)
    requires
        s.len() > 0,
        !unicode_white_space(s[0]),
        !unicode_white_space(s.last()),
    ensures
        trim_chars(s) == s,
{
    assert(trim_start_index(s, 0) == 0);
    assert(trim_end_index(s, s.len() as int) == s.len());
    assert(s.subrange(0, s.len() as int) =~= s);
}

/// The chars of `https://`.
spec fn https_chars() -> Seq<char> {
    seq!['h', 't', 't', 'p', 's', ':', '/', '/']
}

/// Text that starts with `https://` names a scheme.
proof fn lemma_https_names_scheme(rest: Seq<char>)
    ensures
        contains_bytes(encode_utf8(https_chars() + rest), scheme_separator()),
{
    let h = https_chars();
    assert(vstd::utf8::is_ascii_chars(h)) by {
        assert forall|i: int| 0 <= i < h.len() implies '\0' <= #[trigger] h[i] <= '\u{7f}' by {}
    }
    vstd::utf8::is_ascii_chars_encode_utf8(h);
    lemma_encode_utf8_concat(h, rest);
    let hay = encode_utf8(h + rest);
    assert(hay.subrange(5, 8) =~= scheme_separator()) by {
        assert(hay[5] == encode_utf8(h)[5] && hay[6] == encode_utf8(h)[6] && hay[7]
            == encode_utf8(h)[7]);
        assert(h[5] as u8 == 0x3a && h[6] as u8 == 0x2f && h[7] as u8 == 0x2f);
    }
    assert(crate::search::matches_at(hay, scheme_separator(), 5));
    crate::search::lemma_first_match_from(hay, scheme_separator(), 0);
}

/// A URL that names a scheme and has no white space at its ends is kept.
proof fn lemma_normalized_keeps(u: Seq<char>)
    requires
        u.len() > 0,
        !unicode_white_space(u[0]),
        !unicode_white_space(u.last()),
        contains_bytes(encode_utf8(u), scheme_separator()),
    ensures
        normalized_url(u) == u,
{
    lemma_trim_chars_fixed(u);
}

/// The last byte of a non-empty percent-encoding is unreserved or a hex digit.
proof fn lemma_percent_bytes_last(b: Seq<u8>)
    requires
        b.len() > 0,
    ensures
        percent_bytes(b).len() > 0,
        is_unreserved(percent_bytes(b).last()) || (0x30 <= percent_bytes(b).last() <= 0x39) || (
        0x41 <= percent_bytes(b).last() <= 0x46),
{
    let p = percent_bytes(b.drop_last());
    let q = percent_byte(b.last());
    assert(percent_bytes(b) == p + q);
    assert((p + q).last() == q.last());
}

/// Normalizing a URL the address bar made gives it back: the address bar's
/// URLs have no white space at their ends and all name a scheme.
pub proof fn law_normalize_url_idempotent(input: Seq<char>)
    ensures
        normalized_url(normalized_url(input)) == normalized_url(input),
{
    let t = trim_chars(input);
    let b = encode_utf8(t);
    let u = normalized_url(input);
    lemma_trim_chars_ends(input);
    if t.len() == 0 {
        reveal_strlit("https://www.bing.com");
        let rest = u.subrange(8, u.len() as int);
        assert(u =~= https_chars() + rest);
        lemma_https_names_scheme(rest);
        lemma_normalized_keeps(u);
    } else if contains_bytes(b, scheme_separator()) {
        lemma_normalized_keeps(u);
    } else if looks_like_domain(b) {
        reveal_strlit("https://");
        assert("https://"@ =~= https_chars());
        lemma_https_names_scheme(t);
        assert(u.last() == t.last());
        lemma_normalized_keeps(u);
    } else {
        reveal_strlit("https://www.bing.com/search?q=");
        let pre = "https://www.bing.com/search?q="@;
        let enc = ascii_chars(percent_bytes(b));
        vstd::utf8::encode_utf8_decode_utf8(t);
        assert(b.len() > 0) by {
            if b.len() == 0 {
                assert(b =~= Seq::<u8>::empty());
                lemma_encode_utf8_empty(t);
            }
        }
        lemma_percent_bytes_last(b);
        let x = percent_bytes(b).last();
        assert(u.last() == x as char);
        assert(!unicode_white_space(x as char));
        let rest = pre.subrange(8, pre.len() as int) + enc;
        assert(u =~= https_chars() + rest);
        lemma_https_names_scheme(rest);
        lemma_normalized_keeps(u);
    }
}

/// One embedded browser tab's page state (the web view itself is the
/// window's, found by `id`).
pub struct BrowserInstance {
    pub id: usize,
    /// Current page URL.
    pub url: String,
    /// Page title.
    pub title: String,
    pub can_go_back: bool,
    pub can_go_forward: bool,
    /// A page is loading.
    pub loading: bool,
    /// The address bar is being edited.
    pub address_editing: bool,
    /// The address bar's text.
    pub address_text: String,
    /// The web view is still to be created once the environment is ready.
    pub pending_create: bool,
    /// The instance's web view exists.
    pub has_view: bool,
}

impl BrowserInstance {
    /// Navigates to the typed `input` (normalized, see `normalize_url`):
    /// the page and address bar show the URL, editing ends and loading starts.
    /// Returns the URL for the web view to load.
    pub fn navigate_input(&mut self, input: &str) -> (url: String)
        ensures
            url@ == normalized_url(input@),
            final(self).url@ == url@,
            final(self).address_text@ == url@,
            !final(self).address_editing,
            final(self).loading,
            final(self).id == old(self).id,
            final(self).title == old(self).title,
            final(self).can_go_back == old(self).can_go_back,
            final(self).can_go_forward == old(self).can_go_forward,
            final(self).pending_create == old(self).pending_create,
            final(self).has_view == old(self).has_view,
    {
        let url = normalize_url(input);
        self.url = url.clone();
        self.address_text = url.clone();
        self.address_editing = false;
        self.loading = true;
        url
    }

    /// Takes the URL the web view reports: an empty one is ignored; the
    /// address bar follows unless it is being edited.
    pub fn apply_source(&mut self, url: String)
        ensures
            url@.len() == 0 ==> *final(self) == *old(self),
            url@.len() > 0 ==> final(self).url@ == url@,
            url@.len() > 0 ==> final(self).address_text@ == (if old(self).address_editing {
                old(self).address_text@
            } else {
                url@
            }),
            final(self).id == old(self).id,
            final(self).title == old(self).title,
            final(self).address_editing == old(self).address_editing,
            final(self).loading == old(self).loading,
            final(self).can_go_back == old(self).can_go_back,
            final(self).can_go_forward == old(self).can_go_forward,
            final(self).pending_create == old(self).pending_create,
            final(self).has_view == old(self).has_view,
    {
        if url.as_str().is_empty() {
            return ;
        }
        if !self.address_editing {
            self.address_text = url.clone();
        }
        self.url = url;
    }
}

/// The embedded browsers of a window.
pub struct BrowserState {
    /// The web view environment is ready.
    pub env_ready: bool,
    /// The environment is being created.
    pub env_creating: bool,
    /// Creating the environment failed (no web view runtime installed).
    pub env_failed: bool,
    /// All browser instances, oldest first.
    pub instances: Vec<BrowserInstance>,
    /// The id the next instance gets.
    pub next_id: usize,
    /// The quick search box of the empty agent view.
    pub empty_search_focused: bool,
    pub empty_search_text: String,
    pub empty_search_composition: Option<String>,
    pub empty_search_caret_visible: bool,
}

/// The ids of `instances`, in order.
pub open spec fn instance_ids(instances: Seq<BrowserInstance>) -> Seq<usize> {
    instances.map_values(|b: BrowserInstance| b.id)
}

/// Some tab of `tabs` shows the browser instance `id`.
pub open spec fn referenced_by(tabs: Seq<Tab>, id: usize) -> bool {
    exists|k: int| 0 <= k < tabs.len() && tabs[k] == Tab::Browser(id)
}

/// The first `n` instances that some tab shows, in order.
pub open spec fn referenced_instances(
    instances: Seq<BrowserInstance>,
    tabs: Seq<Tab>,
    n: int,
) -> Seq<BrowserInstance>
    decreases n,
{
    if n <= 0 {
        Seq::empty()
    } else {
        let p = referenced_instances(instances, tabs, n - 1);
        if referenced_by(tabs, instances[n - 1].id) {
            p.push(instances[n - 1])
        } else {
            p
        }
    }
}

/// Whether some tab of `tabs` shows the browser instance `id`.
fn is_referenced(tabs: &[Tab], id: usize) -> (r: bool)
    ensures
        r == referenced_by(tabs@, id),
{
    let mut k: usize = 0;
    while k < tabs.len()
        invariant
            k <= tabs@.len(),
            forall|j: int| 0 <= j < k ==> tabs@[j] != Tab::Browser(id),
        decreases tabs@.len() - k,
    {
        match &tabs[k] {
            Tab::Browser(b) => {
                if *b == id {
                    return true;
                }
            },
            _ => {},
        }
        k = k + 1;
    }
    false
}

/// What the web views reported, as plain values.
pub enum BrowserEvent {
    /// The environment was created (`true`) or failed.
    EnvironmentReady(bool),
    /// Creating the web view of instance `id` failed.
    ControllerFailed(usize),
    /// Instance `id` finished a navigation; the view's back/forward
    /// availability (`None` where it could not be read) and its current URL
    /// (empty when it could not be read).
    NavigationCompleted { id: usize, can_go_back: Option<bool>, can_go_forward: Option<bool>, source: String },
    /// The page URL of instance `id` changed.
    SourceChanged(usize, String),
    /// The history of instance `id` changed; back/forward availability.
    HistoryChanged { id: usize, can_go_back: Option<bool>, can_go_forward: Option<bool> },
    /// The page title of instance `id` changed.
    TitleChanged(usize, String),
}

/// `b` with back/forward availability taken where it was read.
pub open spec fn with_history(b: BrowserInstance, back: Option<bool>, fwd: Option<bool>) -> BrowserInstance {
    BrowserInstance {
        can_go_back: match back {
            Some(v) => v,
            None => b.can_go_back,
        },
        can_go_forward: match fwd {
            Some(v) => v,
            None => b.can_go_forward,
        },
        ..b
    }
}

/// `b` showing the page `url`; the address bar follows unless it is being edited.
pub open spec fn with_source(b: BrowserInstance, url: String) -> BrowserInstance {
    BrowserInstance {
        url: url,
        address_text: if b.address_editing {
            b.address_text
        } else {
            url
        },
        ..b
    }
}

/// What `ev` makes of the instance it is about.
pub open spec fn instance_after_event(b: BrowserInstance, ev: BrowserEvent) -> BrowserInstance {
    match ev {
        BrowserEvent::ControllerFailed(_) => BrowserInstance { loading: false, ..b },
        BrowserEvent::NavigationCompleted { can_go_back, can_go_forward, source, .. } => {
            let h = with_history(BrowserInstance { loading: false, ..b }, can_go_back, can_go_forward);
            if source@.len() == 0 {
                h
            } else {
                with_source(h, source)
            }
        },
        BrowserEvent::SourceChanged(_, url) => with_source(b, url),
        BrowserEvent::HistoryChanged { can_go_back, can_go_forward, .. } => with_history(
            b,
            can_go_back,
            can_go_forward,
        ),
        BrowserEvent::TitleChanged(_, t) => BrowserInstance { title: t, ..b },
        BrowserEvent::EnvironmentReady(_) => b,
    }
}

/// The instance an event is about.
pub open spec fn event_instance(ev: BrowserEvent) -> Option<usize> {
    match ev {
        BrowserEvent::EnvironmentReady(_) => None,
        BrowserEvent::ControllerFailed(id) => Some(id),
        BrowserEvent::NavigationCompleted { id, .. } => Some(id),
        BrowserEvent::SourceChanged(id, _) => Some(id),
        BrowserEvent::HistoryChanged { id, .. } => Some(id),
        BrowserEvent::TitleChanged(id, _) => Some(id),
    }
}

/// The instance `ev` is about (`ev` is not about the environment).
fn event_id(ev: &BrowserEvent) -> (id: usize)
    requires
        !(*ev is EnvironmentReady),
    ensures
        event_instance(*ev) == Some(id),
{
    match ev {
        BrowserEvent::EnvironmentReady(_) => 0,
        BrowserEvent::ControllerFailed(id) => *id,
        BrowserEvent::NavigationCompleted { id, .. } => *id,
        BrowserEvent::SourceChanged(id, _) => *id,
        BrowserEvent::HistoryChanged { id, .. } => *id,
        BrowserEvent::TitleChanged(id, _) => *id,
    }
}

impl BrowserInstance {
    /// Applies an event about this instance.
    fn take_event(&mut self, ev: BrowserEvent)
        ensures
            *final(self) == instance_after_event(*old(self), ev),
    {
        match ev {
            BrowserEvent::EnvironmentReady(_) => {},
            BrowserEvent::ControllerFailed(_) => {
                self.loading = false;
            },
            BrowserEvent::NavigationCompleted { id: _, can_go_back, can_go_forward, source } => {
                self.loading = false;
                if let Some(v) = can_go_back {
                    self.can_go_back = v;
                }
                if let Some(v) = can_go_forward {
                    self.can_go_forward = v;
                }
                if !source.as_str().is_empty() {
                    if !self.address_editing {
                        self.address_text = source.clone();
                    }
                    self.url = source;
                }
            },
            BrowserEvent::SourceChanged(_, url) => {
                if !self.address_editing {
                    self.address_text = url.clone();
                }
                self.url = url;
            },
            BrowserEvent::HistoryChanged { id: _, can_go_back, can_go_forward } => {
                if let Some(v) = can_go_back {
                    self.can_go_back = v;
                }
                if let Some(v) = can_go_forward {
                    self.can_go_forward = v;
                }
            },
            BrowserEvent::TitleChanged(_, title) => {
                self.title = title;
            },
        }
    }
}

/// The instance waits for its web view to be created.
pub open spec fn waits_for_view(b: BrowserInstance) -> bool {
    b.pending_create && !b.has_view
}

/// The ids of the first `n` instances that wait for their web view, in order.
pub open spec fn waiting_ids(instances: Seq<BrowserInstance>, n: int) -> Seq<usize>
    decreases n,
{
    if n <= 0 {
        Seq::empty()
    } else {
        let p = waiting_ids(instances, n - 1);
        if waits_for_view(instances[n - 1]) {
            p.push(instances[n - 1].id)
        } else {
            p
        }
    }
}

/// `instances` once the waiting ones no longer wait (their web views are
/// being created).
pub open spec fn creates_taken(instances: Seq<BrowserInstance>) -> Seq<BrowserInstance> {
    instances.map_values(
        |b: BrowserInstance|
            if waits_for_view(b) {
                BrowserInstance { pending_create: false, ..b }
            } else {
                b
            },
    )
}

/// The page a new web view loads first: the instance's URL, or the home
/// page when it has none.
pub open spec fn first_page(b: BrowserInstance) -> Seq<char> {
    if b.url@.len() == 0 {
        "https://www.bing.com"@
    } else {
        b.url@
    }
}

impl BrowserState {
    /// Instance ids are distinct and below `next_id`, which is at least 1.
    pub open spec fn wf(&self) -> bool {
        &&& self.next_id >= 1
        &&& forall|i: int|
            0 <= i < self.instances@.len() ==> #[trigger] self.instances@[i].id < self.next_id
        &&& forall|i: int, j: int|
            0 <= i < j < self.instances@.len() ==> #[trigger] self.instances@[i].id
                != #[trigger] self.instances@[j].id
    }

    /// No browser yet; ids start at 1.
    pub fn new() -> (r: Self)
        ensures
            r.wf(),
            r.instances@.len() == 0,
            r.next_id == 1,
            !r.env_ready && !r.env_creating && !r.env_failed,
            !r.empty_search_focused,
            r.empty_search_text@.len() == 0,
            r.empty_search_composition.is_none(),
            !r.empty_search_caret_visible,
    {
        BrowserState {
            env_ready: false,
            env_creating: false,
            env_failed: false,
            instances: Vec::new(),
            next_id: 1,
            empty_search_focused: false,
            empty_search_text: String::new(),
            empty_search_composition: None,
            empty_search_caret_visible: false,
        }
    }

    /// Resets the quick search box (after a search or when focus moves).
    pub fn reset_empty_search(&mut self)
        ensures
            !final(self).empty_search_focused,
            final(self).empty_search_text@.len() == 0,
            final(self).empty_search_composition.is_none(),
            final(self).empty_search_caret_visible == old(self).empty_search_caret_visible,
            final(self).instances == old(self).instances,
            final(self).next_id == old(self).next_id,
            final(self).env_ready == old(self).env_ready,
            final(self).env_creating == old(self).env_creating,
            final(self).env_failed == old(self).env_failed,
    {
        self.empty_search_focused = false;
        self.empty_search_text = String::new();
        self.empty_search_composition = None;
    }

    /// Position of the instance with `id`, if there is one.
    pub fn position(&self, id: usize) -> (r: Option<usize>)
        ensures
            match r {
                Some(i) => i < self.instances@.len() && self.instances@[i as int].id == id
                    && forall|k: int| 0 <= k < i ==> #[trigger] self.instances@[k].id != id,
                None => forall|k: int|
                    0 <= k < self.instances@.len() ==> #[trigger] self.instances@[k].id != id,
            },
    {
        let mut i: usize = 0;
        while i < self.instances.len()
            invariant
                i <= self.instances@.len(),
                forall|k: int| 0 <= k < i ==> #[trigger] self.instances@[k].id != id,
            decreases self.instances@.len() - i,
        {
            if self.instances[i].id == id {
                return Some(i);
            }
            i = i + 1;
        }
        None
    }

    /// The instance with `id`, if there is one.
    pub fn get(&self, id: usize) -> (r: Option<&BrowserInstance>)
        ensures
            match r {
                Some(b) => b.id == id && instance_ids(self.instances@).contains(id) && exists|k: int|
                    0 <= k < self.instances@.len() && self.instances@[k] == *b,
                None => !instance_ids(self.instances@).contains(id),
            },
    {
        match self.position(id) {
            Some(i) => {
                proof {
                    assert(instance_ids(self.instances@)[i as int] == id);
                }
                Some(&self.instances[i])
            },
            None => {
                proof {
                    assert forall|k: int| 0 <= k < instance_ids(self.instances@).len() implies instance_ids(
                        self.instances@,
                    )[k] != id by {
                        assert(self.instances@[k].id != id);
                    }
                }
                None
            },
        }
    }

    /// Adds a browser instance showing `url`, its web view to be created
    /// once the environment is ready, and returns its new id.
    pub fn add_instance(&mut self, url: &str) -> (id: usize)
        requires
            old(self).wf(),
            old(self).next_id < usize::MAX,
        ensures
            final(self).wf(),
            id == old(self).next_id,
            !instance_ids(old(self).instances@).contains(id),
            final(self).next_id == old(self).next_id + 1,
            final(self).instances@.len() == old(self).instances@.len() + 1,
            forall|k: int|
                0 <= k < old(self).instances@.len() ==> final(self).instances@[k] == old(
                    self,
                ).instances@[k],
            ({
                let b = final(self).instances@.last();
                &&& b.id == id
                &&& b.url@ == url@
                &&& b.address_text@ == url@
                &&& b.title@.len() == 0
                &&& !b.can_go_back && !b.can_go_forward
                &&& b.loading
                &&& !b.address_editing
                &&& b.pending_create
                &&& !b.has_view
            }),
    {
        let id = self.next_id;
        self.next_id = self.next_id + 1;
        self.instances.push(
            BrowserInstance {
                id,
                url: String::from_str(url),
                title: String::new(),
                can_go_back: false,
                can_go_forward: false,
                loading: true,
                address_editing: false,
                address_text: String::from_str(url),
                pending_create: true,
                has_view: false,
            },
        );
        proof {
            assert forall|k: int| 0 <= k < instance_ids(old(self).instances@).len() implies instance_ids(
                old(self).instances@,
            )[k] != id by {
                assert(old(self).instances@[k].id < id);
            }
        }
        id
    }

    /// Removes the instance with `id` (its tab was closed); nothing when there is none.
    pub fn remove_instance(&mut self, id: usize)
        requires
            old(self).wf(),
        ensures
            final(self).wf(),
            final(self).next_id == old(self).next_id,
            !instance_ids(final(self).instances@).contains(id),
            instance_ids(old(self).instances@).contains(id) ==> final(self).instances@.len()
                == old(self).instances@.len() - 1,
            !instance_ids(old(self).instances@).contains(id) ==> final(self).instances@ == old(
                self,
            ).instances@,
            forall|b: BrowserInstance|
                #[trigger] final(self).instances@.contains(b) <==> (old(self).instances@.contains(b)
                    && b.id != id),
    {
        match self.position(id) {
            Some(i) => {
                let ghost before = self.instances@;
                let _ = self.instances.remove(i);
                proof {
                    let after = self.instances@;
                    assert(after =~= before.remove(i as int));
                    assert forall|b: BrowserInstance| #[trigger] after.contains(b) <==> (
                    before.contains(b) && b.id != id) by {
                        if after.contains(b) {
                            let k = choose|k: int| 0 <= k < after.len() && after[k] == b;
                            if k < i {
                                assert(before[k] == b);
                            } else {
                                assert(before[k + 1] == b);
                                assert(before[k + 1].id != before[i as int].id);
                            }
                        }
                        if before.contains(b) && b.id != id {
                            let k = choose|k: int| 0 <= k < before.len() && before[k] == b;
                            if k < i {
                                assert(after[k] == b);
                            } else {
                                assert(k != i);
                                assert(after[k - 1] == b);
                            }
                        }
                    }
                    assert forall|k: int| 0 <= k < instance_ids(after).len() implies instance_ids(
                        after,
                    )[k] != id by {
                        if k < i {
                            assert(after[k] == before[k]);
                        } else {
                            assert(after[k] == before[k + 1]);
                            assert(before[k + 1].id != before[i as int].id);
                        }
                    }
                    assert forall|a: int, c: int| 0 <= a < c < after.len() implies #[trigger] after[a].id
                        != #[trigger] after[c].id by {
                        let a2 = if a < i { a } else { a + 1 };
                        let c2 = if c < i { c } else { c + 1 };
                        assert(after[a] == before[a2]);
                        assert(after[c] == before[c2]);
                    }
                    assert(instance_ids(before)[i as int] == id);
                }
            },
            None => {
                proof {
                    assert forall|k: int| 0 <= k < instance_ids(self.instances@).len() implies instance_ids(
                        self.instances@,
                    )[k] != id by {
                        assert(self.instances@[k].id != id);
                    }
                    assert forall|b: BrowserInstance| #[trigger] self.instances@.contains(b) implies b.id
                        != id by {
                        let k = choose|k: int| 0 <= k < self.instances@.len() && self.instances@[k] == b;
                        assert(self.instances@[k].id != id);
                    }
                }
            },
        }
    }

    /// Drops the instances that no tab of `tabs` shows any more (after
    /// tabs were closed), keeping the others in order.
    pub fn retain_referenced(&mut self, tabs: &[Tab])
        requires
            old(self).wf(),
        ensures
            final(self).wf(),
            final(self).instances@ == referenced_instances(
                old(self).instances@,
                tabs@,
                old(self).instances@.len() as int,
            ),
            final(self).next_id == old(self).next_id,
    {
        let ghost s0 = self.instances@;
        let n = self.instances.len();
        let mut src: Vec<BrowserInstance> = Vec::new();
        std::mem::swap(&mut self.instances, &mut src);
        let ghost mut idx: Seq<int> = Seq::empty();
        let mut i: usize = 0;
        while i < n
            invariant
                n == s0.len(),
                i <= n,
                src@ == s0.subrange(i as int, n as int),
                self.instances@ == referenced_instances(s0, tabs@, i as int),
                self.next_id == old(self).next_id,
                idx.len() == self.instances@.len(),
                forall|k: int|
                    0 <= k < idx.len() ==> 0 <= #[trigger] idx[k] < i && self.instances@[k]
                        == s0[idx[k]],
                forall|a: int, c: int| 0 <= a < c < idx.len() ==> #[trigger] idx[a] < #[trigger] idx[c],
            decreases n - i,
        {
            let b = src.remove(0);
            proof {
                assert(b == s0[i as int]);
                assert(src@ =~= s0.subrange(i + 1, n as int));
            }
            let keep = is_referenced(tabs, b.id);
            if keep {
                self.instances.push(b);
                proof {
                    idx = idx.push(i as int);
                }
            }
            i = i + 1;
        }
        proof {
            assert forall|k: int| 0 <= k < self.instances@.len() implies #[trigger] self.instances@[k].id
                < self.next_id by {
                assert(self.instances@[k] == s0[idx[k]]);
            }
            assert forall|a: int, c: int| 0 <= a < c < self.instances@.len() implies #[trigger] self.instances@[a].id
                != #[trigger] self.instances@[c].id by {
                assert(idx[a] < idx[c]);
                assert(self.instances@[a] == s0[idx[a]]);
                assert(self.instances@[c] == s0[idx[c]]);
            }
        }
    }

    /// Applies what a web view reported.  An event about an instance that
    /// no longer exists is dropped.  Returns whether the window must now
    /// create the web views that wait for the environment.
    pub fn apply_event(&mut self, ev: BrowserEvent) -> (start_creates: bool)
        requires
            old(self).wf(),
        ensures
            final(self).wf(),
            final(self).next_id == old(self).next_id,
            start_creates == (ev matches BrowserEvent::EnvironmentReady(ok) && ok),
            match ev {
                BrowserEvent::EnvironmentReady(ok) => {
                    &&& final(self).instances == old(self).instances
                    &&& !final(self).env_creating
                    &&& final(self).env_ready == (old(self).env_ready || ok)
                    &&& final(self).env_failed == (old(self).env_failed || !ok)
                },
                _ => {
                    let id = event_instance(ev)->0;
                    &&& final(self).env_ready == old(self).env_ready
                    &&& final(self).env_creating == old(self).env_creating
                    &&& final(self).env_failed == old(self).env_failed
                    &&& final(self).instances@.len() == old(self).instances@.len()
                    &&& forall|k: int|
                        0 <= k < old(self).instances@.len() ==> #[trigger] final(self).instances@[k]
                            == if old(self).instances@[k].id == id {
                            instance_after_event(old(self).instances@[k], ev)
                        } else {
                            old(self).instances@[k]
                        }
                },
            },
    {
        match ev {
            BrowserEvent::EnvironmentReady(ok) => {
                self.env_creating = false;
                if ok {
                    self.env_ready = true;
                } else {
                    self.env_failed = true;
                }
                ok
            },
            _ => {
                let id = event_id(&ev);
                if let Some(i) = self.position(id) {
                    let ghost before = self.instances@;
                    self.instances[i].take_event(ev);
                    proof {
                        assert forall|k: int| 0 <= k < self.instances@.len() implies #[trigger] self.instances@[k].id
                            == before[k].id by {}
                        assert forall|k: int| 0 <= k < self.instances@.len() implies #[trigger] self.instances@[k].id
                            < self.next_id by {
                            assert(self.instances@[k].id == before[k].id);
                        }
                        assert forall|a: int, c: int| 0 <= a < c < self.instances@.len() implies #[trigger] self.instances@[a].id
                            != #[trigger] self.instances@[c].id by {
                            assert(self.instances@[a].id == before[a].id);
                            assert(self.instances@[c].id == before[c].id);
                        }
                    }
                }
                false
            },
        }
    }

    /// Asks for the web view of instance `id`: the instance (if it still
    /// exists) waits for it, and the result is whether the environment is
    /// ready, in which case the window creates the waiting web views now
    /// (see `take_pending_creates`).
    pub fn request_controller(&mut self, id: usize) -> (start: bool)
        requires
            old(self).wf(),
        ensures
            final(self).wf(),
            start == old(self).env_ready,
            final(self).env_ready == old(self).env_ready,
            final(self).env_creating == old(self).env_creating,
            final(self).env_failed == old(self).env_failed,
            final(self).next_id == old(self).next_id,
            final(self).instances@.len() == old(self).instances@.len(),
            forall|k: int|
                0 <= k < old(self).instances@.len() ==> #[trigger] final(self).instances@[k]
                    == if old(self).instances@[k].id == id {
                    BrowserInstance { pending_create: true, ..old(self).instances@[k] }
                } else {
                    old(self).instances@[k]
                },
    {
        if let Some(i) = self.position(id) {
            let inst = &mut self.instances[i];
            inst.pending_create = true;
        }
        self.env_ready
    }

    /// Once the environment is ready, hands out the ids of the instances
    /// that wait for their web view (in order), which no longer wait: the
    /// window creates a web view for each.  Before that, nothing is handed
    /// out and nothing changes.
    pub fn take_pending_creates(&mut self) -> (ids: Vec<usize>)
        requires
            old(self).wf(),
        ensures
            final(self).wf(),
            final(self).env_ready == old(self).env_ready,
            final(self).env_creating == old(self).env_creating,
            final(self).env_failed == old(self).env_failed,
            final(self).next_id == old(self).next_id,
            !old(self).env_ready ==> ids@.len() == 0 && final(self).instances@ == old(
                self,
            ).instances@,
            old(self).env_ready ==> ids@ == waiting_ids(
                old(self).instances@,
                old(self).instances@.len() as int,
            ),
            old(self).env_ready ==> final(self).instances@ == creates_taken(old(self).instances@),
    {
        let mut ids: Vec<usize> = Vec::new();
        if !self.env_ready {
            return ids;
        }
        let ghost s0 = self.instances@;
        let n = self.instances.len();
        let mut i: usize = 0;
        while i < n
            invariant
                n == s0.len(),
                i <= n,
                old(self).wf(),
                s0 == old(self).instances@,
                self.env_ready == old(self).env_ready,
                self.env_creating == old(self).env_creating,
                self.env_failed == old(self).env_failed,
                self.next_id == old(self).next_id,
                self.instances@.len() == n,
                ids@ == waiting_ids(s0, i as int),
                forall|k: int|
                    0 <= k < i ==> #[trigger] self.instances@[k] == if waits_for_view(s0[k]) {
                        BrowserInstance { pending_create: false, ..s0[k] }
                    } else {
                        s0[k]
                    },
                forall|k: int| i <= k < n ==> #[trigger] self.instances@[k] == s0[k],
            decreases n - i,
        {
            if self.instances[i].pending_create && !self.instances[i].has_view {
                let inst = &mut self.instances[i];
                inst.pending_create = false;
                ids.push(inst.id);
            }
            i = i + 1;
        }
        proof {
            assert forall|k: int| 0 <= k < self.instances@.len() implies #[trigger] self.instances@[k].id
                == s0[k].id by {}
            assert forall|k: int| 0 <= k < self.instances@.len() implies #[trigger] self.instances@[k].id
                < self.next_id by {
                assert(self.instances@[k].id == s0[k].id);
            }
            assert forall|a: int, c: int| 0 <= a < c < self.instances@.len() implies #[trigger] self.instances@[a].id
                != #[trigger] self.instances@[c].id by {
                assert(self.instances@[a].id == s0[a].id);
                assert(self.instances@[c].id == s0[c].id);
            }
            assert(self.instances@ =~= creates_taken(s0));
        }
        ids
    }

    /// The web view of instance `id` was created.  When the instance is
    /// gone (its tab was closed meanwhile) the result is `None`, nothing
    /// changes and the window closes the view; otherwise the instance has
    /// its view and the result is the page to load first (`first_page`).
    pub fn controller_ready(&mut self, id: usize) -> (url: Option<String>)
        requires
            old(self).wf(),
        ensures
            final(self).wf(),
            url.is_none() <==> !instance_ids(old(self).instances@).contains(id),
            url.is_none() ==> final(self).instances@ == old(self).instances@,
            final(self).env_ready == old(self).env_ready,
            final(self).env_creating == old(self).env_creating,
            final(self).env_failed == old(self).env_failed,
            final(self).next_id == old(self).next_id,
            final(self).instances@.len() == old(self).instances@.len(),
            url.is_some() ==> forall|k: int|
                0 <= k < old(self).instances@.len() ==> #[trigger] final(self).instances@[k]
                    == if old(self).instances@[k].id == id {
                    BrowserInstance { has_view: true, ..old(self).instances@[k] }
                } else {
                    old(self).instances@[k]
                },
            forall|k: int|
                0 <= k < old(self).instances@.len() && old(self).instances@[k].id == id
                    ==> url.is_some() && url.unwrap()@ == first_page(old(self).instances@[k]),
    {
        match self.position(id) {
            Some(i) => {
                let inst = &mut self.instances[i];
                inst.has_view = true;
                let url = if inst.url.as_str().is_empty() {
                    String::from_str("https://www.bing.com")
                } else {
                    inst.url.clone()
                };
                proof {
                    assert(instance_ids(old(self).instances@)[i as int] == id);
                }
                Some(url)
            },
            None => {
                proof {
                    assert forall|k: int| 0 <= k < instance_ids(self.instances@).len() implies instance_ids(
                        self.instances@,
                    )[k] != id by {
                        assert(self.instances@[k].id != id);
                    }
                }
                None
            },
        }
    }

    /// Starts creating the web view environment unless it is ready, being
    /// created or has failed; returns whether the window must start it now.
    pub fn ensure_environment(&mut self) -> (start: bool)
        ensures
            start == !(old(self).env_ready || old(self).env_creating || old(self).env_failed),
            final(self).env_creating == (old(self).env_creating || start),
            final(self).env_ready == old(self).env_ready,
            final(self).env_failed == old(self).env_failed,
            final(self).instances == old(self).instances,
            final(self).next_id == old(self).next_id,
    {
        if self.env_ready || self.env_creating || self.env_failed {
            return false;
        }
        self.env_creating = true;
        true
    }
}

/// Web views are created once: after the waiting instances are handed
/// out, none waits any more, so handing out again gives nothing.
pub proof fn law_pending_creates_taken_once(instances: Seq<BrowserInstance>)
    ensures
        waiting_ids(creates_taken(instances), instances.len() as int) == Seq::<usize>::empty(),
{
    let t = creates_taken(instances);
    assert forall|n: int| 0 <= n <= instances.len() implies #[trigger] waiting_ids(t, n)
        == Seq::<usize>::empty() by {
        lemma_no_waiting(t, n);
    }
}

proof fn lemma_no_waiting(t: Seq<BrowserInstance>, n: int)
    requires
        0 <= n <= t.len(),
        forall|k: int| 0 <= k < t.len() ==> !waits_for_view(#[trigger] t[k]),
    ensures
        waiting_ids(t, n) == Seq::<usize>::empty(),
    decreases n,
{
    if n > 0 {
        lemma_no_waiting(t, n - 1);
    }
}

} // verus!
