//! The context the assistant is given with a question: the parts the user
//! attached (the current file, the selection, the open files, the
//! diagnostics, the file tree, extra text), one after another.  How a piece
//! of code is wrapped for the model (its fence, language and the cut of a
//! long text) is the caller's `wrap`.
use vstd::prelude::*;
use vstd::string::StringExecFns;

use crate::listing::{decimal, decimal_string, joined};
use crate::state::{EditorState, Tab};

verus! {

/// What the user attached to a question.
#[derive(Clone, Debug)]
pub enum ContextAttachment {
    CurrentFile,
    Selection,
    OpenFiles,
    Diagnostics,
    FileTree,
    CustomText(String),
}

/// A language-server diagnostic: severity (1 error, 2 warning, 3
/// information, 4 hint), position and message.
pub struct Diagnostic {
    pub severity: u32,
    pub line: usize,
    pub col: usize,
    pub message: String,
}

/// Most characters of the current file, of the selection, and of each open
/// file that go into a code block.
pub const CURRENT_FILE_CHARS: usize = 30000;

pub const SELECTION_CHARS: usize = 10000;

pub const OPEN_FILE_CHARS: usize = 5000;

/// Most diagnostics listed.
pub const DIAGNOSTICS_CAP: usize = 20;

/// `out` is a code block that `wrap` can make of the text `text` of `path`,
/// cut to `max` chars.
pub open spec fn block_ok<F: Fn(String, Vec<u8>, usize) -> String>(
    wrap: F,
    path: Seq<char>,
    text: Seq<u8>,
    max: usize,
    out: Seq<char>,
) -> bool {
    exists|p: String, t: Vec<u8>, r: String|
        #![trigger call_ensures(wrap, (p, t, max), r)]
        p@ == path && t@ == text && r@ == out && call_ensures(wrap, (p, t, max), r)
}

/// How the current file is named: its path, or "the current file".
pub open spec fn current_path(s: EditorState) -> Seq<char> {
    match s.content.file_path {
        Some(p) => p@,
        None => "当前文件"@,
    }
}

/// The name shown for tab `i` without a file.
pub open spec fn untitled(i: int) -> Seq<char> {
    "未命名-"@ + decimal((i + 1) as nat)
}

/// The open files among the first `n` tabs, as (name, text): the active
/// tab shows the active content; other file tabs their own.
pub open spec fn open_files(s: EditorState, n: int) -> Seq<(Seq<char>, Seq<u8>)>
    decreases n,
{
    if n <= 0 {
        Seq::empty()
    } else {
        let i = n - 1;
        let p = open_files(s, i);
        let t = s.tab_bar.tabs@[i];
        if i == s.tab_bar.active_tab {
            p.push(
                (
                    match s.content.file_path {
                        Some(f) => f@,
                        None => untitled(i),
                    },
                    s.content.buffer@,
                ),
            )
        } else if t is File {
            p.push(
                (
                    match t->File_0.file_path {
                        Some(f) => f@,
                        None => untitled(i),
                    },
                    t->File_0.buffer@,
                ),
            )
        } else {
            p
        }
    }
}

/// The texts of `parts`, one after another.
pub open spec fn concat_all(parts: Seq<Seq<char>>) -> Seq<char>
    decreases parts.len(),
{
    if parts.len() == 0 {
        Seq::empty()
    } else {
        concat_all(parts.drop_last()) + parts.last()
    }
}

/// `blocks` are code blocks of the open files `files`, one each.
pub open spec fn blocks_ok<F: Fn(String, Vec<u8>, usize) -> String>(
    wrap: F,
    files: Seq<(Seq<char>, Seq<u8>)>,
    blocks: Seq<Seq<char>>,
) -> bool {
    &&& blocks.len() == files.len()
    &&& forall|k: int|
        0 <= k < files.len() ==> block_ok(wrap, files[k].0, files[k].1, OPEN_FILE_CHARS, #[trigger] blocks[k])
}

/// The name of a severity.
pub open spec fn severity_name(sev: u32) -> Seq<char> {
    if sev == 1 {
        "Error"@
    } else if sev == 2 {
        "Warning"@
    } else if sev == 3 {
        "Information"@
    } else if sev == 4 {
        "Hint"@
    } else {
        "Diagnostic"@
    }
}

/// `(severity, index)` placed into `s` after every entry of no greater severity.
pub open spec fn insert_by_severity(s: Seq<(u32, usize)>, x: (u32, usize)) -> Seq<(u32, usize)>
    decreases s.len(),
{
    if s.len() == 0 {
        seq![x]
    } else if s.last().0 <= x.0 {
        s.push(x)
    } else {
        insert_by_severity(s.drop_last(), x).push(s.last())
    }
}

/// The first `n` diagnostics, as (severity, index), in a stable order of
/// severity (errors first; equal severities keep their order).
pub open spec fn by_severity(ds: Seq<Diagnostic>, n: int) -> Seq<(u32, usize)>
    decreases n,
{
    if n <= 0 {
        Seq::empty()
    } else {
        insert_by_severity(by_severity(ds, n - 1), (ds[n - 1].severity, (n - 1) as usize))
    }
}

/// The line of a diagnostic.
pub open spec fn diagnostic_line(d: Diagnostic) -> Seq<char> {
    "["@ + severity_name(d.severity) + "] "@ + decimal(d.line as nat) + ":"@ + decimal(
        d.col as nat,
    ) + " "@ + d.message@ + "\n"@
}

/// The diagnostics part: up to `DIAGNOSTICS_CAP` diagnostics by severity.
pub open spec fn diagnostics_text(ds: Seq<Diagnostic>) -> Seq<char> {
    if ds.len() == 0 {
        "当前文件暂无 LSP 诊断信息。\n"@
    } else {
        let order = by_severity(ds, ds.len() as int);
        let shown = order.take(
            if order.len() > DIAGNOSTICS_CAP {
                DIAGNOSTICS_CAP as int
            } else {
                order.len() as int
            },
        );
        "当前 LSP 诊断：\n"@ + concat_all(
            shown.map_values(|e: (u32, usize)| diagnostic_line(ds[e.1 as int])),
        )
    }
}

/// `part` is what the attachment `a` gives (`None`: nothing, for a missing
/// selection): `selection` is the selected text, `tree` the file tree text.
pub open spec fn part_ok<F: Fn(String, Vec<u8>, usize) -> String>(
    s: EditorState,
    a: ContextAttachment,
    selection: Option<Seq<u8>>,
    ds: Seq<Diagnostic>,
    tree: Option<Seq<char>>,
    wrap: F,
    part: Option<Seq<char>>,
) -> bool {
    match a {
        ContextAttachment::CurrentFile => part is Some && block_ok(
            wrap,
            current_path(s),
            s.content.buffer@,
            CURRENT_FILE_CHARS,
            part->0,
        ),
        ContextAttachment::Selection => match selection {
            None => part is None,
            Some(t) => part is Some && block_ok(
                wrap,
                current_path(s) + " (选区)"@,
                t,
                SELECTION_CHARS,
                part->0,
            ),
        },
        ContextAttachment::OpenFiles => exists|blocks: Seq<Seq<char>>|
            blocks_ok(wrap, open_files(s, s.tab_bar.tabs@.len() as int), blocks) && part == Some(
                "打开的文件列表：\n"@ + concat_all(blocks),
            ),
        ContextAttachment::Diagnostics => part == Some(diagnostics_text(ds)),
        ContextAttachment::FileTree => part == Some(
            match tree {
                Some(t) => "工作区文件树：\n"@ + t + "\n"@,
                None => "未加载工作区文件树。\n"@,
            },
        ),
        ContextAttachment::CustomText(t) => part == Some("用户附加文本：\n"@ + t@ + "\n"@),
    }
}

/// The parts that are there, in order.
pub open spec fn present(parts: Seq<Option<Seq<char>>>) -> Seq<Seq<char>>
    decreases parts.len(),
{
    if parts.len() == 0 {
        Seq::empty()
    } else {
        match parts.last() {
            Some(p) => present(parts.drop_last()).push(p),
            None => present(parts.drop_last()),
        }
    }
}

/// The bytes of an optional text.
pub open spec fn bytes_view(o: Option<Vec<u8>>) -> Option<Seq<u8>> {
    match o {
        Some(t) => Some(t@),
        None => None,
    }
}

/// The chars of an optional text.
pub open spec fn text_view(o: Option<String>) -> Option<Seq<char>> {
    match o {
        Some(t) => Some(t@),
        None => None,
    }
}

/// Calls `wrap` on a copy of the name and the text.
fn call_wrap<F: Fn(String, Vec<u8>, usize) -> String>(
    wrap: &F,
    path: &String,
    text: &[u8],
    max: usize,
) -> (r: String)
    requires
        forall|p: String, t: Vec<u8>, m: usize| #[trigger] call_requires(*wrap, (p, t, m)),
    ensures
        block_ok(*wrap, path@, text@, max, r@),
{
    let p = path.clone();
    let t = vstd::slice::slice_to_vec(text);
    let r = wrap(p, t, max);
    proof {
        assert(call_ensures(*wrap, (p, t, max), r));
    }
    r
}

/// `v` with `x` placed after every entry of no greater severity.
fn insert_severity(v: &mut Vec<(u32, usize)>, x: (u32, usize))
    ensures
        final(v)@ == insert_by_severity(old(v)@, x),
    decreases old(v)@.len(),
{
    if v.len() == 0 {
        v.push(x);
        proof {
            assert(final(v)@ =~= seq![x]);
        }
        return ;
    }
    let last = v.pop().unwrap();
    if last.0 <= x.0 {
        v.push(last);
        v.push(x);
        proof {
            assert(old(v)@ =~= old(v)@.drop_last().push(last));
        }
    } else {
        let ghost rest = v@;
        insert_severity(v, x);
        v.push(last);
    }
}

/// The name of a severity.
fn severity_label(sev: u32) -> (r: &'static str)
    ensures
        r@ == severity_name(sev),
{
    if sev == 1 {
        "Error"
    } else if sev == 2 {
        "Warning"
    } else if sev == 3 {
        "Information"
    } else if sev == 4 {
        "Hint"
    } else {
        "Diagnostic"
    }
}

/// The diagnostics part (see `diagnostics_text`).
fn diagnostics_part(ds: &[Diagnostic]) -> (r: String)
    ensures
        r@ == diagnostics_text(ds@),
{
    if ds.len() == 0 {
        return String::from_str("当前文件暂无 LSP 诊断信息。\n");
    }
    let mut order: Vec<(u32, usize)> = Vec::new();
    let mut i: usize = 0;
    while i < ds.len()
        invariant
            i <= ds@.len(),
            order@ == by_severity(ds@, i as int),
        decreases ds@.len() - i,
    {
        insert_severity(&mut order, (ds[i].severity, i));
        i = i + 1;
    }
    proof {
        lemma_by_severity_indices(ds@, ds@.len() as int);
    }
    let shown = if order.len() > DIAGNOSTICS_CAP {
        DIAGNOSTICS_CAP
    } else {
        order.len()
    };
    let ghost lines = order@.take(shown as int).map_values(
        |e: (u32, usize)| diagnostic_line(ds@[e.1 as int]),
    );
    let mut r = String::from_str("当前 LSP 诊断：\n");
    let mut k: usize = 0;
    while k < shown
        invariant
            shown <= order@.len(),
            order@ == by_severity(ds@, ds@.len() as int),
            forall|j: int| 0 <= j < order@.len() ==> (#[trigger] order@[j]).1 < ds@.len(),
            lines == order@.take(shown as int).map_values(
                |e: (u32, usize)| diagnostic_line(ds@[e.1 as int]),
            ),
            k <= shown,
            r@ == "当前 LSP 诊断：\n"@ + concat_all(lines.take(k as int)),
        decreases shown - k,
    {
        let d = &ds[order[k].1];
        let name = severity_label(d.severity);
        let line_no = decimal_string(d.line as u64);
        let col_no = decimal_string(d.col as u64);
        r.append("[");
        r.append(name);
        r.append("] ");
        r.append(line_no.as_str());
        r.append(":");
        r.append(col_no.as_str());
        r.append(" ");
        r.append(d.message.as_str());
        r.append("\n");
        proof {
            assert(lines.take(k + 1).drop_last() =~= lines.take(k as int));
            assert(lines.take(k + 1).last() == diagnostic_line(ds@[order@[k as int].1 as int]));
            assert(r@ =~= "当前 LSP 诊断：\n"@ + concat_all(lines.take(k + 1)));
        }
        k = k + 1;
    }
    proof {
        assert(lines.take(shown as int) =~= lines);
    }
    r
}

proof fn lemma_insert_by_severity_members(s: Seq<(u32, usize)>, x: (u32, usize), n: int)
    requires
        x.1 < n,
        forall|j: int| 0 <= j < s.len() ==> (#[trigger] s[j]).1 < n,
    ensures
        forall|j: int|
            0 <= j < insert_by_severity(s, x).len() ==> (#[trigger] insert_by_severity(s, x)[j]).1
                < n,
        insert_by_severity(s, x).len() == s.len() + 1,
    decreases s.len(),
{
    if s.len() > 0 && s.last().0 > x.0 {
        lemma_insert_by_severity_members(s.drop_last(), x, n);
    }
}

/// The indices `by_severity` gives are indices of diagnostics.
proof fn lemma_by_severity_indices(ds: Seq<Diagnostic>, n: int)
    requires
        0 <= n <= ds.len(),
        ds.len() <= usize::MAX,
    ensures
        forall|j: int| 0 <= j < by_severity(ds, n).len() ==> (#[trigger] by_severity(ds, n)[j]).1 < ds.len(),
        by_severity(ds, n).len() == n,
    decreases n,
{
    if n > 0 {
        lemma_by_severity_indices(ds, n - 1);
        lemma_insert_by_severity_members(
            by_severity(ds, n - 1),
            (ds[n - 1].severity, (n - 1) as usize),
            ds.len() as int,
        );
    }
}

/// The name tab `i` is shown under when it has no file.
fn untitled_name(i: usize) -> (r: String)
    requires
        i < usize::MAX,
    ensures
        r@ == untitled(i as int),
{
    let n = decimal_string((i + 1) as u64);
    String::from_str("未命名-").concat(n.as_str())
}

/// The open-files part.
fn open_files_part<F: Fn(String, Vec<u8>, usize) -> String>(state: &EditorState, wrap: &F) -> (r:
    String)
    requires
        state.wf(),
        forall|p: String, t: Vec<u8>, m: usize| #[trigger] call_requires(*wrap, (p, t, m)),
    ensures
        exists|blocks: Seq<Seq<char>>|
            blocks_ok(*wrap, open_files(*state, state.tab_bar.tabs@.len() as int), blocks) && r@
                == "打开的文件列表：\n"@ + concat_all(blocks),
{
    let mut r = String::from_str("打开的文件列表：\n");
    let ghost mut blocks: Seq<Seq<char>> = Seq::empty();
    let n = state.tab_bar.tabs.len();
    let active_text = state.content.buffer.all_bytes();
    let mut i: usize = 0;
    while i < n
        invariant
            n == state.tab_bar.tabs@.len(),
            i <= n,
            active_text@ == state.content.buffer@,
            forall|p: String, t: Vec<u8>, m: usize| #[trigger] call_requires(*wrap, (p, t, m)),
            blocks_ok(*wrap, open_files(*state, i as int), blocks),
            r@ == "打开的文件列表：\n"@ + concat_all(blocks),
        decreases n - i,
    {
        let ghost files = open_files(*state, i as int);
        if i == state.tab_bar.active_tab {
            let name = match &state.content.file_path {
                Some(f) => f.clone(),
                None => untitled_name(i),
            };
            let b = call_wrap(wrap, &name, active_text.as_slice(), OPEN_FILE_CHARS);
            r.append(b.as_str());
            proof {
                let nb = blocks.push(b@);
                assert(nb.drop_last() =~= blocks);
                assert(open_files(*state, i + 1) == files.push((name@, state.content.buffer@)));
                assert forall|k: int| 0 <= k < files.len() + 1 implies block_ok(
                    *wrap,
                    open_files(*state, i + 1)[k].0,
                    open_files(*state, i + 1)[k].1,
                    OPEN_FILE_CHARS,
                    #[trigger] nb[k],
                ) by {
                    if k < files.len() {
                        assert(nb[k] == blocks[k]);
                    }
                }
                blocks = nb;
            }
        } else {
            match &state.tab_bar.tabs[i] {
                Tab::File(c) => {
                    let name = match &c.file_path {
                        Some(f) => f.clone(),
                        None => untitled_name(i),
                    };
                    let text = c.buffer.all_bytes();
                    let b = call_wrap(wrap, &name, text.as_slice(), OPEN_FILE_CHARS);
                    r.append(b.as_str());
                    proof {
                        let nb = blocks.push(b@);
                        assert(nb.drop_last() =~= blocks);
                        assert(open_files(*state, i + 1) == files.push((name@, c.buffer@)));
                        assert forall|k: int| 0 <= k < files.len() + 1 implies block_ok(
                            *wrap,
                            open_files(*state, i + 1)[k].0,
                            open_files(*state, i + 1)[k].1,
                            OPEN_FILE_CHARS,
                            #[trigger] nb[k],
                        ) by {
                            if k < files.len() {
                                assert(nb[k] == blocks[k]);
                            }
                        }
                        blocks = nb;
                    }
                },
                _ => {},
            }
        }
        i = i + 1;
    }
    r
}

/// `r` is a context for the attachments `atts`: each attachment's part
/// (see `part_ok`; a missing selection gives none), joined by line breaks.
pub open spec fn context_of<F: Fn(String, Vec<u8>, usize) -> String>(
    s: EditorState,
    atts: Seq<ContextAttachment>,
    selection: Option<Seq<u8>>,
    ds: Seq<Diagnostic>,
    tree: Option<Seq<char>>,
    wrap: F,
    r: Seq<char>,
) -> bool {
    exists|parts: Seq<Option<Seq<char>>>|
        #![trigger present(parts)]
        {
            &&& parts.len() == atts.len()
            &&& forall|i: int|
                0 <= i < parts.len() ==> part_ok(s, atts[i], selection, ds, tree, wrap, #[trigger] parts[i])
            &&& r == joined(present(parts))
        }
}

/// Whether attachment `a` always gives a part: all but the selection, which
/// gives one only when there is a selected text.
pub open spec fn gives_part(a: ContextAttachment, selection: Option<Seq<u8>>) -> bool {
    !(a is Selection) || selection is Some
}

/// No attachment gives an empty context.
pub proof fn law_no_attachment_no_context<F: Fn(String, Vec<u8>, usize) -> String>(
    s: EditorState,
    selection: Option<Seq<u8>>,
    ds: Seq<Diagnostic>,
    tree: Option<Seq<char>>,
    wrap: F,
    r: Seq<char>,
)
    requires
        context_of(s, Seq::empty(), selection, ds, tree, wrap, r),
    ensures
        r.len() == 0,
{
    let parts = choose|parts: Seq<Option<Seq<char>>>|
        #![trigger present(parts)]
        {
            &&& parts.len() == 0
            &&& forall|i: int|
                0 <= i < parts.len() ==> part_ok(
                    s,
                    Seq::<ContextAttachment>::empty()[i],
                    selection,
                    ds,
                    tree,
                    wrap,
                    #[trigger] parts[i],
                )
            &&& r == joined(present(parts))
        };
    assert(present(parts).len() == 0);
}

/// The context for two attachments that each give a part is the context
/// for the first, a line break, and the context for the second.
pub proof fn law_context_of_two<F: Fn(String, Vec<u8>, usize) -> String>(
    s: EditorState,
    a: ContextAttachment,
    b: ContextAttachment,
    selection: Option<Seq<u8>>,
    ds: Seq<Diagnostic>,
    tree: Option<Seq<char>>,
    wrap: F,
    r: Seq<char>,
)
    requires
        gives_part(a, selection),
        gives_part(b, selection),
        context_of(s, seq![a, b], selection, ds, tree, wrap, r),
    ensures
        exists|ra: Seq<char>, rb: Seq<char>|
            context_of(s, seq![a], selection, ds, tree, wrap, ra) && context_of(
                s,
                seq![b],
                selection,
                ds,
                tree,
                wrap,
                rb,
            ) && r == ra + "\n"@ + rb,
{
    let atts = seq![a, b];
    let parts = choose|parts: Seq<Option<Seq<char>>>|
        #![trigger present(parts)]
        {
            &&& parts.len() == atts.len()
            &&& forall|i: int|
                0 <= i < parts.len() ==> part_ok(s, atts[i], selection, ds, tree, wrap, #[trigger] parts[i])
            &&& r == joined(present(parts))
        };
    assert(part_ok(s, atts[0], selection, ds, tree, wrap, parts[0]));
    assert(part_ok(s, atts[1], selection, ds, tree, wrap, parts[1]));
    let x = parts[0]->0;
    let y = parts[1]->0;
    assert(parts =~= seq![Some(x), Some(y)]);
    let pa = seq![Some(x)];
    let pb = seq![Some(y)];
    assert(pa.drop_last() =~= Seq::<Option<Seq<char>>>::empty());
    assert(pb.drop_last() =~= Seq::<Option<Seq<char>>>::empty());
    assert(parts.drop_last() =~= pa);
    assert(present(Seq::<Option<Seq<char>>>::empty()) =~= Seq::<Seq<char>>::empty());
    assert(present(pa) =~= seq![x]);
    assert(present(pb) =~= seq![y]);
    assert(present(parts) =~= seq![x, y]);
    assert(seq![x, y].drop_last() =~= seq![x]);
    assert(joined(seq![x]) == x);
    assert(joined(seq![y]) == y);
    assert(joined(seq![x, y]) =~= x + "\n"@ + y) by {
        reveal_strlit("\n");
    }
    assert(part_ok(s, seq![a][0], selection, ds, tree, wrap, pa[0]));
    assert(part_ok(s, seq![b][0], selection, ds, tree, wrap, pb[0]));
    assert(context_of(s, seq![a], selection, ds, tree, wrap, x));
    assert(context_of(s, seq![b], selection, ds, tree, wrap, y));
}

/// Custom text alone gives the context `用户附加文本：`, a line break, the
/// text and a line break.
pub proof fn law_custom_text_context<F: Fn(String, Vec<u8>, usize) -> String>(
    s: EditorState,
    t: String,
    selection: Option<Seq<u8>>,
    ds: Seq<Diagnostic>,
    tree: Option<Seq<char>>,
    wrap: F,
    r: Seq<char>,
)
    requires
        context_of(s, seq![ContextAttachment::CustomText(t)], selection, ds, tree, wrap, r),
    ensures
        r == "用户附加文本：\n"@ + t@ + "\n"@,
{
    let atts = seq![ContextAttachment::CustomText(t)];
    let parts = choose|parts: Seq<Option<Seq<char>>>|
        #![trigger present(parts)]
        {
            &&& parts.len() == atts.len()
            &&& forall|i: int|
                0 <= i < parts.len() ==> part_ok(s, atts[i], selection, ds, tree, wrap, #[trigger] parts[i])
            &&& r == joined(present(parts))
        };
    assert(part_ok(s, atts[0], selection, ds, tree, wrap, parts[0]));
    assert(parts.drop_last() =~= Seq::<Option<Seq<char>>>::empty());
    assert(present(Seq::<Option<Seq<char>>>::empty()) =~= Seq::<Seq<char>>::empty());
    assert(present(parts) =~= seq![parts[0]->0]);
}

/// The context for a question with the attachments `attachments`: each
/// attachment's part (see `part_ok`; a missing selection gives none), joined
/// by line breaks.  `selection` is the selected text, `diagnostics` the
/// language server's diagnostics, `file_tree_text` the workspace file tree
/// as text (`None` when none is loaded), and `wrap` makes the code block of
/// a named text cut to a number of chars.
pub fn gather_context<F: Fn(String, Vec<u8>, usize) -> String>(
    state: &EditorState,
    attachments: &Vec<ContextAttachment>,
    selection: Option<Vec<u8>>,
    diagnostics: &[Diagnostic],
    file_tree_text: Option<String>,
    wrap: &F,
) -> (r: String)
    requires
        state.wf(),
        forall|p: String, t: Vec<u8>, m: usize| #[trigger] call_requires(*wrap, (p, t, m)),
    ensures
        context_of(
            *state,
            attachments@,
            bytes_view(selection),
            diagnostics@,
            text_view(file_tree_text),
            *wrap,
            r@,
        ),
{
    let ghost sel = bytes_view(selection);
    let ghost tree = text_view(file_tree_text);
    let current = match &state.content.file_path {
        Some(p) => p.clone(),
        None => String::from_str("当前文件"),
    };
    let all_text = state.content.buffer.all_bytes();
    let mut parts: Vec<String> = Vec::new();
    let ghost mut opts: Seq<Option<Seq<char>>> = Seq::empty();
    let mut i: usize = 0;
    while i < attachments.len()
        invariant
            i <= attachments@.len(),
            state.wf(),
            current@ == current_path(*state),
            all_text@ == state.content.buffer@,
            sel == bytes_view(selection),
            tree == text_view(file_tree_text),
            forall|p: String, t: Vec<u8>, m: usize| #[trigger] call_requires(*wrap, (p, t, m)),
            opts.len() == i,
            forall|k: int|
                0 <= k < i ==> part_ok(
                    *state,
                    attachments@[k],
                    sel,
                    diagnostics@,
                    tree,
                    *wrap,
                    #[trigger] opts[k],
                ),
            crate::agent::texts(parts@) == present(opts),
        decreases attachments@.len() - i,
    {
        let part: Option<String> = match &attachments[i] {
            ContextAttachment::CurrentFile => Some(
                call_wrap(wrap, &current, all_text.as_slice(), CURRENT_FILE_CHARS),
            ),
            ContextAttachment::Selection => match &selection {
                Some(t) => {
                    let name = current.clone().concat(" (选区)");
                    Some(call_wrap(wrap, &name, t.as_slice(), SELECTION_CHARS))
                },
                None => None,
            },
            ContextAttachment::OpenFiles => Some(open_files_part(state, wrap)),
            ContextAttachment::Diagnostics => Some(diagnostics_part(diagnostics)),
            ContextAttachment::FileTree => match &file_tree_text {
                Some(t) => Some(
                    String::from_str("工作区文件树：\n").concat(t.as_str()).concat("\n"),
                ),
                None => Some(String::from_str("未加载工作区文件树。\n")),
            },
            ContextAttachment::CustomText(t) => Some(
                String::from_str("用户附加文本：\n").concat(t.as_str()).concat("\n"),
            ),
        };
        let ghost pv = text_view(part);
        proof {
            assert(part_ok(*state, attachments@[i as int], sel, diagnostics@, tree, *wrap, pv));
        }
        let ghost before = parts@;
        match part {
            Some(x) => {
                parts.push(x);
                proof {
                    assert(crate::agent::texts(parts@) =~= crate::agent::texts(before).push(x@));
                }
            },
            None => {},
        }
        proof {
            let no = opts.push(pv);
            assert(no.drop_last() =~= opts);
            assert forall|k: int| 0 <= k < i + 1 implies part_ok(
                *state,
                attachments@[k],
                sel,
                diagnostics@,
                tree,
                *wrap,
                #[trigger] no[k],
            ) by {
                if k < i {
                    assert(no[k] == opts[k]);
                }
            }
            opts = no;
        }
        i = i + 1;
    }
    crate::agent::join_lines(&parts)
}

} // verus!
