//! Opening a file's text in the editor and recording saves.  The window
//! reads and writes the disk; this is how the tabs and the active content
//! change around that.
use vstd::prelude::*;
use vstd::string::StringExecFns;
use vstd::utf8::encode_utf8;

use crate::state::{EditorState, StatusMessage, Tab, TabBar, TabContent, WorkspaceFolder};
use crate::text_buffer::TextBuffer;
use crate::file_tree::FileTreeState;

verus! {

/// The active tab can take a file in place: it has no file, no changes and no text.
pub open spec fn can_reuse_tab(s: EditorState) -> bool {
    s.content.file_path.is_none() && !s.content.is_dirty && s.content.buffer@.len() == 0
}

/// Whether the active tab can take a file in place (see `can_reuse_tab`).
pub fn can_reuse_current_tab(state: &EditorState) -> (r: bool)
    ensures
        r == can_reuse_tab(*state),
{
    state.content.file_path.is_none() && !state.content.is_dirty
        && state.content.buffer.len_bytes() == 0
}

/// `n` is `o` brought back to its initial editing state: cursor and scroll
/// at the top, no selection, empty undo history, unmodified, and a new version.
pub open spec fn content_reset(o: TabContent, n: TabContent) -> bool {
    &&& n == TabContent {
        history: n.history,
        cursor_line: 0,
        cursor_col: 0,
        scroll_y: 0,
        selection_start: None,
        selection_end: None,
        is_dirty: false,
        buffer_version: (o.buffer_version + 1) as u64,
        ..o
    }
    &&& n.history.records@.len() == 0
    &&& n.history.open_group.is_none()
    &&& n.history.groups_opened == o.history.groups_opened
}

/// Resets the active content's editing state (see `content_reset`).
pub fn reset_editor_state(state: &mut EditorState)
    requires
        old(state).content.buffer_version < u64::MAX,
    ensures
        content_reset(old(state).content, final(state).content),
        *final(state) == (EditorState { content: final(state).content, ..*old(state) }),
{
    state.content.cursor_line = 0;
    state.content.cursor_col = 0;
    state.content.scroll_y = 0;
    state.content.history.clear();
    state.content.is_dirty = false;
    state.content.buffer_version = state.content.buffer_version + 1;
    state.content.selection_start = None;
    state.content.selection_end = None;
}

/// `n` is `o` with the active content exchanged with the content kept in
/// tab `idx`, when that is a file tab; otherwise `n` is `o`.
pub open spec fn tab_content_swapped(o: EditorState, n: EditorState, idx: int) -> bool {
    if 0 <= idx < o.tab_bar.tabs@.len() && o.tab_bar.tabs@[idx] is File {
        &&& n == EditorState { content: n.content, tab_bar: n.tab_bar, ..o }
        &&& n.content == o.tab_bar.tabs@[idx]->File_0
        &&& n.tab_bar.active_tab == o.tab_bar.active_tab
        &&& n.tab_bar.tabs@ == o.tab_bar.tabs@.update(idx, Tab::File(o.content))
    } else {
        n == o
    }
}

/// Exchanges the active content with the content kept in tab `idx`.
pub fn swap_tab_content(state: &mut EditorState, idx: usize)
    ensures
        tab_content_swapped(*old(state), *final(state), idx as int),
{
    if idx < state.tab_bar.tabs.len() {
        let is_file = match &state.tab_bar.tabs[idx] {
            Tab::File(_) => true,
            _ => false,
        };
        if !is_file {
            return ;
        }
        let ghost tabs0 = state.tab_bar.tabs@;
        match &mut state.tab_bar.tabs[idx] {
            Tab::File(c) => {
                std::mem::swap(&mut state.content, c);
            },
            _ => {},
        }
        proof {
            assert(state.tab_bar.tabs@ =~= tabs0.update(idx as int, Tab::File(old(state).content)));
        }
    }
}

/// `n` is `o` switched to tab `idx`: the active content goes back to its
/// tab, and the content kept in tab `idx` becomes active.
pub open spec fn tab_switched(o: EditorState, n: EditorState, idx: int) -> bool {
    exists|m: EditorState|
        #![trigger tab_content_swapped(o, m, o.tab_bar.active_tab as int)]
        tab_content_swapped(o, m, o.tab_bar.active_tab as int) && tab_content_swapped(
            EditorState { tab_bar: TabBar { active_tab: idx as usize, ..m.tab_bar }, ..m },
            n,
            idx,
        )
}

/// Switches to tab `idx` (see `tab_switched`).
pub fn switch_tab(state: &mut EditorState, idx: usize)
    ensures
        tab_switched(*old(state), *final(state), idx as int),
{
    let ghost o = *state;
    let active = state.tab_bar.active_tab;
    swap_tab_content(state, active);
    let ghost m = *state;
    state.tab_bar.active_tab = idx;
    swap_tab_content(state, idx);
    proof {
        assert(tab_content_swapped(o, m, o.tab_bar.active_tab as int));
    }
}

/// The file a tab holds, if it holds one.
pub open spec fn tab_file(t: Tab) -> Option<Seq<char>> {
    match t {
        Tab::File(c) => match c.file_path {
            Some(p) => Some(p@),
            None => None,
        },
        _ => None,
    }
}

/// The first tab from `i` on that holds the file `path`.
pub open spec fn first_tab_with(tabs: Seq<Tab>, path: Seq<char>, i: int) -> Option<int>
    decreases tabs.len() - i,
{
    if i < 0 || i >= tabs.len() {
        None
    } else if tab_file(tabs[i]) == Some(path) {
        Some(i)
    } else {
        first_tab_with(tabs, path, i + 1)
    }
}

/// Whether the active content is the file `path`.
pub open spec fn active_is_file(s: EditorState, path: Seq<char>) -> bool {
    match s.content.file_path {
        Some(p) => p@ == path,
        None => false,
    }
}

/// The first tab that holds the file `path`.
fn find_tab_with(tabs: &Vec<Tab>, path: &String) -> (r: Option<usize>)
    ensures
        match r {
            Some(k) => first_tab_with(tabs@, path@, 0) == Some(k as int),
            None => first_tab_with(tabs@, path@, 0).is_none(),
        },
{
    let mut i: usize = 0;
    while i < tabs.len()
        invariant
            i <= tabs@.len(),
            first_tab_with(tabs@, path@, 0) == first_tab_with(tabs@, path@, i as int),
        decreases tabs@.len() - i,
    {
        let found = match &tabs[i] {
            Tab::File(c) => match &c.file_path {
                Some(p) => *p == *path,
                None => false,
            },
            _ => false,
        };
        if found {
            return Some(i);
        }
        i = i + 1;
    }
    None
}

/// Shows the text `text` that was read in the background for the file at
/// `path` (a file link of the assistant).  Nothing happens for an empty
/// path or when the file is the active one meanwhile; when a tab holds it,
/// that tab becomes active; otherwise it opens in a new tab (as the only
/// one when there are none), the right panel shows in agent mode, and the
/// status says the file was opened.
pub fn finish_open_ai_file_link(state: &mut EditorState, path: String, text: &str)
    requires
        old(state).tab_bar.tabs@.len() < usize::MAX,
    ensures
        path@.len() == 0 || active_is_file(*old(state), path@) ==> *final(state) == *old(state),
        path@.len() > 0 && !active_is_file(*old(state), path@) ==> match first_tab_with(
            old(state).tab_bar.tabs@,
            path@,
            0,
        ) {
            Some(k) => tab_switched(*old(state), *final(state), k),
            None => {
                &&& final(state).content.file_path == Some(path)
                &&& final(state).content.buffer.wf()
                &&& final(state).content.buffer@ == encode_utf8(text@)
                &&& final(state).content.cursor_line == 0
                &&& final(state).content.cursor_col == 0
                &&& !final(state).content.is_dirty
                &&& final(state).status == StatusMessage::FileOpened
                &&& final(state).right_panel_visible == (old(state).right_panel_visible
                    || old(state).agent_mode)
                &&& if old(state).tab_bar.tabs@.len() == 0 {
                    &&& final(state).tab_bar.tabs@.len() == 1
                    &&& final(state).tab_bar.active_tab == 0
                    &&& tab_file(final(state).tab_bar.tabs@[0]) == Some(path@)
                    &&& !final(state).is_selecting
                } else {
                    opened_in_new_tab(
                        *old(state),
                        EditorState {
                            status: old(state).status,
                            right_panel_visible: old(state).right_panel_visible,
                            ..*final(state)
                        },
                        final(state).content,
                    )
                }
            },
        },
{
    if path.as_str().is_empty() {
        return ;
    }
    let is_active = match &state.content.file_path {
        Some(p) => *p == path,
        None => false,
    };
    if is_active {
        return ;
    }
    if let Some(k) = find_tab_with(&state.tab_bar.tabs, &path) {
        switch_tab(state, k);
        return ;
    }
    let content = TabContent::with_buffer(Some(path.clone()), TextBuffer::from_str(text));
    if state.tab_bar.tabs.len() == 0 {
        let kept = TabContent::with_buffer(Some(path.clone()), TextBuffer::from_str(text));
        state.tab_bar.tabs.push(Tab::File(kept));
        state.tab_bar.active_tab = 0;
        state.content = content;
        state.is_selecting = false;
    } else {
        open_in_new_tab(state, content);
    }
    if state.agent_mode {
        state.right_panel_visible = true;
    }
    state.status = StatusMessage::FileOpened;
}

/// `n` is `o` after opening the content `c` in a new tab at the end of the
/// tab bar: the active content is kept in its tab, and the new tab becomes
/// the active one.
pub open spec fn opened_in_new_tab(o: EditorState, n: EditorState, c: TabContent) -> bool {
    let a = o.tab_bar.active_tab as int;
    let tabs = o.tab_bar.tabs@;
    let kept = if 0 <= a < tabs.len() && tabs[a] is File {
        tabs.update(a, Tab::File(o.content)).push(Tab::File(tabs[a]->File_0))
    } else {
        tabs.push(Tab::File(o.content))
    };
    &&& n == EditorState { content: c, tab_bar: n.tab_bar, is_selecting: false, ..o }
    &&& n.tab_bar.active_tab == tabs.len()
    &&& n.tab_bar.tabs@ == kept
}

/// Opens `c` in a new tab at the end of the tab bar and switches to it.
pub fn open_in_new_tab(state: &mut EditorState, c: TabContent)
    requires
        old(state).tab_bar.tabs@.len() < usize::MAX,
    ensures
        opened_in_new_tab(*old(state), *final(state), c),
{
    let ghost o = *state;
    let active = state.tab_bar.active_tab;
    swap_tab_content(state, active);
    let ghost s1 = *state;
    state.tab_bar.tabs.push(Tab::File(c));
    state.tab_bar.active_tab = state.tab_bar.tabs.len() - 1;
    let new_active = state.tab_bar.active_tab;
    let ghost s2 = *state;
    swap_tab_content(state, new_active);
    state.is_selecting = false;
    proof {
        let a = o.tab_bar.active_tab as int;
        let tabs = o.tab_bar.tabs@;
        assert(s2.tab_bar.tabs@[new_active as int] == Tab::File(c));
        if 0 <= a < tabs.len() && tabs[a] is File {
            assert(state.tab_bar.tabs@ =~= tabs.update(a, Tab::File(o.content)).push(
                Tab::File(tabs[a]->File_0),
            ));
        } else {
            assert(state.tab_bar.tabs@ =~= tabs.push(Tab::File(o.content)));
        }
    }
}

/// `n` is `o` after showing the text `b` for the file at `path`, with the
/// status `status`: in the active tab when it can be reused and the tab bar
/// is not empty, otherwise in a new tab.
pub open spec fn file_shown(
    o: EditorState,
    n: EditorState,
    path: String,
    b: TextBuffer,
    status: StatusMessage,
) -> bool {
    if can_reuse_tab(o) && o.tab_bar.tabs@.len() > 0 {
        &&& content_reset(
            TabContent { buffer: b, file_path: Some(path), ..o.content },
            n.content,
        )
        &&& n == EditorState { content: n.content, status: status, ..o }
    } else {
        &&& n.content.buffer == b
        &&& n.content.file_path == Some(path)
        &&& n.content.cursor_line == 0
        &&& n.content.cursor_col == 0
        &&& n.content.selection_start.is_none()
        &&& n.content.selection_end.is_none()
        &&& !n.content.is_dirty
        &&& n.content.scroll_y == 0
        &&& opened_in_new_tab(o, EditorState { status: o.status, ..n }, n.content)
        &&& n.status == status
    }
}

/// `n` is `o` after opening the text `b` of the file at `path` (see `file_shown`).
pub open spec fn file_opened(o: EditorState, n: EditorState, path: String, b: TextBuffer) -> bool {
    file_shown(o, n, path, b, StatusMessage::FileOpened)
}

/// Shows `buffer` for the file at `path` with the status `status` (see `file_shown`).
fn show_buffer(state: &mut EditorState, path: String, buffer: TextBuffer, status: StatusMessage)
    requires
        buffer.wf(),
        old(state).content.buffer_version < u64::MAX,
        old(state).tab_bar.tabs@.len() < usize::MAX,
    ensures
        file_shown(*old(state), *final(state), path, buffer, status),
        final(state).content.buffer.wf(),
{
    if can_reuse_current_tab(state) && state.tab_bar.tabs.len() > 0 {
        state.content.buffer = buffer;
        state.content.file_path = Some(path);
        reset_editor_state(state);
        state.status = status;
    } else {
        let c = TabContent::with_buffer(Some(path), buffer);
        open_in_new_tab(state, c);
        state.status = status;
    }
}

/// Shows the text `buffer` read from the file at `path`: it replaces the
/// active tab's empty, unnamed content when there is such a tab, otherwise
/// it opens in a new tab (see `file_opened`).
pub fn open_loaded_file(state: &mut EditorState, path: String, buffer: TextBuffer)
    requires
        buffer.wf(),
        old(state).content.buffer_version < u64::MAX,
        old(state).tab_bar.tabs@.len() < usize::MAX,
    ensures
        file_opened(*old(state), *final(state), path, buffer),
        final(state).content.buffer.wf(),
{
    show_buffer(state, path, buffer, StatusMessage::FileOpened);
}

/// Opens the file at `path` given what reading it gave: its bytes, shown
/// as in `open_loaded_file`, or an error, reported in the status bar.
pub fn load_file(state: &mut EditorState, path: String, read: Result<Vec<u8>, String>)
    requires
        old(state).wf(),
        old(state).content.buffer_version < u64::MAX,
        old(state).tab_bar.tabs@.len() < usize::MAX,
    ensures
        final(state).content.buffer.wf(),
        match read {
            Ok(bytes) => file_opened(
                *old(state),
                *final(state),
                path,
                final(state).content.buffer,
            ) && final(state).content.buffer@ == bytes@,
            Err(_) => *final(state) == (EditorState {
                status: StatusMessage::OpenFailed,
                ..*old(state)
            }),
        },
{
    match read {
        Ok(bytes) => {
            let buffer = TextBuffer::from_bytes(bytes);
            open_loaded_file(state, path, buffer);
        },
        Err(_) => {
            state.status = StatusMessage::OpenFailed;
        },
    }
}

/// The text shown for a file that cannot be opened: its extension and path.
pub open spec fn unsupported_file_text(path: Seq<char>, ext: Seq<char>) -> Seq<char> {
    "不支持的文件格式: ."@ + ext + "\n文件: "@ + path
}

/// Shows, for the file at `path` with extension `ext`, a note that its
/// format is not supported, as the text of a tab (see `file_shown`).
pub fn show_unsupported_file(state: &mut EditorState, path: String, ext: &str)
    requires
        old(state).content.buffer_version < u64::MAX,
        old(state).tab_bar.tabs@.len() < usize::MAX,
    ensures
        file_shown(
            *old(state),
            *final(state),
            path,
            final(state).content.buffer,
            StatusMessage::UnsupportedFile,
        ),
        final(state).content.buffer.wf(),
        final(state).content.buffer@ == encode_utf8(unsupported_file_text(path@, ext@)),
{
    let text = String::from_str("不支持的文件格式: .").concat(ext).concat("\n文件: ").concat(
        path.as_str(),
    );
    let buffer = TextBuffer::from_str(text.as_str());
    show_buffer(state, path, buffer, StatusMessage::UnsupportedFile);
}

/// The text shown in the tab of an image: a note naming the file.
pub open spec fn image_tab_text(path: Seq<char>) -> Seq<char> {
    "[图片预览] "@ + path
}

/// Opens the image at `path`: its tab (see `file_shown`) holds a note
/// naming it, and the window draws the picture over it.
pub fn load_image_file(state: &mut EditorState, path: String)
    requires
        old(state).content.buffer_version < u64::MAX,
        old(state).tab_bar.tabs@.len() < usize::MAX,
    ensures
        file_shown(
            *old(state),
            *final(state),
            path,
            final(state).content.buffer,
            StatusMessage::ImageOpened,
        ),
        final(state).content.buffer.wf(),
        final(state).content.buffer@ == encode_utf8(image_tab_text(path@)),
{
    let text = String::from_str("[图片预览] ").concat(path.as_str());
    let buffer = TextBuffer::from_str(text.as_str());
    show_buffer(state, path, buffer, StatusMessage::ImageOpened);
}

/// `n` is `o` with the workspace closed: no folder is open, none is to be
/// opened at the next start, the explorer has no tree, selection or input
/// row (its rows to be collected again), the active
/// content is an empty, unnamed, unmodified text with the cursor and view at
/// the top and no selection (its undo history and version are kept), the tab
/// bar holds a single empty tab, which is active, and the status says so.
pub open spec fn workspace_closed(o: EditorState, n: EditorState) -> bool {
    &&& n == EditorState {
        content: n.content,
        tab_bar: n.tab_bar,
        workspace: WorkspaceFolder { current_folder: None, ..o.workspace },
        explorer: FileTreeState {
            tree: None,
            selected: None,
            input: None,
            rows_dirty: true,
            ..o.explorer
        },
        last_workspace: None,
        status: StatusMessage::WorkspaceClosed,
        ..o
    }
    &&& n.content == TabContent {
        buffer: n.content.buffer,
        file_path: None,
        cursor_line: 0,
        cursor_col: 0,
        scroll_y: 0,
        selection_start: None,
        selection_end: None,
        is_dirty: false,
        ..o.content
    }
    &&& n.content.buffer.wf()
    &&& n.content.buffer@.len() == 0
    &&& n.tab_bar.active_tab == 0
    &&& n.tab_bar.tabs@.len() == 1
    &&& n.tab_bar.tabs@[0] is File
    &&& n.tab_bar.tabs@[0]->File_0.buffer@.len() == 0
    &&& n.tab_bar.tabs@[0]->File_0.file_path.is_none()
    &&& !n.tab_bar.tabs@[0]->File_0.is_dirty
}

/// Closes the workspace's files (see `workspace_closed`).
pub fn close_workspace(state: &mut EditorState)
    ensures
        workspace_closed(*old(state), *final(state)),
{
    state.workspace.current_folder = None;
    state.explorer.tree = None;
    state.explorer.selected = None;
    state.explorer.input = None;
    state.explorer.rows_dirty = true;
    state.last_workspace = None;
    state.content.file_path = None;
    state.content.buffer = TextBuffer::new();
    state.content.cursor_line = 0;
    state.content.cursor_col = 0;
    state.content.scroll_y = 0;
    state.content.selection_start = None;
    state.content.selection_end = None;
    state.content.is_dirty = false;
    let mut tabs: Vec<Tab> = Vec::new();
    tabs.push(Tab::File(TabContent::new()));
    state.tab_bar.tabs = tabs;
    state.tab_bar.active_tab = 0;
    state.status = StatusMessage::WorkspaceClosed;
}

/// Records the outcome of saving the active tab to its file: on success
/// the tab is no longer modified.  Without a file path there is nothing to
/// save to (the window offers "save as" instead).  Returns whether it was saved.
pub fn save_file(state: &mut EditorState, written: Result<(), String>) -> (saved: bool)
    ensures
        saved == (old(state).content.file_path.is_some() && written is Ok),
        *final(state) == (EditorState {
            content: TabContent {
                is_dirty: if saved {
                    false
                } else {
                    old(state).content.is_dirty
                },
                ..old(state).content
            },
            status: if old(state).content.file_path.is_none() {
                StatusMessage::NoFilePath
            } else if saved {
                StatusMessage::Saved
            } else {
                StatusMessage::SaveFailed
            },
            ..*old(state)
        }),
{
    if state.content.file_path.is_none() {
        state.status = StatusMessage::NoFilePath;
        return false;
    }
    match written {
        Ok(()) => {
            state.content.is_dirty = false;
            state.status = StatusMessage::Saved;
            true
        },
        Err(_) => {
            state.status = StatusMessage::SaveFailed;
            false
        },
    }
}

/// Records the outcome of saving the active tab under `path`: on success
/// `path` becomes the tab's file and the tab is no longer modified.
pub fn save_as(state: &mut EditorState, path: String, written: Result<(), String>) -> (saved: bool)
    ensures
        saved == written is Ok,
        saved ==> *final(state) == (EditorState {
            content: TabContent { file_path: Some(path), is_dirty: false, ..old(state).content },
            status: StatusMessage::Saved,
            ..*old(state)
        }),
        !saved ==> *final(state) == (EditorState {
            status: StatusMessage::SaveFailed,
            ..*old(state)
        }),
{
    match written {
        Ok(()) => {
            state.content.file_path = Some(path);
            state.content.is_dirty = false;
            state.status = StatusMessage::Saved;
            true
        },
        Err(_) => {
            state.status = StatusMessage::SaveFailed;
            false
        },
    }
}

impl EditorState {
    /// Closes the workspace's files (see the free function).
    pub fn close_workspace(&mut self)
        ensures
            workspace_closed(*old(self), *final(self)),
    {
        close_workspace(self)
    }

    /// Opens a file given what reading it gave (see the free function).
    pub fn load_file(&mut self, path: String, read: Result<Vec<u8>, String>)
        requires
            old(self).wf(),
            old(self).content.buffer_version < u64::MAX,
            old(self).tab_bar.tabs@.len() < usize::MAX,
        ensures
            final(self).content.buffer.wf(),
            match read {
                Ok(bytes) => file_opened(
                    *old(self),
                    *final(self),
                    path,
                    final(self).content.buffer,
                ) && final(self).content.buffer@ == bytes@,
                Err(_) => *final(self) == (EditorState {
                    status: StatusMessage::OpenFailed,
                    ..*old(self)
                }),
            },
    {
        load_file(self, path, read)
    }

    /// Records the outcome of saving the active tab (see the free function).
    pub fn save_file(&mut self, written: Result<(), String>) -> (saved: bool)
        ensures
            saved == (old(self).content.file_path.is_some() && written is Ok),
            *final(self) == (EditorState {
                content: TabContent {
                    is_dirty: if saved {
                        false
                    } else {
                        old(self).content.is_dirty
                    },
                    ..old(self).content
                },
                status: if old(self).content.file_path.is_none() {
                    StatusMessage::NoFilePath
                } else if saved {
                    StatusMessage::Saved
                } else {
                    StatusMessage::SaveFailed
                },
                ..*old(self)
            }),
    {
        save_file(self, written)
    }

    /// Records the outcome of saving the active tab under `path` (see the free function).
    pub fn save_as(&mut self, path: String, written: Result<(), String>) -> (saved: bool)
        ensures
            saved == written is Ok,
            saved ==> *final(self) == (EditorState {
                content: TabContent { file_path: Some(path), is_dirty: false, ..old(self).content },
                status: StatusMessage::Saved,
                ..*old(self)
            }),
            !saved ==> *final(self) == (EditorState {
                status: StatusMessage::SaveFailed,
                ..*old(self)
            }),
    {
        save_as(self, path, written)
    }
}

} // verus!
