//! The editor state that the cursor, find/replace and code-insertion logic
//! works on: the active tab's content (text, cursor, selection, undo history,
//! scroll offsets), the tab bar, extra cursors, the find panel and the
//! viewport geometry, all in plain integers.
use vstd::prelude::*;

use crate::file_tree::FileTreeState;
use crate::find::FindState;
use crate::text_buffer::TextBuffer;

verus! {

/// A (line, byte column) position recorded in the undo history.
#[derive(Clone, Copy, Debug, PartialEq, Eq, Structural)]
pub struct CursorPosition {
    pub line: usize,
    pub column: usize,
}

impl CursorPosition {
    pub fn new(line: usize, column: usize) -> (r: Self)
        ensures
            r == (CursorPosition { line, column }),
    {
        CursorPosition { line, column }
    }
}

/// An extra cursor at (line, byte column).
#[derive(Clone, Copy, Debug, PartialEq, Eq, Structural)]
pub struct Cursor {
    pub line: usize,
    pub col: usize,
}

impl Cursor {
    pub fn new(line: usize, col: usize) -> (r: Self)
        ensures
            r == (Cursor { line, col }),
    {
        Cursor { line, col }
    }
}

/// The extra cursors added with Ctrl+Alt+Up/Down and Ctrl+D, in the order added.
pub struct MultiCursor {
    pub cursors: Vec<Cursor>,
}

impl MultiCursor {
    pub fn new() -> (r: Self)
        ensures
            r.cursors@ == Seq::<Cursor>::empty(),
    {
        MultiCursor { cursors: Vec::new() }
    }

    pub fn add_cursor(&mut self, c: Cursor)
        ensures
            final(self).cursors@ == old(self).cursors@.push(c),
    {
        self.cursors.push(c);
    }

    pub fn cursor_count(&self) -> (r: usize)
        ensures
            r == self.cursors@.len(),
    {
        self.cursors.len()
    }
}

/// One recorded edit: `removed` was replaced by `inserted` at byte offset `pos`.
pub struct EditRecord {
    pub pos: usize,
    pub removed: Vec<u8>,
    pub inserted: Vec<u8>,
    pub cursor_before: CursorPosition,
    pub cursor_after: CursorPosition,
    /// The undo group the edit belongs to (edits of one group undo together).
    pub group: Option<usize>,
}

/// The undo history of a tab.
pub struct EditHistory {
    pub records: Vec<EditRecord>,
    /// The group that edits are currently added to, if one is open.
    pub open_group: Option<usize>,
    /// Number of groups opened so far (the id of the next group).
    pub groups_opened: usize,
}

impl EditHistory {
    pub fn new() -> (r: Self)
        ensures
            r.records@.len() == 0,
            r.open_group.is_none(),
            r.groups_opened == 0,
    {
        EditHistory { records: Vec::new(), open_group: None, groups_opened: 0 }
    }

    /// Records that `removed` at `pos` was replaced by `inserted`.
    pub fn record_replace(
        &mut self,
        pos: usize,
        removed: Vec<u8>,
        inserted: &[u8],
        cursor_before: CursorPosition,
        cursor_after: CursorPosition,
    )
        ensures
            final(self).open_group == old(self).open_group,
            final(self).groups_opened == old(self).groups_opened,
            final(self).records@.len() == old(self).records@.len() + 1,
            forall|i: int|
                0 <= i < old(self).records@.len() ==> final(self).records@[i] == old(
                    self,
                ).records@[i],
            ({
                let r = final(self).records@.last();
                &&& r.pos == pos
                &&& r.removed@ == removed@
                &&& r.inserted@ == inserted@
                &&& r.cursor_before == cursor_before
                &&& r.cursor_after == cursor_after
                &&& r.group == old(self).open_group
            }),
    {
        let inserted = vstd::slice::slice_to_vec(inserted);
        let group = self.open_group;
        self.records.push(
            EditRecord { pos, removed, inserted, cursor_before, cursor_after, group },
        );
    }

    /// Records that `inserted` was inserted at `pos`.
    pub fn record_insert(
        &mut self,
        pos: usize,
        inserted: &[u8],
        cursor_before: CursorPosition,
        cursor_after: CursorPosition,
    )
        ensures
            final(self).open_group == old(self).open_group,
            final(self).groups_opened == old(self).groups_opened,
            final(self).records@.len() == old(self).records@.len() + 1,
            forall|i: int|
                0 <= i < old(self).records@.len() ==> final(self).records@[i] == old(
                    self,
                ).records@[i],
            ({
                let r = final(self).records@.last();
                &&& r.pos == pos
                &&& r.removed@.len() == 0
                &&& r.inserted@ == inserted@
                &&& r.cursor_before == cursor_before
                &&& r.cursor_after == cursor_after
                &&& r.group == old(self).open_group
            }),
    {
        self.record_replace(pos, Vec::new(), inserted, cursor_before, cursor_after);
    }

    /// Forgets every recorded edit and closes the open group.
    pub fn clear(&mut self)
        ensures
            final(self).records@.len() == 0,
            final(self).open_group.is_none(),
            final(self).groups_opened == old(self).groups_opened,
    {
        self.records = Vec::new();
        self.open_group = None;
    }

    /// Opens a new undo group: the edits recorded until `end_group` undo together.
    pub fn begin_group(&mut self)
        requires
            old(self).groups_opened < usize::MAX,
        ensures
            final(self).records@ == old(self).records@,
            final(self).open_group == Some(old(self).groups_opened),
            final(self).groups_opened == old(self).groups_opened + 1,
    {
        self.open_group = Some(self.groups_opened);
        self.groups_opened = self.groups_opened + 1;
    }

    /// Closes the open undo group.
    pub fn end_group(&mut self)
        ensures
            final(self).records@ == old(self).records@,
            final(self).open_group.is_none(),
            final(self).groups_opened == old(self).groups_opened,
    {
        self.open_group = None;
    }
}

/// The content of a file tab.
pub struct TabContent {
    pub buffer: TextBuffer,
    pub file_path: Option<String>,
    /// Cursor line (0-based).
    pub cursor_line: usize,
    /// Cursor column as a byte offset into the line.
    pub cursor_col: usize,
    pub selection_start: Option<(usize, usize)>,
    pub selection_end: Option<(usize, usize)>,
    pub is_dirty: bool,
    /// Bumped on every change of the text.
    pub buffer_version: u64,
    pub history: EditHistory,
    /// Horizontal scroll offset in logical pixels.
    pub scroll_x: u64,
    /// Vertical scroll offset in logical pixels.
    pub scroll_y: u64,
    /// Cached top offset (logical pixels) of every line.
    pub line_y_offsets: Vec<u64>,
    /// Line count for which `line_y_offsets` was built.
    pub line_y_offsets_cached_lines: usize,
    /// The file is large: only the lines shown are ever measured.
    pub is_large_file: bool,
    /// Cached display width (in columns) of the widest line measured.
    pub content_width_chars: usize,
    /// Text version for which `content_width_chars` was measured, if any.
    pub content_width_version: Option<u64>,
    /// The file was deleted from disk; its text is kept here so that the
    /// deletion can be undone.
    pub deleted_from_disk: bool,
}

impl TabContent {
    /// An empty, unnamed tab content.
    pub fn new() -> (r: Self)
        ensures
            r.buffer.wf(),
            r.buffer@.len() == 0,
            r.file_path.is_none(),
            r.cursor_line == 0,
            r.cursor_col == 0,
            r.selection_start.is_none(),
            r.selection_end.is_none(),
            !r.is_dirty,
    {
        TabContent::with_buffer(None, TextBuffer::new())
    }

    /// Tab content showing `buffer`, cursor at the start.
    pub fn with_buffer(file_path: Option<String>, buffer: TextBuffer) -> (r: Self)
        ensures
            r.buffer == buffer,
            r.file_path == file_path,
            r.cursor_line == 0,
            r.cursor_col == 0,
            r.selection_start.is_none(),
            r.selection_end.is_none(),
            !r.is_dirty,
            r.buffer_version == 0,
            r.scroll_x == 0,
            r.scroll_y == 0,
            !r.is_large_file,
            r.content_width_chars == 0,
            r.content_width_version.is_none(),
            !r.deleted_from_disk,
    {
        TabContent {
            buffer,
            file_path,
            cursor_line: 0,
            cursor_col: 0,
            selection_start: None,
            selection_end: None,
            is_dirty: false,
            buffer_version: 0,
            history: EditHistory::new(),
            scroll_x: 0,
            scroll_y: 0,
            line_y_offsets: Vec::new(),
            line_y_offsets_cached_lines: 0,
            is_large_file: false,
            content_width_chars: 0,
            content_width_version: None,
            deleted_from_disk: false,
        }
    }
}

/// A tab of the tab bar.
pub enum Tab {
    File(TabContent),
    /// An embedded browser tab, by browser instance id.
    Browser(usize),
    Welcome,
}

impl Tab {
    /// Marks a file tab as modified.
    pub fn mark_dirty(&mut self)
        ensures
            match (*old(self), *final(self)) {
                (Tab::File(a), Tab::File(b)) => b == (TabContent { is_dirty: true, ..a }),
                (Tab::File(_), _) => false,
                (x, y) => y == x,
            },
    {
        match self {
            Tab::File(c) => {
                c.is_dirty = true;
            },
            _ => {},
        }
    }
}

pub struct TabBar {
    pub tabs: Vec<Tab>,
    pub active_tab: usize,
}

/// Geometry of the editor view in logical pixels.
#[derive(Clone, Copy, Debug, PartialEq, Eq, Structural)]
pub struct Viewport {
    pub line_height: u32,
    pub char_width: u32,
    /// Width of the editor region.
    pub editor_width: u32,
    /// Height of the editor region.
    pub editor_height: u32,
    /// Height of the editor content region (the editor region less the tab bar).
    pub content_height: u32,
}

/// The status bar message, by kind; the text is rendered by the window.
#[derive(Clone, Copy, Debug, PartialEq, Eq, Structural)]
pub enum StatusMessage {
    Empty,
    /// Cursor added; the number of extra cursors.
    CursorAdded(usize),
    /// Replace all; the number of replacements.
    Replaced(usize),
    AiCodeApplied,
    AiCodeInserted,
    /// A file was opened (its path is the active tab's).
    FileOpened,
    /// The active tab was saved.
    Saved,
    /// Saving failed: the active tab has no file path yet.
    NoFilePath,
    /// Reading a file failed.
    OpenFailed,
    /// Writing a file failed.
    SaveFailed,
    /// The new-project dialog is open.
    NewProject,
    /// A code block of the assistant was saved to the active tab's file.
    CodeBlockSaved,
    /// The active tab's file has a format that cannot be shown.
    UnsupportedFile,
    /// The active tab shows an image.
    ImageOpened,
    /// The workspace was closed.
    WorkspaceClosed,
    /// The workspace folder's entries are being read.
    ScanningFolder,
    /// The workspace folder is open (its path is the workspace's).
    FolderOpened,
    /// The folder could not be opened.
    OpenFolderFailed,
}

/// The open workspace folder and the reading of its entries.
pub struct WorkspaceFolder {
    /// The workspace folder, if one is open.
    pub current_folder: Option<String>,
    /// Its entries are still being read.
    pub is_loading: bool,
    /// Changes each time a folder is opened: entries read for an earlier
    /// generation are dropped.
    pub generation: u64,
}

/// The state of the new-project dialog.
pub struct NewProjectDialog {
    pub visible: bool,
    pub project_name: Vec<char>,
    pub error_message: Option<String>,
    /// Whether the caret blink timer runs.
    pub caret_timer: bool,
}

impl NewProjectDialog {
    /// A hidden dialog with an empty name.
    pub fn new() -> (r: Self)
        ensures
            !r.visible,
            r.project_name@.len() == 0,
            r.error_message.is_none(),
            !r.caret_timer,
    {
        NewProjectDialog {
            visible: false,
            project_name: Vec::new(),
            error_message: None,
            caret_timer: false,
        }
    }
}

/// The editor window state the library works on.
pub struct EditorState {
    /// The active tab's content.
    pub content: TabContent,
    pub find: FindState,
    pub multi_cursor: MultiCursor,
    pub is_selecting: bool,
    pub tab_bar: TabBar,
    pub viewport: Viewport,
    pub status: StatusMessage,
    /// Agent mode (browser and editor live in the right panel).
    pub agent_mode: bool,
    pub right_panel_visible: bool,
    pub new_project_dialog: NewProjectDialog,
    pub workspace: WorkspaceFolder,
    /// The explorer side bar with the workspace tree.
    pub explorer: FileTreeState,
    /// The workspace to open again at the next start.
    pub last_workspace: Option<String>,
}

impl EditorState {
    pub open spec fn wf(&self) -> bool {
        self.content.buffer.wf()
    }
}

/// The text that undoing `rec` on `text` gives: the `inserted` bytes at
/// `pos` replaced by the `removed` ones.
pub open spec fn undo_record(text: Seq<u8>, rec: EditRecord) -> Seq<u8> {
    text.subrange(0, rec.pos as int) + rec.removed@ + text.subrange(
        rec.pos + rec.inserted@.len(),
        text.len() as int,
    )
}

impl EditorState {
    /// An editor showing `content` in its only tab (classic mode, right
    /// panel shown, find panel and dialogs hidden).
    pub fn new(content: TabContent, viewport: Viewport) -> (r: Self)
        ensures
            r.content == content,
            r.viewport == viewport,
            r.tab_bar.tabs@.len() == 1,
            r.tab_bar.tabs@[0] is File,
            r.tab_bar.active_tab == 0,
            r.multi_cursor.cursors@.len() == 0,
            !r.is_selecting,
            r.status == StatusMessage::Empty,
            !r.agent_mode,
            r.right_panel_visible,
            r.find.query@.len() == 0,
            r.find.results@.len() == 0,
            !r.find.visible,
            !r.new_project_dialog.visible,
            r.workspace.current_folder.is_none(),
            !r.workspace.is_loading,
            r.workspace.generation == 0,
            r.explorer.tree.is_none(),
            r.explorer.selected.is_none(),
            r.explorer.input.is_none(),
            r.last_workspace.is_none(),
    {
        EditorState {
            content,
            find: FindState::new(),
            multi_cursor: MultiCursor::new(),
            is_selecting: false,
            tab_bar: TabBar { tabs: vec![Tab::File(TabContent::new())], active_tab: 0 },
            viewport,
            status: StatusMessage::Empty,
            agent_mode: false,
            right_panel_visible: true,
            new_project_dialog: NewProjectDialog::new(),
            workspace: WorkspaceFolder { current_folder: None, is_loading: false, generation: 0 },
            explorer: FileTreeState {
                tree: None,
                selected: None,
                root_expanded: false,
                rows_dirty: false,
                input: None,
            },
            last_workspace: None,
        }
    }
}

/// The text that undoing the records `recs` on `text` gives, the last
/// record first (the order undo takes them in).
pub open spec fn undo_records(text: Seq<u8>, recs: Seq<EditRecord>) -> Seq<u8>
    decreases recs.len(),
{
    if recs.len() == 0 {
        text
    } else {
        undo_records(undo_record(text, recs.last()), recs.drop_last())
    }
}

} // verus!
