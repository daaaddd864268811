//! The workspace folder: opening it while its entries are read in the
//! background (results of an earlier opening are dropped), and the short
//! hash under which its assistant sessions are stored (64-bit FNV-1a of the
//! path, as 16 lower-case hex digits).
use vstd::prelude::*;
use vstd::utf8::encode_utf8;

use crate::chars::{ascii_chars, lemma_ascii_chars, string_from_utf8};
use crate::state::{EditorState, StatusMessage, WorkspaceFolder};
use crate::file_tree::FileTreeState;

verus! {

/// FNV-1a 64-bit offset basis.
pub const FNV_OFFSET_BASIS: u64 = 0xcbf29ce484222325;

/// FNV-1a 64-bit prime.
pub const FNV_PRIME: u64 = 0x100000001b3;

/// 64-bit FNV-1a hash of `b`: starting from the offset basis, each byte is
/// xor-ed in and the hash multiplied by the prime, modulo 2^64.
pub open spec fn fnv1a(b: Seq<u8>) -> u64
    decreases b.len(),
{
    if b.len() == 0 {
        FNV_OFFSET_BASIS
    } else {
        vstd::wrapping::u64_specs::wrapping_mul(fnv1a(b.drop_last()) ^ (b.last() as u64), FNV_PRIME)
    }
}

/// Lower-case hexadecimal digit of `d` (0..16).
pub open spec fn hex_lower(d: int) -> u8 {
    if d < 10 {
        (0x30 + d) as u8
    } else {
        (0x61 + d - 10) as u8
    }
}

/// The last `n` hexadecimal digits of `v`, most significant first.
pub open spec fn hex_digits(v: nat, n: nat) -> Seq<u8>
    decreases n,
{
    if n == 0 {
        Seq::empty()
    } else {
        hex_digits(v / 16, (n - 1) as nat).push(hex_lower((v % 16) as int))
    }
}

/// The hash name of a workspace path: `{:016x}` of its FNV-1a hash.
pub open spec fn spec_workspace_hash(path: Seq<char>) -> Seq<char> {
    ascii_chars(hex_digits(fnv1a(encode_utf8(path)) as nat, 16))
}

/// 64-bit FNV-1a hash of `b`.
pub fn fnv1a_hash(b: &[u8]) -> (h: u64)
    ensures
        h == fnv1a(b@),
{
    let mut h: u64 = FNV_OFFSET_BASIS;
    let mut i: usize = 0;
    while i < b.len()
        invariant
            i <= b@.len(),
            h == fnv1a(b@.subrange(0, i as int)),
        decreases b@.len() - i,
    {
        proof {
            assert(b@.subrange(0, i + 1).drop_last() =~= b@.subrange(0, i as int));
        }
        h = (h ^ (b[i] as u64)).wrapping_mul(FNV_PRIME);
        i = i + 1;
    }
    proof {
        assert(b@.subrange(0, b@.len() as int) =~= b@);
    }
    h
}

/// Appends the last `n` hexadecimal digits of `v`, most significant first.
fn push_hex_digits(v: u64, n: usize, out: &mut Vec<u8>)
    ensures
        final(out)@ == old(out)@ + hex_digits(v as nat, n as nat),
    decreases n,
{
    if n > 0 {
        push_hex_digits(v / 16, n - 1, out);
        let d = (v % 16) as u8;
        let c = if d < 10 {
            0x30 + d
        } else {
            0x61 + (d - 10)
        };
        out.push(c);
        proof {
            assert(out@ =~= old(out)@ + hex_digits(v as nat, n as nat));
        }
    }
}

/// Hexadecimal digits are ASCII.
proof fn lemma_hex_digits_ascii(v: nat, n: nat)
    ensures
        hex_digits(v, n).len() == n,
        forall|i: int| 0 <= i < n ==> #[trigger] hex_digits(v, n)[i] < 0x80,
    decreases n,
{
    if n > 0 {
        lemma_hex_digits_ascii(v / 16, (n - 1) as nat);
        let p = hex_digits(v / 16, (n - 1) as nat);
        assert forall|i: int| 0 <= i < n implies #[trigger] hex_digits(v, n)[i] < 0x80 by {
            if i < n - 1 {
                assert(hex_digits(v, n)[i] == p[i]);
            }
        }
    }
}

/// The short hash naming the workspace at `path` (the path's text as the
/// platform shows it): 16 lower-case hex digits of its FNV-1a hash.
pub fn workspace_path_hash(path: &str) -> (r: String)
    ensures
        r@ == spec_workspace_hash(path@),
{
    let h = fnv1a_hash(path.as_bytes());
    let mut out: Vec<u8> = Vec::new();
    push_hex_digits(h, 16, &mut out);
    proof {
        assert(out@ =~= hex_digits(h as nat, 16));
        lemma_hex_digits_ascii(h as nat, 16);
        lemma_ascii_chars(out@);
    }
    let r = string_from_utf8(out);
    proof {
        vstd::utf8::encode_utf8_decode_utf8(r@);
        vstd::utf8::encode_utf8_decode_utf8(ascii_chars(hex_digits(h as nat, 16)));
    }
    r
}

/// The generation after `g` (wrapping around).
pub open spec fn next_generation(g: u64) -> u64 {
    vstd::wrapping::u64_specs::wrapping_add(g, 1)
}

/// `o` once the folder at `path` is opened: it is current and loading under
/// the next generation, it is the workspace to open at the next start, the
/// old tree with its selection and input row is dropped until the scan
/// delivers the new one, and the status says it is being scanned.
pub open spec fn folder_opening(o: EditorState, path: String) -> EditorState {
    EditorState {
        workspace: WorkspaceFolder {
            current_folder: Some(path),
            is_loading: true,
            generation: next_generation(o.workspace.generation),
        },
        explorer: FileTreeState {
            tree: None,
            selected: None,
            input: None,
            rows_dirty: true,
            ..o.explorer
        },
        last_workspace: Some(path),
        status: StatusMessage::ScanningFolder,
        ..o
    }
}

/// Opens the folder at `path` as the workspace, given whether it could be
/// read (`readable`).  When it could, a new generation of reading its
/// entries starts (see `folder_opening`) and is returned; otherwise only
/// the status changes.
pub fn open_folder(state: &mut EditorState, path: String, readable: Result<(), String>) -> (generation:
    Option<u64>)
    ensures
        match readable {
            Ok(()) => {
                &&& generation == Some(next_generation(old(state).workspace.generation))
                &&& *final(state) == folder_opening(*old(state), path)
            },
            Err(_) => {
                &&& generation.is_none()
                &&& *final(state) == (EditorState {
                    status: StatusMessage::OpenFolderFailed,
                    ..*old(state)
                })
            },
        },
{
    match readable {
        Err(_) => {
            state.status = StatusMessage::OpenFolderFailed;
            None
        },
        Ok(()) => {
            let g = state.workspace.generation.wrapping_add(1);
            state.explorer.tree = None;
            state.explorer.selected = None;
            state.explorer.input = None;
            state.explorer.rows_dirty = true;
            state.last_workspace = Some(path.clone());
            state.workspace = WorkspaceFolder {
                current_folder: Some(path),
                is_loading: true,
                generation: g,
            };
            state.status = StatusMessage::ScanningFolder;
            Some(g)
        },
    }
}

/// What the window does with a batch of entries read for a workspace folder.
#[derive(Clone, Copy, Debug, PartialEq, Eq, Structural)]
pub enum ScanStep {
    /// The batch belongs to an earlier opening: drop it.
    Stale,
    /// Add the batch's entries to the file tree.
    AddEntries,
    /// Reading is over; the folder is open (the window looks at its
    /// repository and opens its README in an empty tab).
    Finished,
}

/// What a batch read for the opening `generation` comes to in `o`
/// (`complete`: it is the last, empty one).
pub open spec fn scan_step(o: EditorState, generation: u64, complete: bool) -> ScanStep {
    if generation != o.workspace.generation {
        ScanStep::Stale
    } else if !complete {
        ScanStep::AddEntries
    } else {
        ScanStep::Finished
    }
}

/// `o` after taking such a batch: only the last batch of the current
/// generation changes it, ending loading and, with a folder open, saying
/// that the folder is open.
pub open spec fn after_scan_batch(o: EditorState, generation: u64, complete: bool) -> EditorState {
    if scan_step(o, generation, complete) == ScanStep::Finished {
        EditorState {
            workspace: WorkspaceFolder { is_loading: false, ..o.workspace },
            status: if o.workspace.current_folder.is_some() {
                StatusMessage::FolderOpened
            } else {
                o.status
            },
            ..o
        }
    } else {
        o
    }
}

/// Takes a batch read for the opening `generation` (see `scan_step` and
/// `after_scan_batch`).
pub fn on_folder_scan_batch(state: &mut EditorState, generation: u64, complete: bool) -> (step:
    ScanStep)
    ensures
        step == scan_step(*old(state), generation, complete),
        *final(state) == after_scan_batch(*old(state), generation, complete),
{
    if generation != state.workspace.generation {
        return ScanStep::Stale;
    }
    if !complete {
        return ScanStep::AddEntries;
    }
    state.workspace.is_loading = false;
    if state.workspace.current_folder.is_some() {
        state.status = StatusMessage::FolderOpened;
    }
    ScanStep::Finished
}

impl EditorState {
    /// Opens a folder as the workspace (see the free function).
    pub fn open_folder(&mut self, path: String, readable: Result<(), String>) -> (generation: Option<
        u64,
    >)
        ensures
            match readable {
                Ok(()) => {
                    &&& generation == Some(next_generation(old(self).workspace.generation))
                    &&& *final(self) == folder_opening(*old(self), path)
                },
                Err(_) => {
                    &&& generation.is_none()
                    &&& *final(self) == (EditorState {
                        status: StatusMessage::OpenFolderFailed,
                        ..*old(self)
                    })
                },
            },
    {
        open_folder(self, path, readable)
    }

    /// Takes a batch of a folder's entries (see the free function).
    pub fn on_folder_scan_batch(&mut self, generation: u64, complete: bool) -> (step: ScanStep)
        ensures
            step == scan_step(*old(self), generation, complete),
            *final(self) == after_scan_batch(*old(self), generation, complete),
    {
        on_folder_scan_batch(self, generation, complete)
    }
}

/// Once a folder is opened, entries read for the opening before it are
/// dropped and change nothing, whether or not they are the last ones.
pub proof fn law_earlier_scan_is_dropped(o: EditorState, path: String, complete: bool)
    ensures
        scan_step(folder_opening(o, path), o.workspace.generation, complete) == ScanStep::Stale,
        after_scan_batch(folder_opening(o, path), o.workspace.generation, complete)
            == folder_opening(o, path),
{
    let g = o.workspace.generation;
    assert(vstd::wrapping::u64_specs::wrapping_add(g, 1) != g) by (bit_vector);
}

} // verus!
