# aether-win32

The editing core of a Windows code editor with an embedded browser and an
AI assistant, written in Verus. The functions in `src/` carry contracts that
Verus proves, except the few `#[verifier::external_body]` wrappers around
std and the `image` crate (character classes, UTF-8 decoding, lower-casing,
PNG encoding, the clock): their contracts are trusted, and each one's doc
comment says what it claims of the call it makes.

## Layout

- `src/` — the verified library.
  - `text_buffer`, `chars`, `motion`, `search`: the text as UTF-8 bytes with
    its line starts, char boundaries, word motion, byte search.
  - `state`: the editor state (tabs, cursor, undo history, viewport, status).
  - `cursor`, `find`, `ai_code`, `ai_edits`: cursor motion and selection,
    scrolling, find and replace, applying the assistant's code and edits.
  - `files`, `workspace`, `dialogs`: opening and saving files, the workspace
    folder, the new-project dialog.
  - `file_tree`: the explorer's tree of the workspace: its visible rows,
    node paths, finding the open file, and the input row for new files,
    new folders and renames.
  - `browser`: the address bar and the state of the embedded browser tabs.
  - `listing`, `tools`, `context`: what the assistant is shown of the
    workspace and of the open files.
  - `agent`: the assistant's agent mode: routing a finished reply, the task
    pipeline with its resume limit, and the summaries it writes.
  - `clipboard_image`, `scrollbar`, `terminal`, `undo_delete`: clipboard
    bitmaps, scrollbar pointer handling, terminal prompts, undoing deletes.
- `app/` — the window side: disk reads and writes (files, the workspace,
  the explorer's creations and renames), status bar text, and the pixel
  geometry of the scrollbars.
- `tests/` — tests of the library on concrete values.
