//! The new-project dialog: opening and closing it, and pasting into its name field.
use vstd::prelude::*;
use vstd::std_specs::iter::IteratorSpec;

use crate::state::{EditorState, NewProjectDialog, StatusMessage};

verus! {

broadcast use vstd::string::axiom_spec_iter, vstd::string::next_postcondition;

/// Characters a project name cannot hold: path separators, characters that
/// Windows forbids in file names, and line breaks.
pub open spec fn forbidden_in_project_name(c: char) -> bool {
    c == '\\' || c == '/' || c == ':' || c == '*' || c == '?' || c == '"' || c == '<' || c == '>'
        || c == '|' || c == '\n' || c == '\r'
}

/// The characters of `s` that a project name can hold, in order.
pub open spec fn project_name_chars(s: Seq<char>) -> Seq<char>
    decreases s.len(),
{
    if s.len() == 0 {
        Seq::empty()
    } else if forbidden_in_project_name(s.last()) {
        project_name_chars(s.drop_last())
    } else {
        project_name_chars(s.drop_last()).push(s.last())
    }
}

/// `n` is `o` with the new-project dialog opened afresh: empty name, no
/// error, caret blinking, and the status bar saying so.
pub open spec fn project_dialog_opened(o: EditorState, n: EditorState) -> bool {
    &&& n == (EditorState {
        new_project_dialog: n.new_project_dialog,
        status: StatusMessage::NewProject,
        ..o
    })
    &&& n.new_project_dialog.visible
    &&& n.new_project_dialog.caret_timer
    &&& n.new_project_dialog.project_name@.len() == 0
    &&& n.new_project_dialog.error_message.is_none()
}

/// Opens the new-project dialog afresh and starts its caret blink timer
/// (see `project_dialog_opened`).
pub fn new_project(state: &mut EditorState)
    ensures
        project_dialog_opened(*old(state), *final(state)),
{
    let mut dialog = NewProjectDialog::new();
    dialog.visible = true;
    dialog.caret_timer = true;
    state.new_project_dialog = dialog;
    state.status = StatusMessage::NewProject;
}

/// Closes the new-project dialog and stops its caret blink timer.
pub fn close_new_project_dialog(state: &mut EditorState)
    ensures
        *final(state) == (EditorState {
            new_project_dialog: NewProjectDialog {
                visible: false,
                caret_timer: false,
                ..old(state).new_project_dialog
            },
            ..*old(state)
        }),
{
    state.new_project_dialog.visible = false;
    state.new_project_dialog.caret_timer = false;
}

/// Pastes `clipboard` (the clipboard's text, when it holds text) into the
/// project name: the characters a name can hold are appended and the
/// dialog's error message is cleared.  Without text nothing changes.
pub fn paste_into_new_project_dialog(state: &mut EditorState, clipboard: Option<String>)
    ensures
        match clipboard {
            Some(text) => *final(state) == (EditorState {
                new_project_dialog: NewProjectDialog {
                    project_name: final(state).new_project_dialog.project_name,
                    error_message: None,
                    ..old(state).new_project_dialog
                },
                ..*old(state)
            }) && final(state).new_project_dialog.project_name@
                == old(state).new_project_dialog.project_name@ + project_name_chars(text@),
            None => *final(state) == *old(state),
        },
{
    if let Some(text) = clipboard {
        let ghost s = text@;
        let ghost name0 = state.new_project_dialog.project_name@;
        let mut it = text.as_str().chars();
        let ghost mut k: int = 0;
        loop
            invariant
                0 <= k <= s.len(),
                it.remaining() == s.subrange(k, s.len() as int),
                state.new_project_dialog.project_name@ == name0 + project_name_chars(
                    s.subrange(0, k),
                ),
                *state == (EditorState {
                    new_project_dialog: NewProjectDialog {
                        project_name: state.new_project_dialog.project_name,
                        ..old(state).new_project_dialog
                    },
                    ..*old(state)
                }),
            ensures
                k == s.len(),
                state.new_project_dialog.project_name@ == name0 + project_name_chars(s),
                *state == (EditorState {
                    new_project_dialog: NewProjectDialog {
                        project_name: state.new_project_dialog.project_name,
                        ..old(state).new_project_dialog
                    },
                    ..*old(state)
                }),
            decreases s.len() - k,
        {
            match it.next() {
                Some(c) => {
                    proof {
                        assert(c == s[k]);
                        assert(s.subrange(0, k + 1).drop_last() =~= s.subrange(0, k));
                        assert(s.subrange(0, k + 1).last() == c);
                        assert(s.subrange(k + 1, s.len() as int) =~= s.subrange(
                            k,
                            s.len() as int,
                        ).drop_first());
                    }
                    if !(c == '\\' || c == '/' || c == ':' || c == '*' || c == '?' || c == '"'
                        || c == '<' || c == '>' || c == '|' || c == '\n' || c == '\r') {
                        state.new_project_dialog.project_name.push(c);
                    }
                    proof {
                        assert(state.new_project_dialog.project_name@ =~= name0
                            + project_name_chars(s.subrange(0, k + 1)));
                        k = k + 1;
                    }
                },
                None => {
                    proof {
                        assert(s.subrange(0, s.len() as int) =~= s);
                    }
                    break ;
                },
            }
        }
        state.new_project_dialog.error_message = None;
    }
}

/// Confirms the new-project dialog, given what checking its name gave
/// (`validation`): a refused name puts the reason into the dialog, which
/// stays open, and `false` comes back; an accepted one closes the dialog
/// and stops its caret timer, and `true` tells the caller to create the
/// project folder and open it.
pub fn confirm_new_project(state: &mut EditorState, validation: Result<(), String>) -> (go: bool)
    ensures
        go == validation.is_ok(),
        match validation {
            Err(e) => *final(state) == (EditorState {
                new_project_dialog: NewProjectDialog {
                    error_message: Some(e),
                    ..old(state).new_project_dialog
                },
                ..*old(state)
            }),
            Ok(()) => *final(state) == (EditorState {
                new_project_dialog: NewProjectDialog {
                    visible: false,
                    caret_timer: false,
                    ..old(state).new_project_dialog
                },
                ..*old(state)
            }),
        },
{
    match validation {
        Err(e) => {
            state.new_project_dialog.error_message = Some(e);
            false
        },
        Ok(()) => {
            close_new_project_dialog(state);
            true
        },
    }
}

impl EditorState {
    /// Opens the new-project dialog (see the free function).
    pub fn new_project(&mut self)
        ensures
            project_dialog_opened(*old(self), *final(self)),
    {
        new_project(self)
    }

    /// Closes the new-project dialog (see the free function).
    pub fn close_new_project_dialog(&mut self)
        ensures
            *final(self) == (EditorState {
                new_project_dialog: NewProjectDialog {
                    visible: false,
                    caret_timer: false,
                    ..old(self).new_project_dialog
                },
                ..*old(self)
            }),
    {
        close_new_project_dialog(self)
    }

    /// Pastes clipboard text into the project name (see the free function).
    pub fn paste_into_new_project_dialog(&mut self, clipboard: Option<String>)
        ensures
            match clipboard {
                Some(text) => *final(self) == (EditorState {
                    new_project_dialog: NewProjectDialog {
                        project_name: final(self).new_project_dialog.project_name,
                        error_message: None,
                        ..old(self).new_project_dialog
                    },
                    ..*old(self)
                }) && final(self).new_project_dialog.project_name@
                    == old(self).new_project_dialog.project_name@ + project_name_chars(text@),
                None => *final(self) == *old(self),
            },
    {
        paste_into_new_project_dialog(self, clipboard)
    }
}

/// A pasted project name never holds a path separator, a character Windows
/// forbids in file names, or a line break.
pub proof fn law_pasted_name_is_clean(s: Seq<char>)
    ensures
        forall|i: int|
            0 <= i < project_name_chars(s).len() ==> !forbidden_in_project_name(
                #[trigger] project_name_chars(s)[i],
            ),
    decreases s.len(),
{
    if s.len() > 0 {
        law_pasted_name_is_clean(s.drop_last());
        let p = project_name_chars(s.drop_last());
        if !forbidden_in_project_name(s.last()) {
            assert forall|i: int| 0 <= i < p.push(s.last()).len() implies !forbidden_in_project_name(
                #[trigger] p.push(s.last())[i],
            ) by {
                if i < p.len() {
                    assert(p.push(s.last())[i] == p[i]);
                }
            }
        }
    }
}

} // verus!
