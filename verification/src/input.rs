//! The input controller: a state machine that turns one key event at a time
//! into edits of the query buffer and operations on the selection list, and
//! recognizes confirm and cancel.

use vstd::prelude::*;
use crate::selection::{
    SelectionState, down_cursor, page_down_cursor, page_up_cursor, up_cursor,
};

verus! {

/// One key event, already decoded from the terminal: the editing keys the
/// list reacts to, and `Other` for everything else (a resize among it),
/// which changes no state.
pub enum KeyInput {
    Insert(char),
    Backspace,
    CursorDown,
    CursorUp,
    PageDown,
    PageUp,
    Confirm,
    Cancel,
    Other,
}

/// What one handled key means for the surrounding event loop: keep going,
/// leave with the confirmed entry's full path, leave with nothing, or — only
/// out of an armed destructive confirmation — go ahead with the destructive
/// action on the selected entry's full path.
pub enum StepResult {
    Continue,
    Confirmed(String),
    Cancelled,
    DestructiveConfirmed(String),
}

/// The controller's state: ordinary editing, or awaiting the explicit
/// confirmation of a destructive action (such as killing a session). In the
/// latter, only the confirm key goes ahead; every other key backs out.
#[derive(Clone, Copy, Debug, PartialEq, Eq, Structural)]
pub enum InputMode {
    Editing,
    ConfirmDestructive,
}

/// The interactive state: whether the loop still runs, the controller mode,
/// the query buffer and the caret position within it, the catalog size shown
/// in the status line, and the selection list.
pub struct App {
    pub running: bool,
    pub mode: InputMode,
    pub input: String,
    pub cursor_pos: usize,
    pub total_items: usize,
    pub list: SelectionState,
}

/// Relies on String::push: appends one character to the end.
#[verifier::external_body]
fn push_char(s: &mut String, c: char)
    ensures
        final(s)@ == old(s)@.push(c),
{
    s.push(c)
}

/// Relies on String::pop: removes and returns the last character, if any.
#[verifier::external_body]
fn pop_char(s: &mut String) -> (r: Option<char>)
    ensures
        old(s)@.len() == 0 ==> final(s)@ == old(s)@ && r is None,
        old(s)@.len() > 0 ==> final(s)@ == old(s)@.drop_last() && r == Some(old(s)@.last()),
{
    s.pop()
}

impl App {
    /// Well-formed: the list invariant holds and the caret sits at the end
    /// of the query buffer.
    pub open spec fn wf(self) -> bool {
        &&& self.list.wf()
        &&& self.cursor_pos == self.input@.len()
    }

    /// A fresh controller over a selection list: running, with an empty
    /// query.
    pub fn new(list: SelectionState) -> (r: App)
        requires
            list.wf(),
        ensures
            r.wf(),
            r.running,
            r.mode is Editing,
            r.input@.len() == 0,
            r.total_items == list.catalog@.len(),
            r.list == list,
    {
        let total = list.catalog.len();
        App {
            running: true,
            mode: InputMode::Editing,
            input: String::new(),
            cursor_pos: 0,
            total_items: total,
            list,
        }
    }

    /// Arms the destructive confirmation: the next confirm key, and nothing
    /// else, goes ahead with the destructive action.
    pub fn begin_destructive_confirmation(&mut self)
        requires
            old(self).wf(),
        ensures
            final(self).wf(),
            *final(self) == (App { mode: InputMode::ConfirmDestructive, ..*old(self) }),
    {
        self.mode = InputMode::ConfirmDestructive;
    }

    /// The transition table while a destructive action awaits confirmation:
    /// the confirm key goes ahead with it on the selected entry, and any
    /// other key backs out; either way the controller returns to editing.
    pub open spec fn confirm_destructive_post(
        pre: App,
        post: App,
        key: KeyInput,
        r: StepResult,
    ) -> bool {
        &&& post == App { mode: InputMode::Editing, ..pre }
        &&& match key {
            KeyInput::Confirm => match pre.list.cursor {
                Some(i) => r matches StepResult::DestructiveConfirmed(p) && p@
                    == pre.list.ranked@[i as int].fullpath@,
                None => r is Continue,
            },
            _ => r is Continue,
        }
    }

    /// The transition table while editing: what one key does to the whole
    /// state, and which result it hands the event loop.
    pub open spec fn editing_post(pre: App, post: App, key: KeyInput, r: StepResult) -> bool {
        match key {
            KeyInput::Insert(c) => {
                &&& post.input@ == pre.input@.push(c)
                &&& SelectionState::apply_query_post(pre.list, post.list, post.input@)
                &&& post.running == pre.running
                &&& post.mode == pre.mode
                &&& post.total_items == pre.total_items
                &&& r is Continue
            },
            KeyInput::Backspace => {
                &&& post.input@ == if pre.input@.len() > 0 {
                    pre.input@.drop_last()
                } else {
                    pre.input@
                }
                &&& SelectionState::undo_post(pre.list, post.list)
                &&& post.running == pre.running
                &&& post.mode == pre.mode
                &&& post.total_items == pre.total_items
                &&& r is Continue
            },
            KeyInput::CursorDown => {
                &&& post == App {
                    list: post.list,
                    ..pre
                }
                &&& post.list == SelectionState {
                    cursor: down_cursor(pre.list.cursor, pre.list.ranked@.len()),
                    ..pre.list
                }
                &&& r is Continue
            },
            KeyInput::CursorUp => {
                &&& post == App { list: post.list, ..pre }
                &&& post.list == SelectionState { cursor: up_cursor(pre.list.cursor), ..pre.list }
                &&& r is Continue
            },
            KeyInput::PageDown => {
                &&& post == App { list: post.list, ..pre }
                &&& post.list == SelectionState {
                    cursor: page_down_cursor(pre.list.cursor, pre.list.ranked@.len()),
                    ..pre.list
                }
                &&& r is Continue
            },
            KeyInput::PageUp => {
                &&& post == App { list: post.list, ..pre }
                &&& post.list == SelectionState {
                    cursor: page_up_cursor(pre.list.cursor),
                    ..pre.list
                }
                &&& r is Continue
            },
            KeyInput::Confirm => {
                match pre.list.cursor {
                    Some(i) => {
                        &&& post == App { running: false, ..pre }
                        &&& (r matches StepResult::Confirmed(p) && p@
                            == pre.list.ranked@[i as int].fullpath@)
                    },
                    None => post == pre && r is Continue,
                }
            },
            KeyInput::Cancel => {
                &&& post == App { running: false, ..pre }
                &&& r is Cancelled
            },
            KeyInput::Other => post == pre && r is Continue,
        }
    }

    /// The whole transition table: one transition relation per state.
    pub open spec fn step_post(pre: App, post: App, key: KeyInput, r: StepResult) -> bool {
        match pre.mode {
            InputMode::Editing => Self::editing_post(pre, post, key, r),
            InputMode::ConfirmDestructive => Self::confirm_destructive_post(pre, post, key, r),
        }
    }

    /// The safety law of destructive actions: a destructive go-ahead comes
    /// only out of the armed confirmation state, only on the confirm key,
    /// and only for the selected entry's full path.
    pub proof fn lemma_destructive_needs_confirmation(
        pre: App,
        post: App,
        key: KeyInput,
        r: StepResult,
    )
        requires
            Self::step_post(pre, post, key, r),
        ensures
            r matches StepResult::DestructiveConfirmed(p) ==> pre.mode
                is ConfirmDestructive && key is Confirm && (pre.list.cursor matches Some(i) && p@
                == pre.list.ranked@[i as int].fullpath@),
    {
    }

    /// Handles one key event. No key blocks: each transition is one
    /// synchronous pass, a full catalog rescan at worst.
    pub fn handle_key(&mut self, key: KeyInput) -> (r: StepResult)
        requires
            old(self).wf(),
            old(self).input@.len() < usize::MAX,
        ensures
            final(self).wf(),
            Self::step_post(*old(self), *final(self), key, r),
    {
        match self.mode {
            InputMode::Editing => self.handle_key_editing(key),
            InputMode::ConfirmDestructive => {
                self.mode = InputMode::Editing;
                match key {
                    KeyInput::Confirm => {
                        match self.list.cursor {
                            Some(i) => StepResult::DestructiveConfirmed(
                                self.list.ranked[i].fullpath.clone(),
                            ),
                            None => StepResult::Continue,
                        }
                    },
                    _ => StepResult::Continue,
                }
            },
        }
    }

    /// Handles one key event while editing.
    fn handle_key_editing(&mut self, key: KeyInput) -> (r: StepResult)
        requires
            old(self).wf(),
            old(self).mode is Editing,
            old(self).input@.len() < usize::MAX,
        ensures
            final(self).wf(),
            Self::editing_post(*old(self), *final(self), key, r),
    {
        match key {
            KeyInput::Insert(c) => {
                push_char(&mut self.input, c);
                self.cursor_pos = self.cursor_pos + 1;
                let query = self.input.clone();
                self.list.apply_query(query.as_str());
                StepResult::Continue
            },
            KeyInput::Backspace => {
                pop_char(&mut self.input);
                if self.cursor_pos > 0 {
                    self.cursor_pos = self.cursor_pos - 1;
                }
                self.list.undo_last_edit();
                StepResult::Continue
            },
            KeyInput::CursorDown => {
                self.list.next();
                StepResult::Continue
            },
            KeyInput::CursorUp => {
                self.list.prev();
                StepResult::Continue
            },
            KeyInput::PageDown => {
                self.list.scroll_next();
                StepResult::Continue
            },
            KeyInput::PageUp => {
                self.list.scroll_prev();
                StepResult::Continue
            },
            KeyInput::Confirm => {
                match self.list.cursor {
                    Some(i) => {
                        self.running = false;
                        StepResult::Confirmed(self.list.ranked[i].fullpath.clone())
                    },
                    None => StepResult::Continue,
                }
            },
            KeyInput::Cancel => {
                self.running = false;
                StepResult::Cancelled
            },
            KeyInput::Other => StepResult::Continue,
        }
    }
}

} // verus!
