//! Decisions of the interactive gallery: which key does what, how the
//! prompt editor reacts to keys, and how generation events move the status
//! line.

use vstd::prelude::*;
use crate::text::{chars_of, spec_trim, str_trim, string_from_chars};

verus! {

/// A key press, as far as the gallery distinguishes keys.
#[derive(Clone, Copy, Debug, PartialEq, Eq, Structural)]
pub enum Key {
    Left,
    Right,
    Home,
    End,
    Esc,
    Enter,
    Backspace,
    Char(char),
    Other,
}

/// What a key press asks the gallery to do.
#[derive(Clone, Copy, Debug, PartialEq, Eq, Structural)]
pub enum Action {
    Quit,
    Prev,
    Next,
    First,
    Last,
    Save,
    /// Open the settings panel (never saves).
    Settings,
    /// Discard the current slot.
    Discard,
    Rerun,
    Edit,
    Cancel,
    /// The prompt editor is open: the key goes to it.
    EditorKey,
    Ignore,
}

/// The key map: Ctrl-C always quits; while the prompt editor is open every
/// other key goes to it; otherwise arrows / `h` `l` navigate, Home / `g` and
/// End / `G` jump, space saves, `s` opens the settings panel, `x` discards
/// the current slot, `q` or Esc quits, `r` reruns, `e` edits the prompt and
/// `c` cancels the generation.
pub open spec fn spec_key_action(key: Key, ctrl: bool, editing: bool) -> Action {
    if key == Key::Char('c') && ctrl {
        Action::Quit
    } else if editing {
        Action::EditorKey
    } else {
        match key {
            Key::Left => Action::Prev,
            Key::Right => Action::Next,
            Key::Home => Action::First,
            Key::End => Action::Last,
            Key::Esc => Action::Quit,
            Key::Char(c) => if c == 'h' {
                Action::Prev
            } else if c == 'l' {
                Action::Next
            } else if c == 'g' {
                Action::First
            } else if c == 'G' {
                Action::Last
            } else if c == ' ' {
                Action::Save
            } else if c == 's' {
                Action::Settings
            } else if c == 'x' {
                Action::Discard
            } else if c == 'q' {
                Action::Quit
            } else if c == 'r' {
                Action::Rerun
            } else if c == 'e' {
                Action::Edit
            } else if c == 'c' {
                Action::Cancel
            } else {
                Action::Ignore
            },
            _ => Action::Ignore,
        }
    }
}

/// The action for `key` (with Ctrl held when `ctrl`), given whether the
/// prompt editor is open.
pub fn key_action(key: Key, ctrl: bool, editing: bool) -> (a: Action)
    ensures
        a == spec_key_action(key, ctrl, editing),
{
    if key == Key::Char('c') && ctrl {
        return Action::Quit;
    }
    if editing {
        return Action::EditorKey;
    }
    match key {
        Key::Left => Action::Prev,
        Key::Right => Action::Next,
        Key::Home => Action::First,
        Key::End => Action::Last,
        Key::Esc => Action::Quit,
        Key::Char(c) => {
            if c == 'h' {
                Action::Prev
            } else if c == 'l' {
                Action::Next
            } else if c == 'g' {
                Action::First
            } else if c == 'G' {
                Action::Last
            } else if c == ' ' {
                Action::Save
            } else if c == 's' {
                Action::Settings
            } else if c == 'x' {
                Action::Discard
            } else if c == 'q' {
                Action::Quit
            } else if c == 'r' {
                Action::Rerun
            } else if c == 'e' {
                Action::Edit
            } else if c == 'c' {
                Action::Cancel
            } else {
                Action::Ignore
            }
        },
        _ => Action::Ignore,
    }
}

/// What the prompt editor does with a key.
#[derive(Debug, PartialEq, Eq)]
pub enum PromptEdit {
    /// Keep editing this text.
    Editing(String),
    /// Close the editor and generate for this prompt.
    Submit(String),
    /// Close the editor without generating.
    Close,
}

/// Editor semantics: a character is appended, Backspace drops the last
/// character, Enter closes the editor and submits the trimmed text unless it
/// is empty, Esc closes it, other keys change nothing.
pub open spec fn spec_prompt_edit(text: Seq<char>, key: Key) -> (Option<Seq<char>>, Option<
    Seq<char>,
>) {
    match key {
        Key::Char(c) => (Some(text.push(c)), None),
        Key::Backspace => (Some(
            if text.len() > 0 {
                text.drop_last()
            } else {
                text
            },
        ), None),
        Key::Enter => (None, if spec_trim(text).len() > 0 {
            Some(spec_trim(text))
        } else {
            None
        }),
        Key::Esc => (None, None),
        _ => (Some(text), None),
    }
}

/// Apply `key` to the editor holding `text`: the first part of
/// `spec_prompt_edit` is the text still being edited, the second the prompt
/// submitted.
pub fn prompt_edit(text: &str, key: Key) -> (r: PromptEdit)
    ensures
        match r {
            PromptEdit::Editing(t) => spec_prompt_edit(text@, key) == (
                Some(t@),
                None::<Seq<char>>,
            ),
            PromptEdit::Submit(p) => spec_prompt_edit(text@, key) == (
                None::<Seq<char>>,
                Some(p@),
            ),
            PromptEdit::Close => spec_prompt_edit(text@, key) == (
                None::<Seq<char>>,
                None::<Seq<char>>,
            ),
        },
{
    match key {
        Key::Char(c) => {
            let mut v = chars_of(text);
            v.push(c);
            PromptEdit::Editing(string_from_chars(v.as_slice()))
        },
        Key::Backspace => {
            let mut v = chars_of(text);
            if v.len() > 0 {
                v.pop();
            }
            PromptEdit::Editing(string_from_chars(v.as_slice()))
        },
        Key::Enter => {
            let p = str_trim(text);
            let pv = chars_of(p.as_str());
            if pv.len() > 0 {
                PromptEdit::Submit(p)
            } else {
                PromptEdit::Close
            }
        },
        Key::Esc => PromptEdit::Close,
        _ => PromptEdit::Editing(string_from_chars(chars_of(text).as_slice())),
    }
}

/// The status line of a live gallery.
#[derive(Clone, Debug, PartialEq, Eq)]
pub enum Status {
    Loading,
    Generating { done: usize, total: u32, step: usize, steps: usize },
    Idle,
    Error(String),
}

/// Generation events that move the status line.
#[derive(Clone, Debug, PartialEq, Eq)]
pub enum StatusEvent {
    Loading,
    Loaded,
    BatchStarted { total: u32 },
    Step { step: usize, steps: usize },
    ImageReady,
    BatchDone,
    Error(String),
}

/// Status after `ev`: loading, loaded (idle), a batch of `total` starting, a
/// denoise step, an image ready (one more done), the batch done (idle), or an
/// error. Steps and finished images only count while generating.
pub open spec fn spec_next_status(s: Status, ev: StatusEvent) -> Status {
    match ev {
        StatusEvent::Loading => Status::Loading,
        StatusEvent::Loaded => Status::Idle,
        StatusEvent::BatchStarted { total } => Status::Generating {
            done: 0,
            total,
            step: 0,
            steps: 0,
        },
        StatusEvent::Step { step, steps } => match s {
            Status::Generating { done, total, .. } => Status::Generating { done, total, step, steps },
            _ => s,
        },
        StatusEvent::ImageReady => match s {
            Status::Generating { done, total, step, steps } => Status::Generating {
                done: (done + 1) as usize,
                total,
                step,
                steps,
            },
            _ => s,
        },
        StatusEvent::BatchDone => Status::Idle,
        StatusEvent::Error(e) => Status::Error(e),
    }
}

/// Move the status line by `ev`.
pub fn next_status(s: Status, ev: StatusEvent) -> (r: Status)
    requires
        ev is ImageReady ==> (s matches Status::Generating { done, .. } ==> done < usize::MAX),
    ensures
        r == spec_next_status(s, ev),
{
    match ev {
        StatusEvent::Loading => Status::Loading,
        StatusEvent::Loaded => Status::Idle,
        StatusEvent::BatchStarted { total } => Status::Generating { done: 0, total, step: 0, steps: 0 },
        StatusEvent::Step { step, steps } => match s {
            Status::Generating { done, total, .. } => Status::Generating { done, total, step, steps },
            _ => s,
        },
        StatusEvent::ImageReady => match s {
            Status::Generating { done, total, step, steps } => Status::Generating {
                done: done + 1,
                total,
                step,
                steps,
            },
            _ => s,
        },
        StatusEvent::BatchDone => Status::Idle,
        StatusEvent::Error(e) => Status::Error(e),
    }
}

/// Ctrl-C quits from every state, the prompt editor included.
pub proof fn lemma_ctrl_c_always_quits(editing: bool)
    ensures
        spec_key_action(Key::Char('c'), true, editing) == Action::Quit,
{
}

/// The README key table outside the prompt editor, with or without Ctrl
/// (except Ctrl-C): the arrows and `h`/`l` step to the previous / next
/// image, Home/`g` and End/`G` jump to the first / last, space saves, `s`
/// opens the settings, `x` discards, `r` reruns, `e` edits the prompt, `c`
/// cancels, `q` and Esc quit.
pub proof fn lemma_key_table(ctrl: bool)
    ensures
        spec_key_action(Key::Right, ctrl, false) == Action::Next,
        spec_key_action(Key::Char('l'), ctrl, false) == Action::Next,
        spec_key_action(Key::Left, ctrl, false) == Action::Prev,
        spec_key_action(Key::Char('h'), ctrl, false) == Action::Prev,
        spec_key_action(Key::Home, ctrl, false) == Action::First,
        spec_key_action(Key::Char('g'), ctrl, false) == Action::First,
        spec_key_action(Key::End, ctrl, false) == Action::Last,
        spec_key_action(Key::Char('G'), ctrl, false) == Action::Last,
        spec_key_action(Key::Char(' '), ctrl, false) == Action::Save,
        spec_key_action(Key::Char('s'), ctrl, false) == Action::Settings,
        spec_key_action(Key::Char('x'), ctrl, false) == Action::Discard,
        spec_key_action(Key::Char('r'), ctrl, false) == Action::Rerun,
        spec_key_action(Key::Char('e'), ctrl, false) == Action::Edit,
        spec_key_action(Key::Char('c'), false, false) == Action::Cancel,
        spec_key_action(Key::Char('q'), ctrl, false) == Action::Quit,
        spec_key_action(Key::Esc, ctrl, false) == Action::Quit,
{
}

/// Only space saves: `s` opens the settings panel and `x` discards, in
/// every state outside the prompt editor, with or without Ctrl.
pub proof fn lemma_only_space_saves(key: Key, ctrl: bool, editing: bool)
    ensures
        spec_key_action(key, ctrl, editing) == Action::Save ==> key == Key::Char(' ') && !editing,
        !editing ==> spec_key_action(Key::Char('s'), ctrl, editing) == Action::Settings,
        !editing ==> spec_key_action(Key::Char('x'), ctrl, editing) == Action::Discard,
{
}

/// Nothing but Ctrl-C escapes the open prompt editor: every other key goes
/// to it.
pub proof fn lemma_editor_captures_keys(key: Key, ctrl: bool)
    requires
        !(key == Key::Char('c') && ctrl),
    ensures
        spec_key_action(key, ctrl, true) == Action::EditorKey,
{
}

/// A submitted prompt is never empty and is already trimmed of the editor's
/// surrounding white space.
pub proof fn lemma_submitted_prompt_nonempty(text: Seq<char>, key: Key)
    requires
        spec_prompt_edit(text, key).1 is Some,
    ensures
        spec_prompt_edit(text, key).1->Some_0.len() > 0,
        spec_prompt_edit(text, key).1->Some_0 == spec_trim(text),
{
}

} // verus!
