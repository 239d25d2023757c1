//! What the clipboard shortcuts do to a plain text buffer.

use vstd::prelude::*;

use crate::text::{filter_text, filtered, CharFilter};

verus! {

/// What the buffer's owner should do after a clipboard shortcut.
pub enum ClipboardAction {
    /// Buffer was replaced with a new value.
    Replace(String),
    /// Ctrl+A was pressed — caller should enter select-all mode.
    SelectAll,
    /// Nothing clipboard-related happened.
    Noop,
}

/// A clipboard shortcut.
#[derive(PartialEq, Eq, Structural, Clone, Copy, Debug)]
pub enum Shortcut {
    /// No shortcut (or no modifier key held).
    Nothing,
    Copy,
    Cut,
    SelectAll,
    Paste,
}

/// The shortcut for a plain text buffer, from whether a modifier (Ctrl or
/// Cmd) is held and which of C, X, A, V are pressed: nothing without the
/// modifier; otherwise the first pressed of C (copy), X (cut), A (select
/// all), V (paste).
pub fn buffer_shortcut(modifier: bool, c: bool, x: bool, a: bool, v: bool) -> (s: Shortcut)
    ensures
        s == (if !modifier {
            Shortcut::Nothing
        } else if c {
            Shortcut::Copy
        } else if x {
            Shortcut::Cut
        } else if a {
            Shortcut::SelectAll
        } else if v {
            Shortcut::Paste
        } else {
            Shortcut::Nothing
        }),
{
    if !modifier {
        Shortcut::Nothing
    } else if c {
        Shortcut::Copy
    } else if x {
        Shortcut::Cut
    } else if a {
        Shortcut::SelectAll
    } else if v {
        Shortcut::Paste
    } else {
        Shortcut::Nothing
    }
}

/// The shortcut for a text field, which looks at A before C, X and V:
/// nothing without the modifier; otherwise the first pressed of A (select
/// all), C (copy), X (cut), V (paste).
pub fn field_shortcut(modifier: bool, a: bool, c: bool, x: bool, v: bool) -> (s: Shortcut)
    ensures
        s == (if !modifier {
            Shortcut::Nothing
        } else if a {
            Shortcut::SelectAll
        } else if c {
            Shortcut::Copy
        } else if x {
            Shortcut::Cut
        } else if v {
            Shortcut::Paste
        } else {
            Shortcut::Nothing
        }),
{
    if !modifier {
        Shortcut::Nothing
    } else if a {
        Shortcut::SelectAll
    } else if c {
        Shortcut::Copy
    } else if x {
        Shortcut::Cut
    } else if v {
        Shortcut::Paste
    } else {
        Shortcut::Nothing
    }
}

/// The shortcut that was pressed, with what the clipboard held for a paste.
pub enum ClipboardRequest {
    /// No shortcut (or no modifier key held).
    Nothing,
    /// Ctrl/Cmd+C.
    Copy,
    /// Ctrl/Cmd+X.
    Cut,
    /// Ctrl/Cmd+A.
    SelectAll,
    /// Ctrl/Cmd+V, with the clipboard's text, or `None` when it could not be read.
    Paste(Option<String>),
}

/// The answer to a shortcut: the action, and the text to put on the
/// clipboard, if any.
pub struct ClipboardResponse {
    pub action: ClipboardAction,
    pub copy: Option<String>,
}

/// Answers a clipboard shortcut for the buffer `buf`: copy puts the buffer
/// on the clipboard; cut does so and empties the buffer; select-all asks for
/// select-all mode; paste appends the clipboard's characters that `filter`
/// lets in, when there is at least one.
pub fn respond(request: ClipboardRequest, buf: &str, filter: CharFilter) -> (r: ClipboardResponse)
    ensures
        match request {
            ClipboardRequest::Nothing => r.action is Noop && r.copy is None,
            ClipboardRequest::Copy => {
                &&& r.action is Noop
                &&& r.copy matches Some(t) && t@ == buf@
            },
            ClipboardRequest::Cut => {
                &&& r.action matches ClipboardAction::Replace(s) && s@.len() == 0
                &&& r.copy matches Some(t) && t@ == buf@
            },
            ClipboardRequest::SelectAll => r.action is SelectAll && r.copy is None,
            ClipboardRequest::Paste(None) => r.action is Noop && r.copy is None,
            ClipboardRequest::Paste(Some(text)) => r.copy is None && if filtered(text@, filter).len() > 0 {
                r.action matches ClipboardAction::Replace(s) && s@ == buf@ + filtered(text@, filter)
            } else {
                r.action is Noop
            },
        },
{
    match request {
        ClipboardRequest::Nothing => ClipboardResponse { action: ClipboardAction::Noop, copy: None },
        ClipboardRequest::Copy => ClipboardResponse {
            action: ClipboardAction::Noop,
            copy: Some(buf.to_owned()),
        },
        ClipboardRequest::Cut => ClipboardResponse {
            action: ClipboardAction::Replace(String::new()),
            copy: Some(buf.to_owned()),
        },
        ClipboardRequest::SelectAll => ClipboardResponse { action: ClipboardAction::SelectAll, copy: None },
        ClipboardRequest::Paste(None) => ClipboardResponse { action: ClipboardAction::Noop, copy: None },
        ClipboardRequest::Paste(Some(text)) => {
            let f = filter_text(text.as_str(), filter);
            if f.as_str().unicode_len() > 0 {
                let mut s = buf.to_owned();
                s.append(f.as_str());
                ClipboardResponse { action: ClipboardAction::Replace(s), copy: None }
            } else {
                ClipboardResponse { action: ClipboardAction::Noop, copy: None }
            }
        },
    }
}

} // verus!
