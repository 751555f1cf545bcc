//! Text access to the system clipboard through `arboard`.

use crate::strings::push_str;
use vstd::prelude::*;

verus! {

#[verifier::external_type_specification]
#[verifier::external_body]
pub struct ExClipboard(arboard::Clipboard);

/// A clipboard failure, with the message of the underlying error.
#[derive(Debug)]
pub enum ClipboardError {
    Access(String),
}

impl ClipboardError {
    /// The error as text: `clipboard error: <message>`.
    pub fn message(&self) -> (r: String)
        ensures
            match self {
                ClipboardError::Access(msg) => r@ == "clipboard error: "@ + msg@,
            },
    {
        match self {
            ClipboardError::Access(msg) => {
                let mut r = String::new();
                push_str(&mut r, "clipboard error: ");
                push_str(&mut r, msg.as_str());
                r
            },
        }
    }
}

/// What reading text from the clipboard gave, as plain values.
pub enum TextRead {
    /// The clipboard held this text.
    Text(String),
    /// The clipboard held no text (arboard's `ContentNotAvailable`).
    NotAvailable,
    /// Any other failure, with the error's message.
    Failed(String),
}

#[verifier::external_type_specification]
#[verifier::external_body]
pub struct ExClipboardFailure(arboard::Error);

/// Calls `arboard::Clipboard::new`; whether the system clipboard can be
/// opened is not stated.
#[verifier::external_body]
fn clipboard_new() -> Result<arboard::Clipboard, arboard::Error> {
    arboard::Clipboard::new()
}

/// How reading text from the clipboard failed.
pub enum GetTextFailure {
    /// arboard's `ContentNotAvailable`: the clipboard holds no text.
    NotAvailable,
    /// Any other error of arboard.
    Other(arboard::Error),
}

/// Calls `arboard::Clipboard::get_text`: what the clipboard holds now;
/// nothing is stated of it. The error `ContentNotAvailable` is told apart
/// from the others.
#[verifier::external_body]
fn clipboard_get_text(c: &mut arboard::Clipboard) -> Result<String, GetTextFailure> {
    c.get_text().map_err(|e| match e {
        arboard::Error::ContentNotAvailable => GetTextFailure::NotAvailable,
        other => GetTextFailure::Other(other),
    })
}

/// Calls `arboard::Clipboard::set_text`; whether it succeeds is not stated.
#[verifier::external_body]
fn clipboard_set_text(c: &mut arboard::Clipboard, text: &str) -> Result<(), arboard::Error> {
    c.set_text(text)
}

/// Calls `<arboard::Error as Display>::fmt` through `to_string`.
#[verifier::external_body]
fn clipboard_error_text(e: &arboard::Error) -> String {
    e.to_string()
}

/// What a call of `get_text` gave, as plain values.
fn text_read_of(r: Result<String, GetTextFailure>) -> (t: TextRead)
    ensures
        match r {
            Ok(text) => t matches TextRead::Text(x) && x@ == text@,
            Err(GetTextFailure::NotAvailable) => t is NotAvailable,
            Err(GetTextFailure::Other(_)) => t is Failed,
        },
{
    match r {
        Ok(text) => TextRead::Text(text),
        Err(GetTextFailure::NotAvailable) => TextRead::NotAvailable,
        Err(GetTextFailure::Other(e)) => TextRead::Failed(clipboard_error_text(&e)),
    }
}

/// The result of a clipboard read: empty text and an unavailable text are
/// both `None`; other failures are access errors.
pub fn text_read_result(read: TextRead) -> (r: Result<Option<String>, ClipboardError>)
    ensures
        match read {
            TextRead::Text(t) => if t@.len() == 0 {
                r matches Ok(None)
            } else {
                r matches Ok(Some(s)) && s@ == t@
            },
            TextRead::NotAvailable => r matches Ok(None),
            TextRead::Failed(m) => r matches Err(ClipboardError::Access(x)) && x@ == m@,
        },
{
    match read {
        TextRead::Text(text) => {
            if text.as_str().is_empty() {
                Ok(None)
            } else {
                Ok(Some(text))
            }
        },
        TextRead::NotAvailable => Ok(None),
        TextRead::Failed(msg) => Err(ClipboardError::Access(msg)),
    }
}

/// The system clipboard.
pub struct SystemClipboard {
    inner: arboard::Clipboard,
}

impl SystemClipboard {
    /// Opens the system clipboard; a failure is an access error.
    pub fn new() -> (r: Result<Self, ClipboardError>) {
        match clipboard_new() {
            Ok(c) => Ok(SystemClipboard { inner: c }),
            Err(e) => Err(ClipboardError::Access(clipboard_error_text(&e))),
        }
    }

    /// Reads text from the clipboard: `None` when it holds no text or an
    /// empty one; a returned text is never empty.
    pub fn read_text(&mut self) -> (r: Result<Option<String>, ClipboardError>)
        ensures
            r matches Ok(Some(t)) ==> t@.len() > 0,
    {
        text_read_result(text_read_of(clipboard_get_text(&mut self.inner)))
    }

    /// Places `text` on the clipboard; a failure is an access error.
    pub fn write_text(&mut self, text: &str) -> (r: Result<(), ClipboardError>) {
        match clipboard_set_text(&mut self.inner, text) {
            Ok(()) => Ok(()),
            Err(e) => Err(ClipboardError::Access(clipboard_error_text(&e))),
        }
    }
}

} // verus!
