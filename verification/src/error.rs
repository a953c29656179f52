use vstd::prelude::*;

use crate::text::{push_str, to_owned_string};

verus! {

/// The kinds of failure the library reports.
#[derive(Debug, Clone, Copy, PartialEq, Eq, Structural)]
pub enum ErrorKind {
    NotFound,
    AlreadyExists,
    InvalidInput,
    InvalidData,
    Other,
}

/// A failure with its kind and the message shown to the user.
#[derive(Debug)]
pub struct DigError {
    pub kind: ErrorKind,
    pub message: String,
}

impl DigError {
    /// A failure of the given kind with the given message.
    pub fn new(kind: ErrorKind, message: String) -> (e: DigError)
        ensures
            e.kind == kind,
            e.message@ == message@,
    {
        DigError { kind, message }
    }

    /// A failure of kind `Other` with the given message.
    pub fn other(message: String) -> (e: DigError)
        ensures
            e.kind == ErrorKind::Other,
            e.message@ == message@,
    {
        DigError { kind: ErrorKind::Other, message }
    }

    /// The kind of this failure.
    pub fn kind(&self) -> (k: ErrorKind)
        ensures
            k == self.kind,
    {
        self.kind
    }

    /// The message of this failure.
    pub fn to_string(&self) -> (s: String)
        ensures
            s@ == self.message@,
    {
        self.message.clone()
    }
}

/// `'name'`: a name between single quotes.
pub open spec fn quoted(name: Seq<char>) -> Seq<char> {
    "'"@ + name + "'"@
}

/// Appends a name between single quotes.
pub fn push_quoted(out: &mut String, name: &str)
    ensures
        final(out)@ == old(out)@ + quoted(name@),
{
    push_str(out, "'");
    push_str(out, name);
    push_str(out, "'");
}

/// `head` followed by a quoted name and `tail`.
pub fn message_with_name(head: &str, name: &str, tail: &str) -> (s: String)
    ensures
        s@ == head@ + quoted(name@) + tail@,
{
    let mut s = to_owned_string(head);
    push_quoted(&mut s, name);
    push_str(&mut s, tail);
    s
}

} // verus!
