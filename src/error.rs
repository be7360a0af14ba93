use vstd::prelude::*;

verus! {

/// Errors surfaced at the boundary of the engine.
#[derive(Debug, Clone, PartialEq, Eq)]
pub enum Error {
    /// A read failure, with the operating system's message.
    Io(String),
    /// A lookup that a caller chose to treat as fatal found nothing.
    NoteNotFound(String),
    /// A supplied root or lookup path is malformed.
    InvalidPath(String),
}

} // verus!
