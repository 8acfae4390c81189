use vstd::prelude::*;

verus! {

/// Why one chunk of the feed gave no status line. Each of these is
/// recoverable on its own; only a long enough streak of them is fatal.
#[derive(Clone, Copy, Debug, PartialEq, Eq, Structural)]
pub enum Failure {
    /// No complete array could be located in the chunk.
    FrameNotFound,
    /// The located bytes are not a JSON array of objects.
    InvalidJson,
    /// An object lacks a string `full_text` or a string `color`.
    MissingField,
}

} // verus!
