//! I/O failures as plain values.

use vstd::prelude::*;

verus! {

/// The kinds of I/O failure that decisions depend on.
#[derive(Debug, Clone, Copy, PartialEq, Eq, Structural)]
pub enum IoKind {
    /// The operation would block.
    WouldBlock,
    /// The operation was interrupted by a signal.
    Interrupted,
    /// The stream ended before all bytes were read.
    UnexpectedEof,
    /// The peer reset the connection.
    ConnectionReset,
    /// The other side of the PTY hung up (`EIO` on Linux).
    HungUp,
    /// Any other failure.
    Other,
}

/// An I/O failure: its kind, and how it is shown.
#[derive(Debug, Clone, PartialEq, Eq)]
pub struct IoFault {
    pub kind: IoKind,
    pub message: String,
}

/// What an [`IoFault`] says.
#[verifier::ext_equal]
pub struct IoFaultView {
    pub kind: IoKind,
    pub message: Seq<char>,
}

impl View for IoFault {
    type V = IoFaultView;

    open spec fn view(&self) -> IoFaultView {
        IoFaultView { kind: self.kind, message: self.message@ }
    }
}

/// Whether the failure only says that the operation would block.
pub fn would_block(e: &IoFault) -> (blocks: bool)
    ensures
        blocks == (e.kind == IoKind::WouldBlock),
{
    e.kind == IoKind::WouldBlock
}

} // verus!
