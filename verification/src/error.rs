//! The closed set of failures that a command can report to the host.

use vstd::prelude::*;
use vstd::string::StringSliceAdditionalSpecFns;

verus! {

/// Why a command could not be decoded or carried out.
#[derive(Debug, Clone, Copy, PartialEq, Eq)]
pub enum CommandError {
    /// The operation did not finish in time.
    Timeout,
    /// The frame was malformed or named an unknown family.
    Invalid,
    /// A response or a frame exceeded a fixed capacity.
    BufferOverflow,
    /// A diagnostic text from a peripheral handler.
    Message(&'static str),
}

impl CommandError {
    /// The wire code of this kind of error.
    pub open spec fn spec_code(self) -> u8 {
        match self {
            CommandError::Timeout => 0x10u8,
            CommandError::Invalid => 0x11u8,
            CommandError::BufferOverflow => 0x12u8,
            CommandError::Message(_) => 0xffu8,
        }
    }

    /// The bytes that follow the code on the wire: the text of a `Message`
    /// in UTF-8, nothing for the other kinds.
    pub open spec fn spec_detail(self) -> Seq<u8> {
        match self {
            CommandError::Message(text) => text.spec_bytes(),
            _ => Seq::<u8>::empty(),
        }
    }

    /// The wire code of this kind of error.
    pub fn code(&self) -> (c: u8)
        ensures
            c == self.spec_code(),
    {
        match self {
            CommandError::Timeout => 0x10,
            CommandError::Invalid => 0x11,
            CommandError::BufferOverflow => 0x12,
            CommandError::Message(_) => 0xff,
        }
    }
}

/// What the transport reports of a read that failed.
#[derive(Debug, Clone, Copy, PartialEq, Eq)]
pub enum EndpointFault {
    /// The packet did not fit the buffer offered for it.
    BufferOverflow,
    /// The endpoint is disabled: the host is gone.
    Disabled,
}

/// Why a session ends.
#[derive(Debug, Clone, Copy, PartialEq, Eq)]
pub enum ControlTaskError {
    /// The host disconnected.
    Disconnected,
}

impl ControlTaskError {
    /// The end of the session that a failed read brings: whatever the
    /// transport reports of the read, the host is taken to be gone.
    pub fn from_fault(fault: EndpointFault) -> (e: Self)
        ensures
            e is Disconnected,
    {
        ControlTaskError::Disconnected
    }
}

} // verus!
