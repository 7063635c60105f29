//! Commands and their decoding from a reassembled frame.
//!
//! The decoder sees a frame without its length field: byte 0 is the target
//! id, byte 1 the bus, byte 2 the family tag, and the rest is the payload
//! that the family itself decodes.

use vstd::prelude::*;
use vstd::slice::slice_subrange;
use crate::error::CommandError;
use crate::response::NO_TARGET;
use crate::wire::{byte_id, byte_to_id};

verus! {

/// Family tag of commands for the I2C bus.
pub const I2C_COMMAND: u8 = 5;

/// Family tag of commands for the GPIO lines.
pub const GPIO_COMMAND: u8 = 6;

/// Family tag of commands for the LED strip.
pub const LED_COMMAND: u8 = 8;

/// Bytes of target id, bus and family tag ahead of the payload.
pub const COMMAND_HEADER: usize = 3;

/// The decoding half of a peripheral family: from the payload of a frame to
/// the family's own command. Decoding is pure parsing; it touches no
/// peripheral.
pub trait FamilyCommand: Sized {
    fn from_bytes(payload: &[u8]) -> Result<Self, CommandError>;
}

/// The three peripheral families.
#[derive(Debug, Clone, Copy, PartialEq, Eq)]
pub enum Family {
    I2c,
    Gpio,
    Led,
}

/// What the first three bytes of a frame body say.
#[derive(Debug, Clone, Copy, PartialEq, Eq)]
pub struct Header {
    /// Correlates the response with the request.
    pub id: i8,
    /// Which unit of the family is addressed.
    pub bus: u8,
    /// The family that owns the payload.
    pub family: Family,
}

/// The body of a command: a family's own command, or the error found while
/// decoding.
#[derive(Debug, PartialEq, Eq)]
pub enum CommandInner<I, G, L> {
    I2c(I),
    Gpio(G),
    Led(L),
    Error(CommandError),
}

/// A decoded request.
#[derive(Debug, PartialEq, Eq)]
pub struct Command<I, G, L> {
    /// Correlates the response with the request; -1 where the request
    /// could not be decoded.
    pub id: i8,
    /// Which unit of the family is addressed.
    pub bus: u8,
    /// What is to be done.
    pub inner: CommandInner<I, G, L>,
}

/// The family that `tag` selects, if any.
pub open spec fn family_of_tag(tag: u8) -> Option<Family> {
    if tag == 5 {
        Some(Family::I2c)
    } else if tag == 6 {
        Some(Family::Gpio)
    } else if tag == 8 {
        Some(Family::Led)
    } else {
        None
    }
}

/// The header of frame body `buf`: `Invalid` where it is shorter than a
/// header or its tag names no family.
pub open spec fn header_of(buf: Seq<u8>) -> Result<Header, CommandError> {
    if buf.len() < 3 {
        Err(CommandError::Invalid)
    } else {
        match family_of_tag(buf[2]) {
            Some(family) => Ok(Header { id: byte_id(buf[0]), bus: buf[1], family }),
            None => Err(CommandError::Invalid),
        }
    }
}

/// The payload of frame body `buf`: what follows the header.
pub open spec fn payload_of(buf: Seq<u8>) -> Seq<u8> {
    if buf.len() < 3 {
        Seq::<u8>::empty()
    } else {
        buf.subrange(3, buf.len() as int)
    }
}

/// The family that `tag` selects, if any.
pub fn family_of(tag: u8) -> (r: Option<Family>)
    ensures
        r == family_of_tag(tag),
{
    if tag == I2C_COMMAND {
        Some(Family::I2c)
    } else if tag == GPIO_COMMAND {
        Some(Family::Gpio)
    } else if tag == LED_COMMAND {
        Some(Family::Led)
    } else {
        None
    }
}

/// Reads the header of a frame body.
pub fn parse_header(buf: &[u8]) -> (r: Result<Header, CommandError>)
    ensures
        r == header_of(buf@),
{
    if buf.len() < COMMAND_HEADER {
        return Err(CommandError::Invalid);
    }
    match family_of(buf[2]) {
        Some(family) => Ok(Header { id: byte_to_id(buf[0]), bus: buf[1], family }),
        None => Err(CommandError::Invalid),
    }
}

impl<I: FamilyCommand, G: FamilyCommand, L: FamilyCommand> Command<I, G, L> {
    /// The command that stands for a frame that could not be decoded: it
    /// answers to no target and carries the error.
    pub open spec fn spec_from_error(err: CommandError) -> Self {
        Command { id: NO_TARGET, bus: 0, inner: CommandInner::Error(err) }
    }

    /// The command under `header` once the family has decoded its payload;
    /// the family's error where it refused.
    pub open spec fn spec_assemble(
        header: Header,
        body: Result<CommandInner<I, G, L>, CommandError>,
    ) -> Result<Self, CommandError> {
        match body {
            Ok(inner) => Ok(Command { id: header.id, bus: header.bus, inner }),
            Err(err) => Err(err),
        }
    }

    /// Whether `body` is what the family named by `family` can answer when
    /// handed `payload`.
    pub open spec fn family_decodes(
        family: Family,
        payload: Seq<u8>,
        body: Result<CommandInner<I, G, L>, CommandError>,
    ) -> bool {
        match family {
            Family::I2c => exists|bytes: &[u8], out: Result<I, CommandError>|
                bytes@ == payload && #[trigger] call_ensures(I::from_bytes, (bytes,), out) && body
                    == match out {
                    Ok(cmd) => Ok::<CommandInner<I, G, L>, CommandError>(CommandInner::I2c(cmd)),
                    Err(err) => Err(err),
                },
            Family::Gpio => exists|bytes: &[u8], out: Result<G, CommandError>|
                bytes@ == payload && #[trigger] call_ensures(G::from_bytes, (bytes,), out) && body
                    == match out {
                    Ok(cmd) => Ok::<CommandInner<I, G, L>, CommandError>(CommandInner::Gpio(cmd)),
                    Err(err) => Err(err),
                },
            Family::Led => exists|bytes: &[u8], out: Result<L, CommandError>|
                bytes@ == payload && #[trigger] call_ensures(L::from_bytes, (bytes,), out) && body
                    == match out {
                    Ok(cmd) => Ok::<CommandInner<I, G, L>, CommandError>(CommandInner::Led(cmd)),
                    Err(err) => Err(err),
                },
        }
    }

    /// Whether `r` is a decoding of frame body `buf`. A body without a
    /// valid header decodes to `Invalid` and nothing else. Otherwise the
    /// family named by the tag is handed exactly the payload, and `r` is
    /// its command under the header's id and bus, or its error.
    pub open spec fn decodes(buf: Seq<u8>, r: Result<Self, CommandError>) -> bool {
        match header_of(buf) {
            Err(err) => r == Err::<Self, CommandError>(err),
            Ok(header) => exists|body: Result<CommandInner<I, G, L>, CommandError>|
                #[trigger] Self::family_decodes(header.family, payload_of(buf), body) && r
                    == Self::spec_assemble(header, body),
        }
    }

    /// The command that stands for a frame that could not be decoded.
    pub fn from_error(err: CommandError) -> (cmd: Self)
        ensures
            cmd == Self::spec_from_error(err),
    {
        Command { id: NO_TARGET, bus: 0, inner: CommandInner::Error(err) }
    }

    /// Puts a decoded body under its header.
    pub fn assemble(header: Header, body: Result<CommandInner<I, G, L>, CommandError>) -> (r:
        Result<Self, CommandError>)
        ensures
            r == Self::spec_assemble(header, body),
    {
        match body {
            Ok(inner) => Ok(Command { id: header.id, bus: header.bus, inner }),
            Err(err) => Err(err),
        }
    }

    /// Hands `payload` to the family named by `family`.
    pub fn decode_family(family: Family, payload: &[u8]) -> (body: Result<
        CommandInner<I, G, L>,
        CommandError,
    >)
        ensures
            Self::family_decodes(family, payload@, body),
    {
        match family {
            Family::I2c => match I::from_bytes(payload) {
                Ok(cmd) => Ok(CommandInner::I2c(cmd)),
                Err(err) => Err(err),
            },
            Family::Gpio => match G::from_bytes(payload) {
                Ok(cmd) => Ok(CommandInner::Gpio(cmd)),
                Err(err) => Err(err),
            },
            Family::Led => match L::from_bytes(payload) {
                Ok(cmd) => Ok(CommandInner::Led(cmd)),
                Err(err) => Err(err),
            },
        }
    }

    /// Decodes a frame body into a command.
    pub fn from_bytes(buf: &[u8]) -> (r: Result<Self, CommandError>)
        ensures
            Self::decodes(buf@, r),
    {
        match parse_header(buf) {
            Err(err) => Err(err),
            Ok(header) => {
                let payload = slice_subrange(buf, COMMAND_HEADER, buf.len());
                let body = Self::decode_family(header.family, payload);
                proof {
                    assert(payload@ =~= payload_of(buf@));
                    assert(Self::family_decodes(header.family, payload_of(buf@), body));
                }
                Self::assemble(header, body)
            },
        }
    }

    /// What is queued for a decoding: the command itself, or the command
    /// that stands for the failure.
    pub open spec fn spec_settle(r: Result<Self, CommandError>) -> Self {
        match r {
            Ok(cmd) => cmd,
            Err(err) => Self::spec_from_error(err),
        }
    }

    /// What is queued for a decoding: a failure is kept as a command that
    /// answers to no target, never dropped.
    pub fn settle(r: Result<Self, CommandError>) -> (cmd: Self)
        ensures
            cmd == Self::spec_settle(r),
    {
        match r {
            Ok(cmd) => cmd,
            Err(err) => Self::from_error(err),
        }
    }

    /// Whether `cmd` is what is queued for frame body `buf`: a decoding of
    /// it, with a failure kept as a command.
    pub open spec fn queues(buf: Seq<u8>, cmd: Self) -> bool {
        exists|r: Result<Self, CommandError>| #[trigger]
            Self::decodes(buf, r) && cmd == Self::spec_settle(r)
    }

    /// Decodes a frame body into the command to queue for it. Every frame
    /// body gives a command.
    pub fn decode(buf: &[u8]) -> (cmd: Self)
        ensures
            Self::queues(buf@, cmd),
    {
        let r = Self::from_bytes(buf);
        Self::settle(r)
    }

    /// A successful decoding keeps the frame's target id and bus, and its
    /// body belongs to the family that the tag names. A frame body that is
    /// too short, or whose tag names no family, decodes to `Invalid` only.
    pub proof fn lemma_decoded_header(buf: Seq<u8>, r: Result<Self, CommandError>)
        requires
            Self::decodes(buf, r),
        ensures
            r matches Ok(cmd) ==> buf.len() >= 3 && cmd.id == byte_id(buf[0]) && cmd.bus == buf[1]
                && match cmd.inner {
                CommandInner::I2c(_) => buf[2] == 5,
                CommandInner::Gpio(_) => buf[2] == 6,
                CommandInner::Led(_) => buf[2] == 8,
                CommandInner::Error(_) => false,
            },
            buf.len() < 3 || family_of_tag(buf[2]).is_none() ==> r == Err::<Self, CommandError>(
                CommandError::Invalid,
            ),
    {
    }
}

} // verus!
