//! Response frames: the two shapes sent back to the host, built in a
//! fixed-capacity buffer.
//!
//! A success frame is `[length: u16 LE][target_id][payload..]`; an error
//! frame is `[length: u16 LE][target_id][code][detail..]`. In both, the
//! length counts every byte of the frame.

use vstd::prelude::*;
use crate::error::CommandError;
use crate::wire::{
    byte_id, byte_to_id, declared_length, encode_length, id_byte, id_to_byte, length_field,
    read_length,
};
use vstd::slice::slice_subrange;
use vstd::string::StringSliceAdditionalSpecFns;

verus! {

/// Bytes that a response frame can hold.
pub const RESPONSE_CAPACITY: usize = 260;

/// Bytes of a success frame ahead of its payload.
pub const SUCCESS_HEADER: usize = 3;

/// Bytes of an error frame ahead of its detail.
pub const ERROR_HEADER: usize = 4;

/// The target id written on frames that answer no identifiable request.
pub const NO_TARGET: i8 = -1;

/// `heapless::Vec`, the fixed-capacity vector that response frames are
/// built in. What it holds is known only through `frame_bytes`.
#[verifier::external_type_specification]
#[verifier::external_body]
#[verifier::reject_recursive_types(T)]
pub struct ExHeaplessVec<T, const N: usize>(heapless::Vec<T, N>);

/// The bytes held by a response buffer, first to last.
pub uninterp spec fn frame_bytes(buf: heapless::Vec<u8, 260>) -> Seq<u8>;

/// `heapless::Vec::new`: a buffer that holds nothing.
#[verifier::external_body]
fn buffer_new() -> (buf: heapless::Vec<u8, 260>)
    ensures
        frame_bytes(buf) == Seq::<u8>::empty(),
{
    heapless::Vec::new()
}

/// `heapless::Vec::push`: appends `byte` when fewer than 260 bytes are held;
/// otherwise hands the byte back and leaves the buffer as it was.
#[verifier::external_body]
fn buffer_push(buf: &mut heapless::Vec<u8, 260>, byte: u8) -> (r: Result<(), u8>)
    ensures
        r.is_ok() == (frame_bytes(*old(buf)).len() < 260),
        r matches Err(back) ==> back == byte,
        frame_bytes(*final(buf)) == if frame_bytes(*old(buf)).len() < 260 {
            frame_bytes(*old(buf)).push(byte)
        } else {
            frame_bytes(*old(buf))
        },
{
    buf.push(byte)
}

/// `heapless::Vec::extend_from_slice`: appends all of `bytes` when the
/// result holds at most 260 bytes; otherwise fails and leaves the buffer as
/// it was.
#[verifier::external_body]
fn buffer_extend(buf: &mut heapless::Vec<u8, 260>, bytes: &[u8]) -> (r: Result<(), ()>)
    ensures
        r.is_ok() == (frame_bytes(*old(buf)).len() + bytes@.len() <= 260),
        frame_bytes(*final(buf)) == if frame_bytes(*old(buf)).len() + bytes@.len() <= 260 {
            frame_bytes(*old(buf)) + bytes@
        } else {
            frame_bytes(*old(buf))
        },
{
    buf.extend_from_slice(bytes)
}

/// Indexed assignment through `heapless::Vec`'s `DerefMut` to a slice:
/// replaces the byte at `at`, which must be held, and nothing else.
#[verifier::external_body]
fn buffer_set(buf: &mut heapless::Vec<u8, 260>, at: usize, byte: u8)
    requires
        at < frame_bytes(*old(buf)).len(),
    ensures
        frame_bytes(*final(buf)) == frame_bytes(*old(buf)).update(at as int, byte),
{
    buf[at] = byte;
}

/// The success frame that answers request `id` with `payload`.
pub open spec fn success_frame(id: i8, payload: Seq<u8>) -> Seq<u8> {
    length_field((3 + payload.len()) as nat) + seq![id_byte(id)] + payload
}

/// The error frame that answers request `id` with `err`.
pub open spec fn error_frame(id: i8, err: CommandError) -> Seq<u8> {
    length_field((4 + err.spec_detail().len()) as nat) + seq![id_byte(id), err.spec_code()]
        + err.spec_detail()
}

/// Whether `err` fits in an error frame with its detail. The three kinds
/// without detail always do.
pub open spec fn error_fits(err: CommandError) -> bool {
    4 + err.spec_detail().len() <= 260
}

/// What is sent for `err`: the error itself, or `BufferOverflow` where its
/// detail is too long for a frame.
pub open spec fn reported_error(err: CommandError) -> CommandError {
    if error_fits(err) {
        err
    } else {
        CommandError::BufferOverflow
    }
}

/// The frame sent to the host for request `id` and the outcome of running it.
pub open spec fn response_frame(id: i8, outcome: Result<Seq<u8>, CommandError>) -> Seq<u8> {
    match outcome {
        Ok(payload) => if 3 + payload.len() <= 260 {
            success_frame(id, payload)
        } else {
            error_frame(id, CommandError::BufferOverflow)
        },
        Err(err) => error_frame(id, reported_error(err)),
    }
}

impl CommandError {
    /// The error frame for this error, not yet addressed to a request: it
    /// carries the id of no target. An error whose detail is too long for a
    /// frame is encoded as `BufferOverflow`.
    pub fn to_bytes(&self) -> (buf: heapless::Vec<u8, 260>)
        ensures
            frame_bytes(buf) == error_frame(NO_TARGET, reported_error(*self)),
    {
        let mut buf = buffer_new();
        let placeholder: [u8; 3] = [0x00, 0x00, 0xff];
        let _ = buffer_extend(&mut buf, placeholder.as_slice());
        let mut total: usize = ERROR_HEADER;
        match self {
            CommandError::Message(text) => {
                let detail = text.as_bytes();
                if detail.len() <= RESPONSE_CAPACITY - ERROR_HEADER {
                    let _ = buffer_push(&mut buf, 0xff);
                    let _ = buffer_extend(&mut buf, detail);
                    total = ERROR_HEADER + detail.len();
                } else {
                    let _ = buffer_push(&mut buf, CommandError::BufferOverflow.code());
                }
            },
            other => {
                let _ = buffer_push(&mut buf, other.code());
            },
        }
        let length = encode_length(total);
        buffer_set(&mut buf, 0, length[0]);
        buffer_set(&mut buf, 1, length[1]);
        proof {
            assert(id_byte(NO_TARGET) == 0xffu8);
            assert(frame_bytes(buf) =~= error_frame(NO_TARGET, reported_error(*self)));
        }
        buf
    }
}

/// Addresses a frame to request `id` by rewriting its target byte.
pub fn stamp_target(buf: &mut heapless::Vec<u8, 260>, id: i8)
    requires
        frame_bytes(*old(buf)).len() >= 3,
    ensures
        frame_bytes(*final(buf)) == frame_bytes(*old(buf)).update(2, id_byte(id)),
{
    buffer_set(buf, 2, id_to_byte(id));
}

/// The error frame that answers request `id` with `err`.
pub fn encode_error(id: i8, err: &CommandError) -> (buf: heapless::Vec<u8, 260>)
    ensures
        frame_bytes(buf) == error_frame(id, reported_error(*err)),
{
    let mut buf = err.to_bytes();
    stamp_target(&mut buf, id);
    proof {
        assert(frame_bytes(buf) =~= error_frame(id, reported_error(*err)));
    }
    buf
}

/// The success frame that answers request `id` with `payload`, or
/// `BufferOverflow` where the frame would exceed the response capacity.
pub fn encode_success(id: i8, payload: &[u8]) -> (r: Result<heapless::Vec<u8, 260>, CommandError>)
    ensures
        3 + payload@.len() <= 260 ==> r.is_ok() && frame_bytes(r.unwrap()) == success_frame(
            id,
            payload@,
        ),
        3 + payload@.len() > 260 ==> r == Err::<heapless::Vec<u8, 260>, CommandError>(
            CommandError::BufferOverflow,
        ),
{
    if payload.len() > RESPONSE_CAPACITY - SUCCESS_HEADER {
        return Err(CommandError::BufferOverflow);
    }
    let mut buf = buffer_new();
    let placeholder: [u8; 2] = [0x00, 0x00];
    let _ = buffer_extend(&mut buf, placeholder.as_slice());
    let _ = buffer_push(&mut buf, id_to_byte(id));
    let _ = buffer_extend(&mut buf, payload);
    let length = encode_length(SUCCESS_HEADER + payload.len());
    buffer_set(&mut buf, 0, length[0]);
    buffer_set(&mut buf, 1, length[1]);
    proof {
        assert(frame_bytes(buf) =~= success_frame(id, payload@));
    }
    Ok(buf)
}

/// The payload of an outcome as a sequence of bytes.
pub open spec fn outcome_view(outcome: Result<&[u8], CommandError>) -> Result<
    Seq<u8>,
    CommandError,
> {
    match outcome {
        Ok(payload) => Ok(payload@),
        Err(err) => Err(err),
    }
}

/// The frame sent to the host for request `id` and the outcome of running
/// it. Every outcome gives a frame: one that does not fit is reported as
/// `BufferOverflow`.
pub fn encode_response(id: i8, outcome: Result<&[u8], CommandError>) -> (buf: heapless::Vec<
    u8,
    260,
>)
    ensures
        frame_bytes(buf) == response_frame(id, outcome_view(outcome)),
{
    match outcome {
        Ok(payload) => match encode_success(id, payload) {
            Ok(buf) => buf,
            Err(err) => encode_error(id, &err),
        },
        Err(err) => encode_error(id, &err),
    }
}

/// What a host reads from a success frame: the target id and the payload.
/// Nothing where the bytes are no whole frame of that shape.
pub open spec fn parsed_success(frame: Seq<u8>) -> Option<(i8, Seq<u8>)> {
    if frame.len() >= 3 && declared_length(frame) == frame.len() {
        Some((byte_id(frame[2]), frame.subrange(3, frame.len() as int)))
    } else {
        None
    }
}

/// What a host reads from an error frame: the target id, the error code and
/// the detail. Nothing where the bytes are no whole frame of that shape.
pub open spec fn parsed_error(frame: Seq<u8>) -> Option<(i8, u8, Seq<u8>)> {
    if frame.len() >= 4 && declared_length(frame) == frame.len() {
        Some((byte_id(frame[2]), frame[3], frame.subrange(4, frame.len() as int)))
    } else {
        None
    }
}

/// Reads a success frame back into its target id and payload.
pub fn split_success(frame: &[u8]) -> (r: Option<(i8, &[u8])>)
    ensures
        r.is_some() == parsed_success(frame@).is_some(),
        r matches Some(parts) ==> parsed_success(frame@) == Some((parts.0, parts.1@)),
{
    if frame.len() < SUCCESS_HEADER || read_length(frame) != frame.len() {
        return None;
    }
    Some((byte_to_id(frame[2]), slice_subrange(frame, SUCCESS_HEADER, frame.len())))
}

/// Reads an error frame back into its target id, code and detail.
pub fn split_error(frame: &[u8]) -> (r: Option<(i8, u8, &[u8])>)
    ensures
        r.is_some() == parsed_error(frame@).is_some(),
        r matches Some(parts) ==> parsed_error(frame@) == Some((parts.0, parts.1, parts.2@)),
{
    if frame.len() < ERROR_HEADER || read_length(frame) != frame.len() {
        return None;
    }
    Some((byte_to_id(frame[2]), frame[3], slice_subrange(frame, ERROR_HEADER, frame.len())))
}

/// A success frame is as long as its length field says, and reading it back
/// gives the target id and the payload that went in.
pub proof fn lemma_success_round_trip(id: i8, payload: Seq<u8>)
    requires
        3 + payload.len() <= 260,
    ensures
        success_frame(id, payload).len() == 3 + payload.len(),
        declared_length(success_frame(id, payload)) == success_frame(id, payload).len(),
        parsed_success(success_frame(id, payload)) == Some((id, payload)),
{
    let frame = success_frame(id, payload);
    let total = (3 + payload.len()) as nat;
    crate::wire::lemma_length_field_round_trip(total, seq![id_byte(id)] + payload);
    assert(frame =~= length_field(total) + (seq![id_byte(id)] + payload));
    crate::wire::lemma_id_byte_round_trip(id, 0u8);
    assert(frame[2] == id_byte(id));
    assert(frame.subrange(3, frame.len() as int) =~= payload);
}

/// An error frame is as long as its length field says, and reading it back
/// gives the target id, the error's code and its detail: for a message, the
/// code 0xFF and the bytes of its text.
pub proof fn lemma_error_round_trip(id: i8, err: CommandError)
    requires
        error_fits(err),
    ensures
        error_frame(id, err).len() == 4 + err.spec_detail().len(),
        declared_length(error_frame(id, err)) == error_frame(id, err).len(),
        parsed_error(error_frame(id, err)) == Some((id, err.spec_code(), err.spec_detail())),
        err matches CommandError::Message(text) ==> err.spec_code() == 0xffu8
            && err.spec_detail() == text.spec_bytes(),
{
    let frame = error_frame(id, err);
    let total = (4 + err.spec_detail().len()) as nat;
    let tail = seq![id_byte(id), err.spec_code()] + err.spec_detail();
    crate::wire::lemma_length_field_round_trip(total, tail);
    assert(frame =~= length_field(total) + tail);
    crate::wire::lemma_id_byte_round_trip(id, 0u8);
    assert(frame[2] == id_byte(id));
    assert(frame[3] == err.spec_code());
    assert(frame.subrange(4, frame.len() as int) =~= err.spec_detail());
}

/// Whatever the outcome, the frame sent for it is whole: it is at least a
/// header long, fits the response capacity, its length field counts its
/// bytes, and it is addressed to the request.
pub proof fn lemma_response_well_formed(id: i8, outcome: Result<Seq<u8>, CommandError>)
    ensures
        3 <= response_frame(id, outcome).len() <= 260,
        declared_length(response_frame(id, outcome)) == response_frame(id, outcome).len(),
        byte_id(response_frame(id, outcome)[2]) == id,
{
    match outcome {
        Ok(payload) => {
            if 3 + payload.len() <= 260 {
                lemma_success_round_trip(id, payload);
            } else {
                lemma_error_round_trip(id, CommandError::BufferOverflow);
            }
        },
        Err(err) => {
            lemma_error_round_trip(id, reported_error(err));
        },
    }
}

} // verus!
