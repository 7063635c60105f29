//! The length field shared by request and response frames: two bytes,
//! little-endian, counting every byte of the frame including themselves.

use vstd::prelude::*;

verus! {

/// Bytes taken by the length field at the start of every frame.
pub const LENGTH_FIELD: usize = 2;

/// The two bytes that announce a frame of `total` bytes.
pub open spec fn length_field(total: nat) -> Seq<u8> {
    seq![(total % 256) as u8, ((total / 256) % 256) as u8]
}

/// The total length that the first two bytes of `frame` announce.
pub open spec fn declared_length(frame: Seq<u8>) -> nat
    recommends
        frame.len() >= 2,
{
    (frame[0] as nat) + 256 * (frame[1] as nat)
}

/// Reading back a written length field gives the length, as long as it fits
/// in sixteen bits.
pub proof fn lemma_length_field_round_trip(total: nat, rest: Seq<u8>)
    requires
        total < 65536,
    ensures
        length_field(total).len() == 2,
        declared_length(length_field(total) + rest) == total,
{
    let f = length_field(total) + rest;
    assert(f[0] == length_field(total)[0]);
    assert(f[1] == length_field(total)[1]);
}

/// The low and high byte of the length field for a frame of `total` bytes.
pub fn encode_length(total: usize) -> (bytes: [u8; 2])
    requires
        total < 65536,
    ensures
        bytes@ == length_field(total as nat),
{
    let low: u8 = (total % 256) as u8;
    let high: u8 = (total / 256) as u8;
    let bytes: [u8; 2] = [low, high];
    assert(bytes@ =~= length_field(total as nat));
    bytes
}

/// The total frame length announced by the first two bytes of `buf`.
pub fn read_length(buf: &[u8]) -> (total: usize)
    requires
        buf@.len() >= 2,
    ensures
        total == declared_length(buf@),
        total < 65536,
{
    let low: usize = buf[0] as usize;
    let high: usize = buf[1] as usize;
    low + 256 * high
}

/// The byte that carries target id `id`: its two's complement.
pub open spec fn id_byte(id: i8) -> u8 {
    if id >= 0 {
        id as u8
    } else {
        (id + 256) as u8
    }
}

/// The target id that byte `byte` carries.
pub open spec fn byte_id(byte: u8) -> i8 {
    if byte < 128 {
        byte as i8
    } else {
        (byte - 256) as i8
    }
}

/// The two conversions undo each other.
pub proof fn lemma_id_byte_round_trip(id: i8, byte: u8)
    ensures
        byte_id(id_byte(id)) == id,
        id_byte(byte_id(byte)) == byte,
{
}

/// The byte that carries target id `id`.
pub fn id_to_byte(id: i8) -> (byte: u8)
    ensures
        byte == id_byte(id),
{
    if id >= 0 {
        id as u8
    } else {
        (id as i16 + 256) as u8
    }
}

/// The target id that byte `byte` carries.
pub fn byte_to_id(byte: u8) -> (id: i8)
    ensures
        id == byte_id(byte),
{
    if byte < 128 {
        byte as i8
    } else {
        (byte as i16 - 256) as i8
    }
}

} // verus!
