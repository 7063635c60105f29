//! The device's serial number: eight lower-case hexadecimal digits derived
//! from the identifier of its flash chip.

use vstd::prelude::*;
use vstd::pervasive::unreached;

verus! {

/// `hex::FromHexError`, the failure of a hexadecimal conversion. It is
/// carried, never looked into.
#[verifier::external_type_specification]
#[verifier::external_body]
pub struct ExFromHexError(hex::FromHexError);

/// The 32-bit MurmurHash3 of `data` under `seed`.
pub uninterp spec fn murmur3_hash(data: Seq<u8>, seed: u32) -> u32;

/// `const_murmur3::murmur3_32`: the 32-bit MurmurHash3 of `data` under
/// `seed`, a function of the two alone.
#[verifier::external_body]
fn murmur3(data: &[u8], seed: u32) -> (hash: u32)
    ensures
        hash == murmur3_hash(data@, seed),
{
    const_murmur3::murmur3_32(data, seed)
}

/// The ASCII digit of `nibble`, which is below sixteen: `0` to `9`, then
/// `a` to `f`.
pub open spec fn hex_digit(nibble: int) -> u8 {
    if nibble < 10 {
        (48 + nibble) as u8
    } else {
        (87 + nibble) as u8
    }
}

/// The lower-case hexadecimal text of `bytes`: two digits for each byte,
/// the high half first.
pub open spec fn hex_of(bytes: Seq<u8>) -> Seq<u8> {
    Seq::new(
        2 * bytes.len(),
        |i: int|
            if i % 2 == 0 {
                hex_digit(bytes[i / 2] as int / 16)
            } else {
                hex_digit(bytes[i / 2] as int % 16)
            },
    )
}

/// `hex::encode_to_slice` into a buffer of eight bytes: fails only where
/// the buffer is not twice as long as `input`, and otherwise fills it with
/// the lower-case hexadecimal text of `input`.
#[verifier::external_body]
fn hex_encode(input: &[u8]) -> (r: Result<[u8; 8], hex::FromHexError>)
    ensures
        r.is_ok() == (input@.len() == 4),
        r matches Ok(text) ==> text@ == hex_of(input@),
{
    let mut text = [0u8; 8];
    match hex::encode_to_slice(input, &mut text) {
        Ok(()) => Ok(text),
        Err(err) => Err(err),
    }
}

/// The four bytes of `x`, least significant first.
pub open spec fn le_bytes_of(x: u32) -> Seq<u8> {
    seq![
        (x % 256) as u8,
        ((x / 256) % 256) as u8,
        ((x / 65536) % 256) as u8,
        ((x / 16777216) % 256) as u8,
    ]
}

/// The four bytes of `x`, least significant first.
pub fn le_bytes(x: u32) -> (bytes: [u8; 4])
    ensures
        bytes@ == le_bytes_of(x),
{
    let bytes: [u8; 4] = [
        (x % 256) as u8,
        ((x / 256) % 256) as u8,
        ((x / 65536) % 256) as u8,
        ((x / 16777216) % 256) as u8,
    ];
    assert(bytes@ =~= le_bytes_of(x));
    bytes
}

/// The serial number of the device whose flash chip identifies itself as
/// `jedec_id`.
pub open spec fn serial_of(jedec_id: u32) -> Seq<u8> {
    hex_of(le_bytes_of(murmur3_hash(le_bytes_of(jedec_id), 0)))
}

/// The serial number of the device whose flash chip identifies itself as
/// `jedec_id`: the hash of the identifier's bytes, as hexadecimal text.
pub fn serial_number(jedec_id: u32) -> (text: [u8; 8])
    ensures
        text@ == serial_of(jedec_id),
{
    let id = le_bytes(jedec_id);
    let hash = murmur3(id.as_slice(), 0);
    let digest = le_bytes(hash);
    match hex_encode(digest.as_slice()) {
        Ok(text) => text,
        Err(_) => unreached(),
    }
}

/// A serial number is made of the digits `0` to `9` and the letters `a` to
/// `f`, so it is text as it stands.
pub proof fn lemma_serial_is_hex(jedec_id: u32)
    ensures
        serial_of(jedec_id).len() == 8,
        forall|i: int|
            0 <= i < 8 ==> {
                let c = #[trigger] serial_of(jedec_id)[i];
                48 <= c <= 57 || 97 <= c <= 102
            },
{
}

} // verus!
