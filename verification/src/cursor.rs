//! Sequential reads from the front of a byte buffer. Each read removes the
//! bytes it consumed, so the next one starts where the last one ended; a read
//! that fails leaves the buffer as it was.

use crate::error::ParseError;
use vstd::prelude::*;
use vstd::slice::slice_subrange;
use vstd::string::StringSliceAdditionalSpecFns;
use vstd::utf8::*;

verus! {

/// The number of bytes in a tag.
pub const TAG_LEN: usize = 4;

/// The unsigned 16-bit value stored little-endian at `at`.
pub open spec fn le_u16(b: Seq<u8>, at: int) -> int
    recommends
        0 <= at,
        at + 2 <= b.len(),
{
    b[at] as int + 256 * (b[at + 1] as int)
}

/// The unsigned 32-bit value stored little-endian at `at`.
pub open spec fn le_u32(b: Seq<u8>, at: int) -> int
    recommends
        0 <= at,
        at + 4 <= b.len(),
{
    b[at] as int + 256 * (b[at + 1] as int) + 65536 * (b[at + 2] as int) + 16777216 * (b[at
        + 3] as int)
}

/// The four bytes of the tag stored at `at`.
pub open spec fn tag_bytes(b: Seq<u8>, at: int) -> Seq<u8>
    recommends
        0 <= at,
        at + 4 <= b.len(),
{
    b.subrange(at, at + 4)
}

/// Whether the four bytes at `at` are valid text.
pub open spec fn tag_ok(b: Seq<u8>, at: int) -> bool
    recommends
        0 <= at,
        at + 4 <= b.len(),
{
    valid_utf8(tag_bytes(b, at))
}

/// The text of the tag stored at `at`.
pub open spec fn tag_text(b: Seq<u8>, at: int) -> Seq<char>
    recommends
        0 <= at,
        at + 4 <= b.len(),
        tag_ok(b, at),
{
    decode_utf8(tag_bytes(b, at))
}

/// `core::str::Utf8Error`, the error of `core::str::from_utf8`. Nothing is
/// claimed of what it holds; it is only told apart from success.
#[verifier::external_type_specification]
#[verifier::external_body]
pub struct ExUtf8Error(core::str::Utf8Error);

/// `core::str::from_utf8` succeeds exactly on well-formed UTF-8, and the
/// string slice it returns is made of the very bytes it was given.
pub assume_specification[ core::str::from_utf8 ](v: &[u8]) -> (r: Result<
    &str,
    core::str::Utf8Error,
>)
    ensures
        r.is_ok() <==> valid_utf8(v@),
        r matches Ok(s) ==> s.spec_bytes() == v@,
;

/// Whether `width` bytes starting at `at` lie within a buffer of `len` bytes.
pub open spec fn fits(len: nat, at: int, width: int) -> bool {
    at + width <= len
}

/// Reads the little-endian 16-bit value that starts at byte `at`.
pub fn u16_at(bytes: &[u8], at: usize) -> (r: Result<u16, ParseError>)
    ensures
        fits(bytes@.len(), at as int, 2) ==> (r matches Ok(v) && v == le_u16(bytes@, at as int)),
        !fits(bytes@.len(), at as int, 2) ==> r == Err::<u16, ParseError>(
            ParseError::TruncatedInput,
        ),
{
    let len: usize = bytes.len();
    if len < 2 || at > len - 2 {
        return Err(ParseError::TruncatedInput);
    }
    let b0: u16 = bytes[at] as u16;
    let b1: u16 = bytes[at + 1] as u16;
    let v: u16 = b0 | (b1 << 8);
    assert(v == b0 + 256 * b1) by (bit_vector)
        requires
            v == b0 | (b1 << 8),
            b0 < 256,
            b1 < 256,
    ;
    Ok(v)
}

/// Reads the little-endian 32-bit value that starts at byte `at`.
pub fn u32_at(bytes: &[u8], at: usize) -> (r: Result<u32, ParseError>)
    ensures
        fits(bytes@.len(), at as int, 4) ==> (r matches Ok(v) && v == le_u32(bytes@, at as int)),
        !fits(bytes@.len(), at as int, 4) ==> r == Err::<u32, ParseError>(
            ParseError::TruncatedInput,
        ),
{
    let len: usize = bytes.len();
    if len < 4 || at > len - 4 {
        return Err(ParseError::TruncatedInput);
    }
    let b0: u32 = bytes[at] as u32;
    let b1: u32 = bytes[at + 1] as u32;
    let b2: u32 = bytes[at + 2] as u32;
    let b3: u32 = bytes[at + 3] as u32;
    let v: u32 = b0 | (b1 << 8) | (b2 << 16) | (b3 << 24);
    assert(v == b0 + 256 * b1 + 65536 * b2 + 16777216 * b3) by (bit_vector)
        requires
            v == b0 | (b1 << 8) | (b2 << 16) | (b3 << 24),
            b0 < 256,
            b1 < 256,
            b2 < 256,
            b3 < 256,
    ;
    Ok(v)
}

/// Decodes the four-byte tag that starts at byte `at`. Any well-formed UTF-8
/// is accepted, whatever it spells.
pub fn tag_at(bytes: &[u8], at: usize) -> (r: Result<String, ParseError>)
    ensures
        !fits(bytes@.len(), at as int, 4) ==> r == Err::<String, ParseError>(
            ParseError::TruncatedInput,
        ),
        fits(bytes@.len(), at as int, 4) && !tag_ok(bytes@, at as int) ==> r == Err::<
            String,
            ParseError,
        >(ParseError::InvalidEncoding),
        fits(bytes@.len(), at as int, 4) && tag_ok(bytes@, at as int) ==> (r matches Ok(s) && s@
            == tag_text(bytes@, at as int)),
{
    let len: usize = bytes.len();
    if len < TAG_LEN || at > len - TAG_LEN {
        return Err(ParseError::TruncatedInput);
    }
    let four = slice_subrange(bytes, at, at + TAG_LEN);
    match core::str::from_utf8(four) {
        Ok(s) => {
            proof {
                encode_utf8_decode_utf8(s@);
            }
            Ok(s.to_owned())
        },
        Err(_) => Err(ParseError::InvalidEncoding),
    }
}

/// Removes the first `n` bytes of `data` and returns them.
pub fn take_bytes(data: &mut Vec<u8>, n: usize) -> (r: Result<Vec<u8>, ParseError>)
    ensures
        n <= old(data)@.len() ==> (r matches Ok(taken) && taken@ == old(data)@.take(n as int)
            && final(data)@ == old(data)@.skip(n as int)),
        n > old(data)@.len() ==> r == Err::<Vec<u8>, ParseError>(ParseError::TruncatedInput)
            && final(data)@ == old(data)@,
{
    if n > data.len() {
        return Err(ParseError::TruncatedInput);
    }
    let mut taken = data.split_off(n);
    core::mem::swap(data, &mut taken);
    Ok(taken)
}

/// Drops the first `n` bytes of `data`.
pub(crate) fn discard(data: &mut Vec<u8>, n: usize)
    requires
        n <= old(data)@.len(),
    ensures
        final(data)@ == old(data)@.skip(n as int),
{
    let rest = data.split_off(n);
    *data = rest;
}

/// Consumes four bytes and returns them as a little-endian unsigned 32-bit
/// value.
pub fn little_to_big_u32(data: &mut Vec<u8>) -> (r: Result<u32, ParseError>)
    ensures
        old(data)@.len() >= 4 ==> (r matches Ok(v) && v == le_u32(old(data)@, 0) && final(data)@
            == old(data)@.skip(4)),
        old(data)@.len() < 4 ==> r == Err::<u32, ParseError>(ParseError::TruncatedInput)
            && final(data)@ == old(data)@,
{
    match u32_at(data.as_slice(), 0) {
        Ok(v) => {
            discard(data, 4);
            Ok(v)
        },
        Err(e) => Err(e),
    }
}

/// Consumes two bytes and returns them as a little-endian unsigned 16-bit
/// value.
pub fn little_to_big_u16(data: &mut Vec<u8>) -> (r: Result<u16, ParseError>)
    ensures
        old(data)@.len() >= 2 ==> (r matches Ok(v) && v == le_u16(old(data)@, 0) && final(data)@
            == old(data)@.skip(2)),
        old(data)@.len() < 2 ==> r == Err::<u16, ParseError>(ParseError::TruncatedInput)
            && final(data)@ == old(data)@,
{
    match u16_at(data.as_slice(), 0) {
        Ok(v) => {
            discard(data, 2);
            Ok(v)
        },
        Err(e) => Err(e),
    }
}

/// Consumes four bytes and returns them as text. Any well-formed UTF-8 is
/// accepted; bytes that are not are left in the buffer.
pub fn bytes_to_boxed_str(data: &mut Vec<u8>) -> (r: Result<String, ParseError>)
    ensures
        old(data)@.len() < 4 ==> r == Err::<String, ParseError>(ParseError::TruncatedInput)
            && final(data)@ == old(data)@,
        old(data)@.len() >= 4 && !tag_ok(old(data)@, 0) ==> r == Err::<String, ParseError>(
            ParseError::InvalidEncoding,
        ) && final(data)@ == old(data)@,
        old(data)@.len() >= 4 && tag_ok(old(data)@, 0) ==> (r matches Ok(s) && s@ == tag_text(
            old(data)@,
            0,
        ) && final(data)@ == old(data)@.skip(4)),
{
    match tag_at(data.as_slice(), 0) {
        Ok(s) => {
            discard(data, TAG_LEN);
            Ok(s)
        },
        Err(e) => Err(e),
    }
}

} // verus!
