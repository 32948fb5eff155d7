//! Little-endian integers and UTF-8 text in byte strings.

use byteorder::{ByteOrder, LittleEndian};
use vstd::prelude::*;
use vstd::utf8::{decode_utf8, valid_utf8};

verus! {

/// The unsigned 32-bit integer whose little-endian bytes stand at `pos`.
pub open spec fn u32_at(data: Seq<u8>, pos: int) -> u32 {
    (data[pos] + 0x100 * data[pos + 1] + 0x1_0000 * data[pos + 2] + 0x100_0000 * data[pos
        + 3]) as u32
}

/// The signed 32-bit integer whose little-endian bytes, in two's complement, stand at `pos`.
pub open spec fn i32_at(data: Seq<u8>, pos: int) -> i32 {
    let bits = u32_at(data, pos);
    (if bits < 0x8000_0000 {
        bits as int
    } else {
        bits - 0x1_0000_0000
    }) as i32
}

/// Calls `byteorder`'s `LittleEndian::read_u32`, which reads the first four bytes of `buf` as an
/// unsigned integer, least significant byte first, and panics on fewer.
#[verifier::external_body]
pub(crate) fn read_u32(buf: &[u8]) -> (value: u32)
    requires
        buf@.len() >= 4,
    ensures
        value == u32_at(buf@, 0),
{
    LittleEndian::read_u32(buf)
}

/// Calls `byteorder`'s `LittleEndian::read_i32`, which reads the first four bytes of `buf` as a
/// signed integer in two's complement, least significant byte first, and panics on fewer.
#[verifier::external_body]
pub(crate) fn read_i32(buf: &[u8]) -> (value: i32)
    requires
        buf@.len() >= 4,
    ensures
        value == i32_at(buf@, 0),
{
    LittleEndian::read_i32(buf)
}

/// Calls `byteorder`'s `LittleEndian::read_u32_into`, which fills `dst` with the unsigned integers
/// whose little-endian bytes follow each other in `src`, and panics unless `src` has four bytes
/// for each.
#[verifier::external_body]
pub(crate) fn read_u32_into(src: &[u8], dst: &mut Vec<u32>)
    requires
        src@.len() == 4 * old(dst)@.len(),
    ensures
        final(dst)@ == Seq::new(old(dst)@.len(), |i: int| u32_at(src@, 4 * i)),
{
    LittleEndian::read_u32_into(src, dst)
}

/// What `String::from_utf8` reports of bytes that are no UTF-8.
#[verifier::external_type_specification]
#[verifier::external_body]
pub struct ExFromUtf8Error(std::string::FromUtf8Error);

/// `String::from_utf8` accepts exactly the byte strings that are valid UTF-8, and gives the text
/// that they encode.
pub assume_specification[ String::from_utf8 ](vec: Vec<u8>) -> (res: Result<
    String,
    std::string::FromUtf8Error,
>)
    ensures
        res is Ok <==> valid_utf8(vec@),
        res matches Ok(text) ==> text@ == decode_utf8(vec@),
;

/// The integer at a position of a byte string is that at the start of what is left from there.
pub proof fn lemma_integers_in_subrange(data: Seq<u8>, from: int, to: int, pos: int)
    requires
        0 <= from <= to <= data.len(),
        0 <= pos,
        from + pos + 4 <= to,
    ensures
        u32_at(data.subrange(from, to), pos) == u32_at(data, from + pos),
        i32_at(data.subrange(from, to), pos) == i32_at(data, from + pos),
{
}

/// The bytes of an integer are its digits to base 256, the least significant first. The signed
/// integer differs from the unsigned one by nothing or by two to the 32nd.
pub proof fn law_bytes_are_digits(data: Seq<u8>, pos: int)
    ensures
        ({
            let value = u32_at(data, pos) as int;
            &&& value % 0x100 == data[pos]
            &&& value / 0x100 % 0x100 == data[pos + 1]
            &&& value / 0x1_0000 % 0x100 == data[pos + 2]
            &&& value / 0x100_0000 == data[pos + 3]
            &&& i32_at(data, pos) == (if data[pos + 3] < 0x80 {
                value
            } else {
                value - 0x1_0000_0000
            })
        }),
{
}

} // verus!
