//! The byte-level building blocks of a frame: big-endian integers, the magic
//! head, the CRC-16/ARC trailer and the conversion between bytes and text.

use vstd::prelude::*;
use vstd::utf8::*;

verus! {

/// The two bytes every frame starts with.
pub const CMD_HEAD: [u8; 2] = [27, 59];

/// The width in bytes of a length field.
pub const LEN_SIZE: usize = 4;

/// The integer type of a length field.
pub type CommandLenType = u32;

/// The CRC-16/ARC checksum of `bytes`, as `crc16::State::<ARC>::calculate`
/// computes it.
pub uninterp spec fn crc16_arc(bytes: Seq<u8>) -> u16;

/// The text `String::from_utf8_lossy` makes of bytes that are not valid
/// UTF-8, with a replacement character for each part it cannot read.
pub uninterp spec fn utf8_replaced(bytes: Seq<u8>) -> Seq<char>;

/// The text that a run of bytes stands for: its UTF-8 decoding where it has
/// one, and the repaired text otherwise.
pub open spec fn utf8_lossy(bytes: Seq<u8>) -> Seq<char> {
    if valid_utf8(bytes) {
        decode_utf8(bytes)
    } else {
        utf8_replaced(bytes)
    }
}

/// The value of the big-endian 16-bit integer stored at `at`.
pub open spec fn u16_at(bytes: Seq<u8>, at: int) -> int {
    bytes[at] * 0x100 + bytes[at + 1]
}

/// The value of the big-endian 32-bit integer stored at `at`.
pub open spec fn u32_at(bytes: Seq<u8>, at: int) -> int {
    bytes[at] * 0x100_0000 + bytes[at + 1] * 0x1_0000 + bytes[at + 2] * 0x100 + bytes[at + 3]
}

/// The two bytes of a 16-bit integer, most significant first.
pub open spec fn be_u16(n: u16) -> Seq<u8> {
    seq![(n / 0x100) as u8, (n % 0x100) as u8]
}

/// The four bytes of a 32-bit integer, most significant first.
pub open spec fn be_u32(n: u32) -> Seq<u8> {
    seq![
        (n / 0x100_0000) as u8,
        (n / 0x1_0000 % 0x100) as u8,
        (n / 0x100 % 0x100) as u8,
        (n % 0x100) as u8,
    ]
}

/// What a length field holds for a payload of `len` bytes: the length itself
/// while it fits in 32 bits, and its low 32 bits beyond that.
pub open spec fn length_field(len: nat) -> u32 {
    (len % 0x1_0000_0000) as u32
}

/// A frame body followed by its trailer, the checksum of the body.
pub open spec fn sealed(body: Seq<u8>) -> Seq<u8> {
    body + be_u16(crc16_arc(body))
}

/// Reading back a 16-bit integer gives the integer that was written.
pub proof fn lemma_be_u16_round_trip(n: u16)
    ensures
        be_u16(n).len() == 2,
        u16_at(be_u16(n), 0) == n,
{
}

/// Reading back a 32-bit integer gives the integer that was written.
pub proof fn lemma_be_u32_round_trip(n: u32)
    ensures
        be_u32(n).len() == 4,
        u32_at(be_u32(n), 0) == n,
{
}

/// The CRC-16/ARC checksum of `bytes`, computed by
/// `crc16::State::<ARC>::calculate`. The contract only names the value: it is
/// the same for the same bytes, and nothing more is claimed of it.
#[verifier::external_body]
pub(crate) fn checksum(bytes: &[u8]) -> (crc: u16)
    ensures
        crc == crc16_arc(bytes@),
{
    crc16::State::<crc16::ARC>::calculate(bytes)
}

/// The text of `bytes`, made by `String::from_utf8_lossy`: valid UTF-8 is
/// decoded as it stands, anything else is repaired with replacement
/// characters.
#[verifier::external_body]
pub(crate) fn lossy_text(bytes: &[u8]) -> (text: String)
    ensures
        valid_utf8(bytes@) ==> text@ == decode_utf8(bytes@),
        !valid_utf8(bytes@) ==> text@ == utf8_replaced(bytes@),
{
    String::from_utf8_lossy(bytes).into_owned()
}

/// Appends every byte of `bytes` to `out`.
pub(crate) fn push_all(out: &mut Vec<u8>, bytes: &[u8])
    ensures
        final(out)@ == old(out)@ + bytes@,
{
    let mut i: usize = 0;
    while i < bytes.len()
        invariant
            i <= bytes.len(),
            out@ == old(out)@ + bytes@.take(i as int),
        decreases bytes.len() - i,
    {
        out.push(bytes[i]);
        i += 1;
        assert(bytes@.take(i as int) == bytes@.take(i - 1).push(bytes@[i - 1]));
    }
    assert(bytes@.take(i as int) == bytes@);
}

/// Appends the two bytes of `n`, most significant first.
pub(crate) fn push_u16(out: &mut Vec<u8>, n: u16)
    ensures
        final(out)@ == old(out)@ + be_u16(n),
{
    out.push((n / 0x100) as u8);
    out.push((n % 0x100) as u8);
    assert(out@ == old(out)@ + be_u16(n));
}

/// Appends the four bytes of `n`, most significant first.
pub(crate) fn push_u32(out: &mut Vec<u8>, n: u32)
    ensures
        final(out)@ == old(out)@ + be_u32(n),
{
    out.push((n / 0x100_0000) as u8);
    out.push((n / 0x1_0000 % 0x100) as u8);
    out.push((n / 0x100 % 0x100) as u8);
    out.push((n % 0x100) as u8);
    assert(out@ == old(out)@ + be_u32(n));
}

/// Reads the big-endian 32-bit integer stored at `at`.
pub(crate) fn read_u32(bytes: &[u8], at: usize) -> (n: u32)
    requires
        at + 4 <= bytes.len(),
    ensures
        n == u32_at(bytes@, at as int),
{
    let b0: u32 = bytes[at] as u32;
    let b1: u32 = bytes[at + 1] as u32;
    let b2: u32 = bytes[at + 2] as u32;
    let b3: u32 = bytes[at + 3] as u32;
    b0 * 0x100_0000 + b1 * 0x1_0000 + b2 * 0x100 + b3
}

/// Reads the big-endian 16-bit integer stored at `at`.
pub(crate) fn read_u16(bytes: &[u8], at: usize) -> (n: u16)
    requires
        at + 2 <= bytes.len(),
    ensures
        n == u16_at(bytes@, at as int),
{
    let b0: u16 = bytes[at] as u16;
    let b1: u16 = bytes[at + 1] as u16;
    b0 * 0x100 + b1
}

/// The low 32 bits of a payload length, as a length field stores them.
pub(crate) fn field_of_len(len: usize) -> (n: u32)
    ensures
        n == length_field(len as nat),
{
    ((len as u64) % 0x1_0000_0000) as u32
}

} // verus!
