//! Big-endian integer fields.

use crate::error::DnsError;
use vstd::prelude::*;

verus! {

/// The two bytes of a 16-bit field, most significant first.
pub open spec fn u16_bytes(value: u16) -> Seq<u8> {
    seq![(value / 256) as u8, (value % 256) as u8]
}

/// The four bytes of a 32-bit field, most significant first.
pub open spec fn u32_bytes(value: u32) -> Seq<u8> {
    seq![
        (value / 0x100_0000) as u8,
        (value / 0x1_0000 % 256) as u8,
        (value / 0x100 % 256) as u8,
        (value % 256) as u8,
    ]
}

/// The 16-bit field whose two bytes start at `pos`.
pub open spec fn u16_at(buffer: Seq<u8>, pos: int) -> u16 {
    (buffer[pos] as int * 256 + buffer[pos + 1] as int) as u16
}

/// The 32-bit field whose four bytes start at `pos`.
pub open spec fn u32_at(buffer: Seq<u8>, pos: int) -> u32 {
    (buffer[pos] as int * 0x100_0000 + buffer[pos + 1] as int * 0x1_0000 + buffer[pos + 2] as int
        * 0x100 + buffer[pos + 3] as int) as u32
}

/// `window` occupies the bytes of `buffer` that start at `pos`.
pub open spec fn holds_at(buffer: Seq<u8>, pos: int, window: Seq<u8>) -> bool {
    &&& 0 <= pos
    &&& pos + window.len() <= buffer.len()
    &&& buffer.subrange(pos, pos + window.len()) == window
}

/// Reading back a written 16-bit field gives the value that was written.
pub proof fn lemma_u16_round_trip(buffer: Seq<u8>, pos: int, value: u16)
    requires
        holds_at(buffer, pos, u16_bytes(value)),
    ensures
        u16_at(buffer, pos) == value,
{
    let window = buffer.subrange(pos, pos + 2);
    assert(window[0] == buffer[pos] && window[1] == buffer[pos + 1]);
}

/// Reading back a written 32-bit field gives the value that was written.
pub proof fn lemma_u32_round_trip(buffer: Seq<u8>, pos: int, value: u32)
    requires
        holds_at(buffer, pos, u32_bytes(value)),
    ensures
        u32_at(buffer, pos) == value,
{
    let window = buffer.subrange(pos, pos + 4);
    assert(window[0] == buffer[pos] && window[1] == buffer[pos + 1] && window[2] == buffer[pos + 2]
        && window[3] == buffer[pos + 3]);
}

/// A window that holds two parts holds each of them at its place.
pub proof fn lemma_holds_at_split(buffer: Seq<u8>, pos: int, first: Seq<u8>, second: Seq<u8>)
    requires
        holds_at(buffer, pos, first + second),
    ensures
        holds_at(buffer, pos, first),
        holds_at(buffer, pos + first.len(), second),
{
    let whole = buffer.subrange(pos, pos + (first + second).len());
    assert(buffer.subrange(pos, pos + first.len()) =~= whole.subrange(0, first.len() as int));
    assert(whole.subrange(0, first.len() as int) =~= first);
    assert(buffer.subrange(pos + first.len(), pos + first.len() + second.len()) =~= whole.subrange(
        first.len() as int,
        whole.len() as int,
    ));
    assert(whole.subrange(first.len() as int, whole.len() as int) =~= second);
}

/// Reads the 16-bit field at `offset`, or reports that the buffer ends before it does.
pub fn read_u16(buffer: &[u8], offset: usize) -> (result: Result<u16, DnsError>)
    ensures
        offset + 2 <= buffer@.len() ==> result == Ok::<u16, DnsError>(u16_at(buffer@, offset as int)),
        offset + 2 > buffer@.len() ==> result == Err::<u16, DnsError>(DnsError::TruncatedInput),
{
    let len = buffer.len();
    if len < 2 || offset > len - 2 {
        return Err(DnsError::TruncatedInput);
    }
    let hi: u16 = buffer[offset] as u16;
    let lo: u16 = buffer[offset + 1] as u16;
    Ok(hi * 256 + lo)
}

/// Reads the 32-bit field at `offset`, or reports that the buffer ends before it does.
pub fn read_u32(buffer: &[u8], offset: usize) -> (result: Result<u32, DnsError>)
    ensures
        offset + 4 <= buffer@.len() ==> result == Ok::<u32, DnsError>(u32_at(buffer@, offset as int)),
        offset + 4 > buffer@.len() ==> result == Err::<u32, DnsError>(DnsError::TruncatedInput),
{
    let len = buffer.len();
    if len < 4 || offset > len - 4 {
        return Err(DnsError::TruncatedInput);
    }
    let b0: u32 = buffer[offset] as u32;
    let b1: u32 = buffer[offset + 1] as u32;
    let b2: u32 = buffer[offset + 2] as u32;
    let b3: u32 = buffer[offset + 3] as u32;
    Ok(b0 * 0x100_0000 + b1 * 0x1_0000 + b2 * 0x100 + b3)
}

/// Appends the two bytes of `value` to `out`.
pub fn write_u16(out: &mut Vec<u8>, value: u16)
    ensures
        final(out)@ == old(out)@ + u16_bytes(value),
{
    out.push((value / 256) as u8);
    out.push((value % 256) as u8);
}

/// Appends the four bytes of `value` to `out`.
pub fn write_u32(out: &mut Vec<u8>, value: u32)
    ensures
        final(out)@ == old(out)@ + u32_bytes(value),
{
    out.push((value / 0x100_0000) as u8);
    out.push((value / 0x1_0000 % 256) as u8);
    out.push((value / 0x100 % 256) as u8);
    out.push((value % 256) as u8);
}

} // verus!
