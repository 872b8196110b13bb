//! Primitive emitters: fixed-width little-endian integers, the word-swapped
//! eight-byte encoding that AVM1 uses for doubles, and null-terminated
//! strings.  Each writes into a `PatchableBufWriter` and appends exactly the
//! bytes that its specification function names.

use crate::buffer::le_u16_bytes;
use crate::buffer::PatchableBufWriter;
use vstd::prelude::*;

verus! {

/// Little-endian bytes of a signed 16-bit value (two's complement).
pub open spec fn le_i16_bytes(v: i16) -> Seq<u8> {
    le_u16_bytes(v as u16)
}

/// The four little-endian bytes of a 32-bit value.
pub open spec fn le_u32_bytes(v: u32) -> Seq<u8> {
    seq![
        (v % 256) as u8,
        ((v / 256) % 256) as u8,
        ((v / 65536) % 256) as u8,
        (v / 16777216) as u8,
    ]
}

/// Little-endian bytes of a signed 32-bit value (two's complement).
pub open spec fn le_i32_bytes(v: i32) -> Seq<u8> {
    le_u32_bytes(v as u32)
}

/// The eight bytes of AVM1's double encoding, taken from the 64 bits of the
/// standard encoding: the little-endian bytes of the high 32-bit half first,
/// then those of the low half.
pub open spec fn swapped_u64_bytes(v: u64) -> Seq<u8> {
    le_u32_bytes((v / 4294967296) as u32) + le_u32_bytes(v as u32)
}

/// A byte string followed by one terminating zero byte.
pub open spec fn c_string_bytes(s: Seq<u8>) -> Seq<u8> {
    s.push(0)
}

pub fn emit_u8(w: &mut PatchableBufWriter, value: u8)
    ensures
        final(w).bytes() == old(w).bytes().push(value),
        final(w).holes() == old(w).holes(),
{
    w.push(value);
}

pub fn emit_le_u16(w: &mut PatchableBufWriter, value: u16)
    ensures
        final(w).bytes() == old(w).bytes() + le_u16_bytes(value),
        final(w).holes() == old(w).holes(),
{
    w.push((value % 256) as u8);
    w.push((value / 256) as u8);
    proof {
        assert(old(w).bytes() + le_u16_bytes(value) =~= old(w).bytes().push(
            (value % 256) as u8,
        ).push((value / 256) as u8));
    }
}

pub fn emit_le_i16(w: &mut PatchableBufWriter, value: i16)
    ensures
        final(w).bytes() == old(w).bytes() + le_i16_bytes(value),
        final(w).holes() == old(w).holes(),
{
    emit_le_u16(w, value as u16);
}

pub fn emit_le_u32(w: &mut PatchableBufWriter, value: u32)
    ensures
        final(w).bytes() == old(w).bytes() + le_u32_bytes(value),
        final(w).holes() == old(w).holes(),
{
    w.push((value % 256) as u8);
    w.push(((value / 256) % 256) as u8);
    w.push(((value / 65536) % 256) as u8);
    w.push((value / 16777216) as u8);
    proof {
        assert(old(w).bytes() + le_u32_bytes(value) =~= old(w).bytes().push(
            (value % 256) as u8,
        ).push(((value / 256) % 256) as u8).push(((value / 65536) % 256) as u8).push(
            (value / 16777216) as u8,
        ));
    }
}

pub fn emit_le_i32(w: &mut PatchableBufWriter, value: i32)
    ensures
        final(w).bytes() == old(w).bytes() + le_i32_bytes(value),
        final(w).holes() == old(w).holes(),
{
    emit_le_u32(w, value as u32);
}

/// Emits the eight bytes of AVM1's word-swapped double encoding from the 64
/// bits of the standard encoding.
pub fn emit_le32_u64(w: &mut PatchableBufWriter, value: u64)
    ensures
        final(w).bytes() == old(w).bytes() + swapped_u64_bytes(value),
        final(w).holes() == old(w).holes(),
{
    emit_le_u32(w, (value / 4294967296) as u32);
    emit_le_u32(w, value as u32);
    proof {
        assert(old(w).bytes() + swapped_u64_bytes(value) =~= old(w).bytes() + le_u32_bytes(
            (value / 4294967296) as u32,
        ) + le_u32_bytes(value as u32));
    }
}

/// Emits the bytes of `value` followed by one zero byte.  A byte string with
/// an embedded zero encodes a truncated string; the format leaves that case
/// to the producer of the input and it is not checked here.
pub fn emit_c_string(w: &mut PatchableBufWriter, value: &Vec<u8>)
    ensures
        final(w).bytes() == old(w).bytes() + c_string_bytes(value@),
        final(w).holes() == old(w).holes(),
{
    w.write_all(value.as_slice());
    w.push(0);
    proof {
        assert(old(w).bytes() + c_string_bytes(value@) =~= (old(w).bytes() + value@).push(0u8));
    }
}

} // verus!
