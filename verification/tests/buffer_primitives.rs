//! Tests of the patchable buffer and the primitive emitters.

use avm1_emitter::{
    emit_c_string, emit_le32_u64, emit_le_i16, emit_le_i32, emit_le_u16, emit_le_u32, emit_u8,
    PatchableBufWriter,
};

#[test]
fn buffer_starts_empty() {
    let w = PatchableBufWriter::new();
    assert_eq!(w.len(), 0);
    assert_eq!(w.complete(), Vec::<u8>::new());
}

#[test]
fn hole_reserves_two_zero_bytes_and_patch_fills_them() {
    let mut w = PatchableBufWriter::new();
    emit_u8(&mut w, 0x11);
    let hole = w.write_hole_le_u16();
    emit_u8(&mut w, 0x22);
    assert_eq!(w.len(), 4);
    hole.patch(&mut w, 0xabcd);
    assert_eq!(w.complete(), vec![0x11, 0xcd, 0xab, 0x22]);
}

#[test]
fn signed_hole_is_patched_with_twos_complement_bits() {
    let mut w = PatchableBufWriter::new();
    let hole = w.write_hole_le_i16();
    let delta: i16 = -3;
    hole.patch(&mut w, delta as u16);
    assert_eq!(w.complete(), vec![0xfd, 0xff]);
}

#[test]
fn write_all_appends_in_order() {
    let mut w = PatchableBufWriter::new();
    w.write_all(&[1, 2]);
    w.write_all(&[]);
    w.write_all(&[3]);
    assert_eq!(w.complete(), vec![1, 2, 3]);
}

#[test]
fn integer_emitters_are_little_endian() {
    let mut w = PatchableBufWriter::new();
    emit_le_u16(&mut w, 0x0102);
    emit_le_i16(&mut w, -2);
    emit_le_u32(&mut w, 0x0a0b0c0d);
    emit_le_i32(&mut w, -2);
    assert_eq!(
        w.complete(),
        vec![0x02, 0x01, 0xfe, 0xff, 0x0d, 0x0c, 0x0b, 0x0a, 0xfe, 0xff, 0xff, 0xff]
    );
}

#[test]
fn swapped_u64_emits_high_half_first() {
    let mut w = PatchableBufWriter::new();
    emit_le32_u64(&mut w, 0x0102030405060708);
    assert_eq!(w.complete(), vec![0x04, 0x03, 0x02, 0x01, 0x08, 0x07, 0x06, 0x05]);
}

#[test]
fn c_string_gets_a_terminating_zero() {
    let mut w = PatchableBufWriter::new();
    emit_c_string(&mut w, &b"ab".to_vec());
    emit_c_string(&mut w, &Vec::new());
    assert_eq!(w.complete(), vec![0x61, 0x62, 0x00, 0x00]);
}
