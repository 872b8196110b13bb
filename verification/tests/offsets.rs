//! Tests of the signed 16-bit branch-offset arithmetic.

use avm1_emitter::offset_delta_i16;

#[test]
fn zero_distance() {
    assert_eq!(offset_delta_i16(5, 5), Some(0));
}

#[test]
fn forward_reach_ends_at_the_signed_maximum() {
    assert_eq!(offset_delta_i16(2, 32769), Some(32767));
    assert_eq!(offset_delta_i16(2, 32770), None);
}

#[test]
fn backward_reach_ends_at_the_signed_minimum() {
    assert_eq!(offset_delta_i16(32770, 2), Some(-32768));
    assert_eq!(offset_delta_i16(32771, 2), None);
}

#[test]
fn small_backward_distance() {
    assert_eq!(offset_delta_i16(5, 2), Some(-3));
}
