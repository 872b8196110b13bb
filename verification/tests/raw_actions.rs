//! Tests of the raw-action encoder: single actions with no framing.

use avm1_emitter::{
    emit_raw_action, CatchTarget, EmitError, GetUrl2Method, PushValue, RawAction, RawCatchBlock,
};

fn enc(a: &RawAction) -> Vec<u8> {
    emit_raw_action(a).expect("action must encode")
}

#[test]
fn end_is_one_zero_byte() {
    assert_eq!(enc(&RawAction::End), vec![0x00]);
}

#[test]
fn short_actions_are_their_opcode() {
    assert_eq!(enc(&RawAction::Add), vec![0x0a]);
    assert_eq!(enc(&RawAction::Return), vec![0x3e]);
    assert_eq!(enc(&RawAction::Throw), vec![0x2a]);
    assert_eq!(enc(&RawAction::StackSwap), vec![0x4d]);
    assert_eq!(enc(&RawAction::Extends), vec![0x69]);
}

#[test]
fn long_action_without_operands_has_zero_length() {
    assert_eq!(enc(&RawAction::Call), vec![0x9e, 0x00, 0x00]);
}

#[test]
fn push_boolean_true() {
    let a = RawAction::Push { values: vec![PushValue::Boolean(true)] };
    assert_eq!(enc(&a), vec![0x96, 0x02, 0x00, 0x05, 0x01]);
}

#[test]
fn push_constant_boundary() {
    // The one-byte form is used exactly while the index fits in a byte.
    let small = RawAction::Push { values: vec![PushValue::Constant(0x00ff)] };
    assert_eq!(enc(&small), vec![0x96, 0x02, 0x00, 0x08, 0xff]);
    let large = RawAction::Push { values: vec![PushValue::Constant(0x0100)] };
    assert_eq!(enc(&large), vec![0x96, 0x03, 0x00, 0x09, 0x00, 0x01]);
}

#[test]
fn push_constant_small() {
    let a = RawAction::Push { values: vec![PushValue::Constant(0x0010)] };
    assert_eq!(enc(&a), vec![0x96, 0x02, 0x00, 0x08, 0x10]);
}

#[test]
fn push_remaining_values() {
    let a = RawAction::Push {
        values: vec![
            PushValue::String(b"hi".to_vec()),
            PushValue::Null,
            PushValue::Undefined,
            PushValue::Register(7),
            PushValue::Sint32(-2),
        ],
    };
    assert_eq!(
        enc(&a),
        vec![
            0x96, 0x0d, 0x00, // header, body length 13
            0x00, 0x68, 0x69, 0x00, // tag 0, "hi\0"
            0x02, // null
            0x03, // undefined
            0x04, 0x07, // register 7
            0x07, 0xfe, 0xff, 0xff, 0xff, // sint32 -2
        ]
    );
}

#[test]
fn push_float32_is_plain_little_endian() {
    let a = RawAction::Push { values: vec![PushValue::Float32(0x3f80_0000)] };
    assert_eq!(enc(&a), vec![0x96, 0x05, 0x00, 0x01, 0x00, 0x00, 0x80, 0x3f]);
}

#[test]
fn push_float64_swaps_the_32_bit_halves() {
    let a = RawAction::Push { values: vec![PushValue::Float64(0x0102_0304_0506_0708)] };
    assert_eq!(
        enc(&a),
        vec![0x96, 0x09, 0x00, 0x06, 0x04, 0x03, 0x02, 0x01, 0x08, 0x07, 0x06, 0x05]
    );
}

#[test]
fn jump_and_if_carry_signed_offsets() {
    assert_eq!(enc(&RawAction::Jump { offset: -3 }), vec![0x99, 0x02, 0x00, 0xfd, 0xff]);
    assert_eq!(enc(&RawAction::If { offset: 2 }), vec![0x9d, 0x02, 0x00, 0x02, 0x00]);
}

#[test]
fn constant_pool_counts_then_strings() {
    let a = RawAction::ConstantPool { pool: vec![b"a".to_vec(), b"b".to_vec()] };
    assert_eq!(enc(&a), vec![0x88, 0x06, 0x00, 0x02, 0x00, 0x61, 0x00, 0x62, 0x00]);
}

#[test]
fn get_url2_packs_method_into_high_bits() {
    let a = RawAction::GetUrl2 {
        method: GetUrl2Method::Get,
        load_target: false,
        load_variables: false,
    };
    assert_eq!(enc(&a), vec![0x9a, 0x01, 0x00, 0x40]);
    let b = RawAction::GetUrl2 {
        method: GetUrl2Method::Post,
        load_target: true,
        load_variables: true,
    };
    assert_eq!(enc(&b), vec![0x9a, 0x01, 0x00, 0x83]);
}

#[test]
fn goto_frame2_emits_bias_only_when_nonzero() {
    let with_bias = RawAction::GotoFrame2 { play: true, scene_bias: 2 };
    assert_eq!(enc(&with_bias), vec![0x9f, 0x03, 0x00, 0x03, 0x02, 0x00]);
    let without = RawAction::GotoFrame2 { play: false, scene_bias: 0 };
    assert_eq!(enc(&without), vec![0x9f, 0x01, 0x00, 0x00]);
}

#[test]
fn string_operand_actions() {
    let a = RawAction::GotoLabel { label: b"top".to_vec() };
    assert_eq!(enc(&a), vec![0x8c, 0x04, 0x00, 0x74, 0x6f, 0x70, 0x00]);
    let b = RawAction::SetTarget { target_name: b"t".to_vec() };
    assert_eq!(enc(&b), vec![0x8b, 0x02, 0x00, 0x74, 0x00]);
    let c = RawAction::GetUrl { url: b"u".to_vec(), target: b"t".to_vec() };
    assert_eq!(enc(&c), vec![0x83, 0x04, 0x00, 0x75, 0x00, 0x74, 0x00]);
}

#[test]
fn small_operand_actions() {
    assert_eq!(enc(&RawAction::GotoFrame { frame: 0x0102 }), vec![0x81, 0x02, 0x00, 0x02, 0x01]);
    assert_eq!(enc(&RawAction::StoreRegister { register: 9 }), vec![0x87, 0x01, 0x00, 0x09]);
    assert_eq!(enc(&RawAction::StrictMode { is_strict: true }), vec![0x89, 0x01, 0x00, 0x01]);
    assert_eq!(
        enc(&RawAction::WaitForFrame { frame: 3, skip: 1 }),
        vec![0x8a, 0x03, 0x00, 0x03, 0x00, 0x01]
    );
    assert_eq!(enc(&RawAction::WaitForFrame2 { skip: 2 }), vec![0x8d, 0x01, 0x00, 0x02]);
    assert_eq!(enc(&RawAction::With { size: 5 }), vec![0x94, 0x02, 0x00, 0x05, 0x00]);
}

#[test]
fn raw_escape_verbatim() {
    let short = RawAction::Raw { code: 0x17, data: vec![] };
    assert_eq!(enc(&short), vec![0x17]);
    let long = RawAction::Raw { code: 0x80, data: vec![0xaa, 0xbb] };
    assert_eq!(enc(&long), vec![0x80, 0x02, 0x00, 0xaa, 0xbb]);
}

#[test]
fn define_function_raw_header() {
    let a = RawAction::DefineFunction {
        name: b"f".to_vec(),
        parameters: vec![b"x".to_vec()],
        body_size: 3,
    };
    assert_eq!(
        enc(&a),
        vec![0x9b, 0x08, 0x00, 0x66, 0x00, 0x01, 0x00, 0x78, 0x00, 0x03, 0x00]
    );
}

#[test]
fn too_many_pool_entries_is_an_error() {
    let pool: Vec<Vec<u8>> = vec![Vec::new(); 0x1_0000];
    let a = RawAction::ConstantPool { pool };
    assert_eq!(emit_raw_action(&a), Err(EmitError::CountTooLong));
}

#[test]
fn oversized_body_is_an_error() {
    let a = RawAction::Raw { code: 0x80, data: vec![0; 0x1_0000] };
    assert_eq!(emit_raw_action(&a), Err(EmitError::BodyTooLong));
    let b = RawAction::Push { values: vec![PushValue::String(vec![0x61; 0x1_0000])] };
    assert_eq!(emit_raw_action(&b), Err(EmitError::BodyTooLong));
}

#[test]
fn raw_try_with_catch_register() {
    let a = RawAction::Try {
        try_size: 2,
        catch: Some(RawCatchBlock { target: CatchTarget::Register(3), size: 1 }),
        finally_size: Some(4),
    };
    assert_eq!(
        enc(&a),
        vec![0x8f, 0x08, 0x00, 0x07, 0x02, 0x00, 0x01, 0x00, 0x04, 0x00, 0x03]
    );
}

#[test]
fn raw_try_without_catch_emits_a_placeholder_byte() {
    let a = RawAction::Try { try_size: 2, catch: None, finally_size: None };
    assert_eq!(
        enc(&a),
        vec![0x8f, 0x08, 0x00, 0x00, 0x02, 0x00, 0x00, 0x00, 0x00, 0x00, 0x00]
    );
}

#[test]
fn raw_try_with_variable_catch() {
    let a = RawAction::Try {
        try_size: 1,
        catch: Some(RawCatchBlock { target: CatchTarget::Variable(b"e".to_vec()), size: 1 }),
        finally_size: None,
    };
    assert_eq!(
        enc(&a),
        vec![0x8f, 0x09, 0x00, 0x01, 0x01, 0x00, 0x01, 0x00, 0x00, 0x00, 0x65, 0x00]
    );
}
