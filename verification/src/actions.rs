//! Encoding of raw actions.
//!
//! Each action is one opcode byte; opcodes of `0x80` and above are followed
//! by a two-byte little-endian length prefix and that many body bytes.  The
//! length prefix is always written through a hole that is patched once the
//! body has been emitted, so bodies are self-measuring.

use crate::buffer::{le_u16_bytes, patched2, BufferHole, PatchableBufWriter};
use crate::primitives::{
    c_string_bytes, emit_c_string, emit_le32_u64, emit_le_i16, emit_le_i32, emit_le_u16,
    emit_le_u32, emit_u8, le_i16_bytes, le_i32_bytes, le_u32_bytes, swapped_u64_bytes,
};
use crate::types::{CatchTarget, EmitError, GetUrl2Method, PushValue, RawAction, RawCatchBlock, RawParameter};
use vstd::prelude::*;

verus! {

/// The opcode byte of a raw action.
pub open spec fn opcode(a: RawAction) -> u8 {
    match a {
        RawAction::Add => 0x0a,
        RawAction::Add2 => 0x47,
        RawAction::And => 0x10,
        RawAction::AsciiToChar => 0x33,
        RawAction::BitAnd => 0x60,
        RawAction::BitOr => 0x61,
        RawAction::BitLShift => 0x63,
        RawAction::BitRShift => 0x64,
        RawAction::BitURShift => 0x65,
        RawAction::BitXor => 0x62,
        RawAction::Call => 0x9e,
        RawAction::CallFunction => 0x3d,
        RawAction::CallMethod => 0x52,
        RawAction::CharToAscii => 0x32,
        RawAction::CastOp => 0x2b,
        RawAction::CloneSprite => 0x24,
        RawAction::ConstantPool { .. } => 0x88,
        RawAction::Decrement => 0x51,
        RawAction::DefineFunction { .. } => 0x9b,
        RawAction::DefineFunction2 { .. } => 0x8e,
        RawAction::DefineLocal => 0x3c,
        RawAction::DefineLocal2 => 0x41,
        RawAction::Delete => 0x3a,
        RawAction::Delete2 => 0x3b,
        RawAction::Divide => 0x0d,
        RawAction::End => 0x00,
        RawAction::EndDrag => 0x28,
        RawAction::Enumerate => 0x46,
        RawAction::Enumerate2 => 0x55,
        RawAction::Equals => 0x0e,
        RawAction::Equals2 => 0x49,
        RawAction::Extends => 0x69,
        RawAction::FsCommand2 => 0x2d,
        RawAction::GetMember => 0x4e,
        RawAction::GetProperty => 0x22,
        RawAction::GetTime => 0x34,
        RawAction::GetUrl { .. } => 0x83,
        RawAction::GetUrl2 { .. } => 0x9a,
        RawAction::GetVariable => 0x1c,
        RawAction::GotoFrame { .. } => 0x81,
        RawAction::GotoFrame2 { .. } => 0x9f,
        RawAction::GotoLabel { .. } => 0x8c,
        RawAction::Greater => 0x67,
        RawAction::If { .. } => 0x9d,
        RawAction::ImplementsOp => 0x2c,
        RawAction::Increment => 0x50,
        RawAction::InitArray => 0x42,
        RawAction::InitObject => 0x43,
        RawAction::InstanceOf => 0x54,
        RawAction::Jump { .. } => 0x99,
        RawAction::Less => 0x0f,
        RawAction::Less2 => 0x48,
        RawAction::MbAsciiToChar => 0x37,
        RawAction::MbCharToAscii => 0x36,
        RawAction::MbStringExtract => 0x35,
        RawAction::MbStringLength => 0x31,
        RawAction::Modulo => 0x3f,
        RawAction::Multiply => 0x0c,
        RawAction::NewMethod => 0x53,
        RawAction::NewObject => 0x40,
        RawAction::NextFrame => 0x04,
        RawAction::Not => 0x12,
        RawAction::Or => 0x11,
        RawAction::Play => 0x06,
        RawAction::Pop => 0x17,
        RawAction::PrevFrame => 0x05,
        RawAction::Push { .. } => 0x96,
        RawAction::PushDuplicate => 0x4c,
        RawAction::RandomNumber => 0x30,
        RawAction::Raw { code, .. } => code,
        RawAction::RemoveSprite => 0x25,
        RawAction::Return => 0x3e,
        RawAction::SetMember => 0x4f,
        RawAction::SetProperty => 0x23,
        RawAction::SetTarget { .. } => 0x8b,
        RawAction::SetTarget2 => 0x20,
        RawAction::SetVariable => 0x1d,
        RawAction::StackSwap => 0x4d,
        RawAction::StartDrag => 0x27,
        RawAction::Stop => 0x07,
        RawAction::StopSounds => 0x09,
        RawAction::StoreRegister { .. } => 0x87,
        RawAction::StrictEquals => 0x66,
        RawAction::StrictMode { .. } => 0x89,
        RawAction::StringAdd => 0x21,
        RawAction::StringEquals => 0x13,
        RawAction::StringExtract => 0x15,
        RawAction::StringGreater => 0x68,
        RawAction::StringLength => 0x14,
        RawAction::StringLess => 0x29,
        RawAction::Subtract => 0x0b,
        RawAction::TargetPath => 0x45,
        RawAction::Throw => 0x2a,
        RawAction::ToInteger => 0x18,
        RawAction::ToNumber => 0x4a,
        RawAction::ToString => 0x4b,
        RawAction::ToggleQuality => 0x08,
        RawAction::Trace => 0x26,
        RawAction::Try { .. } => 0x8f,
        RawAction::TypeOf => 0x44,
        RawAction::WaitForFrame { .. } => 0x8a,
        RawAction::WaitForFrame2 { .. } => 0x8d,
        RawAction::With { .. } => 0x94,
    }
}

/// The bytes of one push value: a one-byte type tag followed by the value's
/// encoding.  A constant-pool index uses the one-byte form exactly when it
/// fits in a byte.
pub open spec fn push_value_bytes(v: PushValue) -> Seq<u8> {
    match v {
        PushValue::Boolean(b) => seq![5u8, (if b { 1u8 } else { 0u8 })],
        PushValue::Constant(c) => if c <= 0xff {
            seq![8u8, c as u8]
        } else {
            seq![9u8] + le_u16_bytes(c)
        },
        PushValue::Float32(bits) => seq![1u8] + le_u32_bytes(bits),
        PushValue::Float64(bits) => seq![6u8] + swapped_u64_bytes(bits),
        PushValue::Null => seq![2u8],
        PushValue::Register(r) => seq![4u8, r],
        PushValue::Sint32(x) => seq![7u8] + le_i32_bytes(x),
        PushValue::String(s) => seq![0u8] + c_string_bytes(s@),
        PushValue::Undefined => seq![3u8],
    }
}

/// Concatenated bytes of a sequence of push values.
pub open spec fn push_values_bytes(vs: Seq<PushValue>) -> Seq<u8>
    decreases vs.len(),
{
    if vs.len() == 0 {
        Seq::empty()
    } else {
        push_values_bytes(vs.drop_last()) + push_value_bytes(vs.last())
    }
}

/// Concatenated null-terminated strings.
pub open spec fn c_string_list_bytes(items: Seq<Vec<u8>>) -> Seq<u8>
    decreases items.len(),
{
    if items.len() == 0 {
        Seq::empty()
    } else {
        c_string_list_bytes(items.drop_last()) + c_string_bytes(items.last()@)
    }
}

/// Concatenated register/name parameter pairs.
pub open spec fn raw_parameters_bytes(items: Seq<RawParameter>) -> Seq<u8>
    decreases items.len(),
{
    if items.len() == 0 {
        Seq::empty()
    } else {
        raw_parameters_bytes(items.drop_last()) + seq![items.last().register]
            + c_string_bytes(items.last().name@)
    }
}

/// Whether a catch target is a register.
pub open spec fn catch_in_register(target: CatchTarget) -> bool {
    match target {
        CatchTarget::Register(_) => true,
        CatchTarget::Variable(_) => false,
    }
}

/// The flag byte of a `Try` action.
pub open spec fn try_flags_byte(has_catch: bool, has_finally: bool, in_register: bool) -> u8 {
    ((if has_catch {
        1int
    } else {
        0int
    }) + (if has_finally {
        2int
    } else {
        0int
    }) + (if in_register {
        4int
    } else {
        0int
    })) as u8
}

/// The method code packed into the high bits of the `GetUrl2` flag byte.
pub open spec fn get_url2_method_code(method: GetUrl2Method) -> u8 {
    match method {
        GetUrl2Method::NoMethod => 0,
        GetUrl2Method::Get => 1,
        GetUrl2Method::Post => 2,
    }
}

/// The body bytes of a raw action; empty for actions without operands.
pub open spec fn raw_body(a: RawAction) -> Seq<u8> {
    match a {
        RawAction::ConstantPool { pool } => le_u16_bytes(pool@.len() as u16)
            + c_string_list_bytes(pool@),
        RawAction::DefineFunction { name, parameters, body_size } => c_string_bytes(name@)
            + le_u16_bytes(parameters@.len() as u16) + c_string_list_bytes(parameters@)
            + le_u16_bytes(body_size),
        RawAction::DefineFunction2 { name, register_count, flags, parameters, body_size } => (
        c_string_bytes(name@) + le_u16_bytes(parameters@.len() as u16) + seq![register_count]
            + le_u16_bytes(flags) + raw_parameters_bytes(parameters@) + le_u16_bytes(body_size)),
        RawAction::GetUrl { url, target } => c_string_bytes(url@) + c_string_bytes(target@),
        RawAction::GetUrl2 { method, load_target, load_variables } => seq![
            (((if load_variables {
                1int
            } else {
                0int
            }) + (if load_target {
                2int
            } else {
                0int
            }) + get_url2_method_code(method) * 64) as u8),
        ],
        RawAction::GotoFrame { frame } => le_u16_bytes(frame),
        RawAction::GotoFrame2 { play, scene_bias } => if scene_bias != 0 {
            seq![((if play { 1int } else { 0int }) + 2) as u8] + le_u16_bytes(scene_bias)
        } else {
            seq![(if play { 1u8 } else { 0u8 })]
        },
        RawAction::GotoLabel { label } => c_string_bytes(label@),
        RawAction::If { offset } => le_i16_bytes(offset),
        RawAction::Jump { offset } => le_i16_bytes(offset),
        RawAction::Push { values } => push_values_bytes(values@),
        RawAction::Raw { data, .. } => data@,
        RawAction::SetTarget { target_name } => c_string_bytes(target_name@),
        RawAction::StoreRegister { register } => seq![register],
        RawAction::StrictMode { is_strict } => seq![(if is_strict { 1u8 } else { 0u8 })],
        RawAction::Try { try_size, catch, finally_size } => seq![
            try_flags_byte(
                catch is Some,
                finally_size is Some,
                (match catch {
                    Some(cb) => catch_in_register(cb.target),
                    None => false,
                }),
            ),
        ] + le_u16_bytes(try_size) + le_u16_bytes(
            match catch {
                Some(cb) => cb.size,
                None => 0,
            },
        ) + le_u16_bytes(
            match finally_size {
                Some(s) => s,
                None => 0,
            },
        ) + (match catch {
            Some(cb) => match cb.target {
                CatchTarget::Register(r) => seq![r],
                CatchTarget::Variable(v) => c_string_bytes(v@),
            },
            None => seq![0u8],
        }),
        RawAction::WaitForFrame { frame, skip } => le_u16_bytes(frame) + seq![skip],
        RawAction::WaitForFrame2 { skip } => seq![skip],
        RawAction::With { size } => le_u16_bytes(size),
        _ => Seq::empty(),
    }
}

/// The full wire bytes of a raw action: the opcode, then — for long opcodes
/// only — the little-endian body length and the body.
pub open spec fn action_bytes(a: RawAction) -> Seq<u8> {
    if opcode(a) >= 0x80 {
        seq![opcode(a)] + le_u16_bytes(raw_body(a).len() as u16) + raw_body(a)
    } else {
        seq![opcode(a)]
    }
}

/// Whether every count field of the action fits in 16 bits.
pub open spec fn counts_ok(a: RawAction) -> bool {
    match a {
        RawAction::ConstantPool { pool } => pool@.len() <= 0xFFFF,
        RawAction::DefineFunction { parameters, .. } => parameters@.len() <= 0xFFFF,
        RawAction::DefineFunction2 { parameters, .. } => parameters@.len() <= 0xFFFF,
        _ => true,
    }
}

/// Whether the action can be encoded: counts fit, and the body fits its
/// 16-bit length prefix.
pub open spec fn action_ok(a: RawAction) -> bool {
    counts_ok(a) && raw_body(a).len() <= 0xFFFF
}

/// A `Raw` escape with a short opcode must not carry a body; attaching one
/// is a programmer error of the caller.
pub open spec fn raw_action_wf(a: RawAction) -> bool {
    match a {
        RawAction::Raw { code, data } => code >= 0x80 || data@.len() == 0,
        _ => true,
    }
}

/// The error reported for an action that cannot be encoded.
pub open spec fn action_err(a: RawAction) -> EmitError {
    if !counts_ok(a) {
        EmitError::CountTooLong
    } else {
        EmitError::BodyTooLong
    }
}

pub(crate) proof fn lemma_close_long(base: Seq<u8>, op: u8, body: Seq<u8>, res: Seq<u8>)
    requires
        body.len() <= 0xFFFF,
        res == patched2(base.push(op) + seq![0u8, 0u8] + body, base.len() as int + 1, body.len() as u16),
    ensures
        res =~= base + seq![op] + le_u16_bytes(body.len() as u16) + body,
{
    assert(res =~= base + seq![op] + le_u16_bytes(body.len() as u16) + body);
}

/// Emits one short (bodyless) opcode.
pub(crate) fn write_short(w: &mut PatchableBufWriter, op: u8)
    requires
        op < 0x80,
    ensures
        final(w).bytes() == old(w).bytes() + seq![op],
        final(w).holes() == old(w).holes(),
{
    emit_u8(w, op);
    proof {
        assert(old(w).bytes().push(op) =~= old(w).bytes() + seq![op]);
    }
}

/// Emits one long opcode with an empty body: the opcode and a zero length.
pub(crate) fn write_long_empty(w: &mut PatchableBufWriter, op: u8)
    requires
        op >= 0x80,
    ensures
        final(w).bytes() == old(w).bytes() + seq![op] + le_u16_bytes(0),
        final(w).holes() == old(w).holes(),
{
    emit_u8(w, op);
    emit_le_u16(w, 0);
    proof {
        assert(old(w).bytes().push(op) + le_u16_bytes(0) =~= old(w).bytes() + seq![op]
            + le_u16_bytes(0));
    }
}

/// Emits a long opcode and reserves its length prefix; returns the hole and
/// the offset at which the body starts.
pub(crate) fn begin_long(w: &mut PatchableBufWriter, op: u8) -> (r: (BufferHole, usize))
    ensures
        final(w).bytes() == old(w).bytes().push(op) + seq![0u8, 0u8],
        final(w).holes() == old(w).holes() + 1,
        r.0.pos() == old(w).bytes().len() + 1,
        r.1 == final(w).bytes().len(),
        r.1 == r.0.pos() + 2,
{
    emit_u8(w, op);
    let hole = w.write_hole_le_u16();
    let start = w.len();
    (hole, start)
}

/// Measures the body emitted since `body_start` and patches the length
/// prefix, or reports a body over 16 bits.
pub(crate) fn end_long(w: &mut PatchableBufWriter, hole: BufferHole, body_start: usize) -> (r: Result<
    (),
    EmitError,
>)
    requires
        hole.pos() + 2 == body_start,
        body_start <= old(w).bytes().len(),
        old(w).holes() >= 1,
    ensures
        old(w).bytes().len() - body_start <= 0xFFFF ==> {
            &&& r == Ok::<(), EmitError>(())
            &&& final(w).bytes() == patched2(
                old(w).bytes(),
                hole.pos(),
                (old(w).bytes().len() - body_start) as u16,
            )
            &&& final(w).holes() == (old(w).holes() - 1) as nat
        },
        old(w).bytes().len() - body_start > 0xFFFF ==> {
            &&& r == Err::<(), EmitError>(EmitError::BodyTooLong)
            &&& final(w).bytes() == old(w).bytes()
            &&& final(w).holes() == old(w).holes()
        },
{
    let end = w.len();
    let body_len = end - body_start;
    if body_len > 0xFFFF {
        return Err(EmitError::BodyTooLong);
    }
    hole.patch(w, body_len as u16);
    Ok(())
}

/// Emits each string of the list as a null-terminated string.
pub(crate) fn write_c_string_list(w: &mut PatchableBufWriter, items: &Vec<Vec<u8>>)
    ensures
        final(w).bytes() == old(w).bytes() + c_string_list_bytes(items@),
        final(w).holes() == old(w).holes(),
{
    let mut i: usize = 0;
    while i < items.len()
        invariant
            i <= items@.len(),
            w.bytes() == old(w).bytes() + c_string_list_bytes(items@.take(i as int)),
            w.holes() == old(w).holes(),
        decreases items@.len() - i,
    {
        emit_c_string(w, &items[i]);
        proof {
            assert(items@.take(i + 1).drop_last() =~= items@.take(i as int));
            assert(items@.take(i + 1).last() == items@[i as int]);
            assert(old(w).bytes() + c_string_list_bytes(items@.take(i + 1)) =~= (old(w).bytes()
                + c_string_list_bytes(items@.take(i as int))) + c_string_bytes(items@[i as int]@));
        }
        i = i + 1;
    }
    proof {
        assert(items@.take(items@.len() as int) =~= items@);
    }
}

/// Emits each parameter as its register byte and null-terminated name.
pub(crate) fn write_raw_parameters(w: &mut PatchableBufWriter, items: &Vec<RawParameter>)
    ensures
        final(w).bytes() == old(w).bytes() + raw_parameters_bytes(items@),
        final(w).holes() == old(w).holes(),
{
    let mut i: usize = 0;
    while i < items.len()
        invariant
            i <= items@.len(),
            w.bytes() == old(w).bytes() + raw_parameters_bytes(items@.take(i as int)),
            w.holes() == old(w).holes(),
        decreases items@.len() - i,
    {
        emit_u8(w, items[i].register);
        emit_c_string(w, &items[i].name);
        proof {
            assert(items@.take(i + 1).drop_last() =~= items@.take(i as int));
            assert(items@.take(i + 1).last() == items@[i as int]);
            assert(old(w).bytes() + raw_parameters_bytes(items@.take(i + 1)) =~= ((old(w).bytes()
                + raw_parameters_bytes(items@.take(i as int))).push(items@[i as int].register))
                + c_string_bytes(items@[i as int].name@));
        }
        i = i + 1;
    }
    proof {
        assert(items@.take(items@.len() as int) =~= items@);
    }
}

/// Emits each push value as its tag byte and encoding.
fn write_push_values(w: &mut PatchableBufWriter, values: &Vec<PushValue>)
    ensures
        final(w).bytes() == old(w).bytes() + push_values_bytes(values@),
        final(w).holes() == old(w).holes(),
{
    let mut i: usize = 0;
    while i < values.len()
        invariant
            i <= values@.len(),
            w.bytes() == old(w).bytes() + push_values_bytes(values@.take(i as int)),
            w.holes() == old(w).holes(),
        decreases values@.len() - i,
    {
        let ghost before = w.bytes();
        match &values[i] {
            PushValue::Boolean(b) => {
                emit_u8(w, 5);
                emit_u8(w, if *b { 1 } else { 0 });
            },
            PushValue::Constant(c) => {
                if *c <= 0xff {
                    emit_u8(w, 8);
                    emit_u8(w, *c as u8);
                } else {
                    emit_u8(w, 9);
                    emit_le_u16(w, *c);
                }
            },
            PushValue::Float32(bits) => {
                emit_u8(w, 1);
                emit_le_u32(w, *bits);
            },
            PushValue::Float64(bits) => {
                emit_u8(w, 6);
                emit_le32_u64(w, *bits);
            },
            PushValue::Null => {
                emit_u8(w, 2);
            },
            PushValue::Register(r) => {
                emit_u8(w, 4);
                emit_u8(w, *r);
            },
            PushValue::Sint32(x) => {
                emit_u8(w, 7);
                emit_le_i32(w, *x);
            },
            PushValue::String(s) => {
                emit_u8(w, 0);
                emit_c_string(w, s);
            },
            PushValue::Undefined => {
                emit_u8(w, 3);
            },
        }
        proof {
            assert(w.bytes() =~= before + push_value_bytes(values@[i as int]));
            assert(values@.take(i + 1).drop_last() =~= values@.take(i as int));
            assert(values@.take(i + 1).last() == values@[i as int]);
            assert(old(w).bytes() + push_values_bytes(values@.take(i + 1)) =~= before
                + push_value_bytes(values@[i as int]));
        }
        i = i + 1;
    }
    proof {
        assert(values@.take(values@.len() as int) =~= values@);
    }
}


fn write_constant_pool_action(w: &mut PatchableBufWriter, value: &RawAction, pool: &Vec<Vec<u8>>) -> (r: Result<
    (),
    EmitError,
>)
    requires
        *value == (RawAction::ConstantPool { pool: *pool }),
    ensures
        r is Ok ==> {
            &&& action_ok(*value)
            &&& final(w).bytes() == old(w).bytes() + action_bytes(*value)
            &&& final(w).holes() == old(w).holes()
        },
        r is Err ==> !action_ok(*value) && r == Err::<(), EmitError>(action_err(*value)),
{
    if pool.len() > 0xFFFF {
        return Err(EmitError::CountTooLong);
    }
    let ghost base = w.bytes();
    let (hole, body_start) = begin_long(w, 0x88);
    emit_le_u16(w, pool.len() as u16);
    write_c_string_list(w, pool);
    proof {
        assert(w.bytes() =~= base.push(0x88u8) + seq![0u8, 0u8] + raw_body(*value));
    }
    match end_long(w, hole, body_start) {
        Ok(()) => {
            proof {
                lemma_close_long(base, 0x88, raw_body(*value), w.bytes());
                assert(base + seq![0x88u8] + le_u16_bytes(raw_body(*value).len() as u16)
                    + raw_body(*value) =~= base + action_bytes(*value));
            }
            Ok(())
        },
        Err(e) => Err(e),
    }
}

fn write_define_function_action(w: &mut PatchableBufWriter, value: &RawAction, name: &Vec<u8>, parameters: &Vec<Vec<u8>>, body_size: u16) -> (r: Result<
    (),
    EmitError,
>)
    requires
        *value == (RawAction::DefineFunction { name: *name, parameters: *parameters, body_size }),
    ensures
        r is Ok ==> {
            &&& action_ok(*value)
            &&& final(w).bytes() == old(w).bytes() + action_bytes(*value)
            &&& final(w).holes() == old(w).holes()
        },
        r is Err ==> !action_ok(*value) && r == Err::<(), EmitError>(action_err(*value)),
{
    if parameters.len() > 0xFFFF {
        return Err(EmitError::CountTooLong);
    }
    let ghost base = w.bytes();
    let (hole, body_start) = begin_long(w, 0x9b);
    emit_c_string(w, name);
    emit_le_u16(w, parameters.len() as u16);
    write_c_string_list(w, parameters);
    emit_le_u16(w, body_size);
    proof {
        assert(w.bytes() =~= base.push(0x9bu8) + seq![0u8, 0u8] + raw_body(*value));
    }
    match end_long(w, hole, body_start) {
        Ok(()) => {
            proof {
                lemma_close_long(base, 0x9b, raw_body(*value), w.bytes());
                assert(base + seq![0x9bu8] + le_u16_bytes(raw_body(*value).len() as u16)
                    + raw_body(*value) =~= base + action_bytes(*value));
            }
            Ok(())
        },
        Err(e) => Err(e),
    }
}

fn write_define_function2_action(w: &mut PatchableBufWriter, value: &RawAction, name: &Vec<u8>, register_count: u8, flags: u16, parameters: &Vec<RawParameter>, body_size: u16) -> (r: Result<
    (),
    EmitError,
>)
    requires
        *value == (RawAction::DefineFunction2 {
            name: *name,
            register_count,
            flags,
            parameters: *parameters,
            body_size,
        }),
    ensures
        r is Ok ==> {
            &&& action_ok(*value)
            &&& final(w).bytes() == old(w).bytes() + action_bytes(*value)
            &&& final(w).holes() == old(w).holes()
        },
        r is Err ==> !action_ok(*value) && r == Err::<(), EmitError>(action_err(*value)),
{
    if parameters.len() > 0xFFFF {
        return Err(EmitError::CountTooLong);
    }
    let ghost base = w.bytes();
    let (hole, body_start) = begin_long(w, 0x8e);
    emit_c_string(w, name);
    emit_le_u16(w, parameters.len() as u16);
    emit_u8(w, register_count);
    emit_le_u16(w, flags);
    write_raw_parameters(w, parameters);
    emit_le_u16(w, body_size);
    proof {
        assert(w.bytes() =~= base.push(0x8eu8) + seq![0u8, 0u8] + raw_body(*value));
    }
    match end_long(w, hole, body_start) {
        Ok(()) => {
            proof {
                lemma_close_long(base, 0x8e, raw_body(*value), w.bytes());
                assert(base + seq![0x8eu8] + le_u16_bytes(raw_body(*value).len() as u16)
                    + raw_body(*value) =~= base + action_bytes(*value));
            }
            Ok(())
        },
        Err(e) => Err(e),
    }
}

fn write_get_url_action(w: &mut PatchableBufWriter, value: &RawAction, url: &Vec<u8>, target: &Vec<u8>) -> (r: Result<
    (),
    EmitError,
>)
    requires
        *value == (RawAction::GetUrl { url: *url, target: *target }),
    ensures
        r is Ok ==> {
            &&& action_ok(*value)
            &&& final(w).bytes() == old(w).bytes() + action_bytes(*value)
            &&& final(w).holes() == old(w).holes()
        },
        r is Err ==> !action_ok(*value) && r == Err::<(), EmitError>(action_err(*value)),
{
    let ghost base = w.bytes();
    let (hole, body_start) = begin_long(w, 0x83);
    emit_c_string(w, url);
    emit_c_string(w, target);
    proof {
        assert(w.bytes() =~= base.push(0x83u8) + seq![0u8, 0u8] + raw_body(*value));
    }
    match end_long(w, hole, body_start) {
        Ok(()) => {
            proof {
                lemma_close_long(base, 0x83, raw_body(*value), w.bytes());
                assert(base + seq![0x83u8] + le_u16_bytes(raw_body(*value).len() as u16)
                    + raw_body(*value) =~= base + action_bytes(*value));
            }
            Ok(())
        },
        Err(e) => Err(e),
    }
}

fn write_get_url2_action(w: &mut PatchableBufWriter, value: &RawAction, method: GetUrl2Method, load_target: bool, load_variables: bool) -> (r: Result<
    (),
    EmitError,
>)
    requires
        *value == (RawAction::GetUrl2 { method, load_target, load_variables }),
    ensures
        r is Ok ==> {
            &&& action_ok(*value)
            &&& final(w).bytes() == old(w).bytes() + action_bytes(*value)
            &&& final(w).holes() == old(w).holes()
        },
        r is Err ==> !action_ok(*value) && r == Err::<(), EmitError>(action_err(*value)),
{
    let ghost base = w.bytes();
    let (hole, body_start) = begin_long(w, 0x9a);
    let mc: u8 = match method {
        GetUrl2Method::NoMethod => 0,
        GetUrl2Method::Get => 1,
        GetUrl2Method::Post => 2,
    };
    let flags: u8 = (if load_variables { 1 } else { 0 }) + (if load_target { 2 } else { 0 }) + mc
        * 64;
    emit_u8(w, flags);
    proof {
        assert(w.bytes() =~= base.push(0x9au8) + seq![0u8, 0u8] + raw_body(*value));
    }
    match end_long(w, hole, body_start) {
        Ok(()) => {
            proof {
                lemma_close_long(base, 0x9a, raw_body(*value), w.bytes());
                assert(base + seq![0x9au8] + le_u16_bytes(raw_body(*value).len() as u16)
                    + raw_body(*value) =~= base + action_bytes(*value));
            }
            Ok(())
        },
        Err(e) => Err(e),
    }
}

fn write_goto_frame_action(w: &mut PatchableBufWriter, value: &RawAction, frame: u16) -> (r: Result<
    (),
    EmitError,
>)
    requires
        *value == (RawAction::GotoFrame { frame }),
    ensures
        r is Ok ==> {
            &&& action_ok(*value)
            &&& final(w).bytes() == old(w).bytes() + action_bytes(*value)
            &&& final(w).holes() == old(w).holes()
        },
        r is Err ==> !action_ok(*value) && r == Err::<(), EmitError>(action_err(*value)),
{
    let ghost base = w.bytes();
    let (hole, body_start) = begin_long(w, 0x81);
    emit_le_u16(w, frame);
    proof {
        assert(w.bytes() =~= base.push(0x81u8) + seq![0u8, 0u8] + raw_body(*value));
    }
    match end_long(w, hole, body_start) {
        Ok(()) => {
            proof {
                lemma_close_long(base, 0x81, raw_body(*value), w.bytes());
                assert(base + seq![0x81u8] + le_u16_bytes(raw_body(*value).len() as u16)
                    + raw_body(*value) =~= base + action_bytes(*value));
            }
            Ok(())
        },
        Err(e) => Err(e),
    }
}

fn write_goto_frame2_action(w: &mut PatchableBufWriter, value: &RawAction, play: bool, scene_bias: u16) -> (r: Result<
    (),
    EmitError,
>)
    requires
        *value == (RawAction::GotoFrame2 { play, scene_bias }),
    ensures
        r is Ok ==> {
            &&& action_ok(*value)
            &&& final(w).bytes() == old(w).bytes() + action_bytes(*value)
            &&& final(w).holes() == old(w).holes()
        },
        r is Err ==> !action_ok(*value) && r == Err::<(), EmitError>(action_err(*value)),
{
    let ghost base = w.bytes();
    let (hole, body_start) = begin_long(w, 0x9f);
    let has_bias: bool = scene_bias != 0;
    let flags: u8 = (if play { 1 } else { 0 }) + (if has_bias { 2 } else { 0 });
    emit_u8(w, flags);
    if has_bias {
        emit_le_u16(w, scene_bias);
    }
    proof {
        assert(w.bytes() =~= base.push(0x9fu8) + seq![0u8, 0u8] + raw_body(*value));
    }
    match end_long(w, hole, body_start) {
        Ok(()) => {
            proof {
                lemma_close_long(base, 0x9f, raw_body(*value), w.bytes());
                assert(base + seq![0x9fu8] + le_u16_bytes(raw_body(*value).len() as u16)
                    + raw_body(*value) =~= base + action_bytes(*value));
            }
            Ok(())
        },
        Err(e) => Err(e),
    }
}

fn write_goto_label_action(w: &mut PatchableBufWriter, value: &RawAction, label: &Vec<u8>) -> (r: Result<
    (),
    EmitError,
>)
    requires
        *value == (RawAction::GotoLabel { label: *label }),
    ensures
        r is Ok ==> {
            &&& action_ok(*value)
            &&& final(w).bytes() == old(w).bytes() + action_bytes(*value)
            &&& final(w).holes() == old(w).holes()
        },
        r is Err ==> !action_ok(*value) && r == Err::<(), EmitError>(action_err(*value)),
{
    let ghost base = w.bytes();
    let (hole, body_start) = begin_long(w, 0x8c);
    emit_c_string(w, label);
    proof {
        assert(w.bytes() =~= base.push(0x8cu8) + seq![0u8, 0u8] + raw_body(*value));
    }
    match end_long(w, hole, body_start) {
        Ok(()) => {
            proof {
                lemma_close_long(base, 0x8c, raw_body(*value), w.bytes());
                assert(base + seq![0x8cu8] + le_u16_bytes(raw_body(*value).len() as u16)
                    + raw_body(*value) =~= base + action_bytes(*value));
            }
            Ok(())
        },
        Err(e) => Err(e),
    }
}

fn write_if_action(w: &mut PatchableBufWriter, value: &RawAction, offset: i16) -> (r: Result<
    (),
    EmitError,
>)
    requires
        *value == (RawAction::If { offset }),
    ensures
        r is Ok ==> {
            &&& action_ok(*value)
            &&& final(w).bytes() == old(w).bytes() + action_bytes(*value)
            &&& final(w).holes() == old(w).holes()
        },
        r is Err ==> !action_ok(*value) && r == Err::<(), EmitError>(action_err(*value)),
{
    let ghost base = w.bytes();
    let (hole, body_start) = begin_long(w, 0x9d);
    emit_le_i16(w, offset);
    proof {
        assert(w.bytes() =~= base.push(0x9du8) + seq![0u8, 0u8] + raw_body(*value));
    }
    match end_long(w, hole, body_start) {
        Ok(()) => {
            proof {
                lemma_close_long(base, 0x9d, raw_body(*value), w.bytes());
                assert(base + seq![0x9du8] + le_u16_bytes(raw_body(*value).len() as u16)
                    + raw_body(*value) =~= base + action_bytes(*value));
            }
            Ok(())
        },
        Err(e) => Err(e),
    }
}

fn write_jump_action(w: &mut PatchableBufWriter, value: &RawAction, offset: i16) -> (r: Result<
    (),
    EmitError,
>)
    requires
        *value == (RawAction::Jump { offset }),
    ensures
        r is Ok ==> {
            &&& action_ok(*value)
            &&& final(w).bytes() == old(w).bytes() + action_bytes(*value)
            &&& final(w).holes() == old(w).holes()
        },
        r is Err ==> !action_ok(*value) && r == Err::<(), EmitError>(action_err(*value)),
{
    let ghost base = w.bytes();
    let (hole, body_start) = begin_long(w, 0x99);
    emit_le_i16(w, offset);
    proof {
        assert(w.bytes() =~= base.push(0x99u8) + seq![0u8, 0u8] + raw_body(*value));
    }
    match end_long(w, hole, body_start) {
        Ok(()) => {
            proof {
                lemma_close_long(base, 0x99, raw_body(*value), w.bytes());
                assert(base + seq![0x99u8] + le_u16_bytes(raw_body(*value).len() as u16)
                    + raw_body(*value) =~= base + action_bytes(*value));
            }
            Ok(())
        },
        Err(e) => Err(e),
    }
}

fn write_push_action(w: &mut PatchableBufWriter, value: &RawAction, values: &Vec<PushValue>) -> (r: Result<
    (),
    EmitError,
>)
    requires
        *value == (RawAction::Push { values: *values }),
    ensures
        r is Ok ==> {
            &&& action_ok(*value)
            &&& final(w).bytes() == old(w).bytes() + action_bytes(*value)
            &&& final(w).holes() == old(w).holes()
        },
        r is Err ==> !action_ok(*value) && r == Err::<(), EmitError>(action_err(*value)),
{
    let ghost base = w.bytes();
    let (hole, body_start) = begin_long(w, 0x96);
    write_push_values(w, values);
    proof {
        assert(w.bytes() =~= base.push(0x96u8) + seq![0u8, 0u8] + raw_body(*value));
    }
    match end_long(w, hole, body_start) {
        Ok(()) => {
            proof {
                lemma_close_long(base, 0x96, raw_body(*value), w.bytes());
                assert(base + seq![0x96u8] + le_u16_bytes(raw_body(*value).len() as u16)
                    + raw_body(*value) =~= base + action_bytes(*value));
            }
            Ok(())
        },
        Err(e) => Err(e),
    }
}

fn write_set_target_action(w: &mut PatchableBufWriter, value: &RawAction, target_name: &Vec<u8>) -> (r: Result<
    (),
    EmitError,
>)
    requires
        *value == (RawAction::SetTarget { target_name: *target_name }),
    ensures
        r is Ok ==> {
            &&& action_ok(*value)
            &&& final(w).bytes() == old(w).bytes() + action_bytes(*value)
            &&& final(w).holes() == old(w).holes()
        },
        r is Err ==> !action_ok(*value) && r == Err::<(), EmitError>(action_err(*value)),
{
    let ghost base = w.bytes();
    let (hole, body_start) = begin_long(w, 0x8b);
    emit_c_string(w, target_name);
    proof {
        assert(w.bytes() =~= base.push(0x8bu8) + seq![0u8, 0u8] + raw_body(*value));
    }
    match end_long(w, hole, body_start) {
        Ok(()) => {
            proof {
                lemma_close_long(base, 0x8b, raw_body(*value), w.bytes());
                assert(base + seq![0x8bu8] + le_u16_bytes(raw_body(*value).len() as u16)
                    + raw_body(*value) =~= base + action_bytes(*value));
            }
            Ok(())
        },
        Err(e) => Err(e),
    }
}

fn write_store_register_action(w: &mut PatchableBufWriter, value: &RawAction, register: u8) -> (r: Result<
    (),
    EmitError,
>)
    requires
        *value == (RawAction::StoreRegister { register }),
    ensures
        r is Ok ==> {
            &&& action_ok(*value)
            &&& final(w).bytes() == old(w).bytes() + action_bytes(*value)
            &&& final(w).holes() == old(w).holes()
        },
        r is Err ==> !action_ok(*value) && r == Err::<(), EmitError>(action_err(*value)),
{
    let ghost base = w.bytes();
    let (hole, body_start) = begin_long(w, 0x87);
    emit_u8(w, register);
    proof {
        assert(w.bytes() =~= base.push(0x87u8) + seq![0u8, 0u8] + raw_body(*value));
    }
    match end_long(w, hole, body_start) {
        Ok(()) => {
            proof {
                lemma_close_long(base, 0x87, raw_body(*value), w.bytes());
                assert(base + seq![0x87u8] + le_u16_bytes(raw_body(*value).len() as u16)
                    + raw_body(*value) =~= base + action_bytes(*value));
            }
            Ok(())
        },
        Err(e) => Err(e),
    }
}

fn write_strict_mode_action(w: &mut PatchableBufWriter, value: &RawAction, is_strict: bool) -> (r: Result<
    (),
    EmitError,
>)
    requires
        *value == (RawAction::StrictMode { is_strict }),
    ensures
        r is Ok ==> {
            &&& action_ok(*value)
            &&& final(w).bytes() == old(w).bytes() + action_bytes(*value)
            &&& final(w).holes() == old(w).holes()
        },
        r is Err ==> !action_ok(*value) && r == Err::<(), EmitError>(action_err(*value)),
{
    let ghost base = w.bytes();
    let (hole, body_start) = begin_long(w, 0x89);
    emit_u8(w, if is_strict { 1 } else { 0 });
    proof {
        assert(w.bytes() =~= base.push(0x89u8) + seq![0u8, 0u8] + raw_body(*value));
    }
    match end_long(w, hole, body_start) {
        Ok(()) => {
            proof {
                lemma_close_long(base, 0x89, raw_body(*value), w.bytes());
                assert(base + seq![0x89u8] + le_u16_bytes(raw_body(*value).len() as u16)
                    + raw_body(*value) =~= base + action_bytes(*value));
            }
            Ok(())
        },
        Err(e) => Err(e),
    }
}

fn write_try_action(w: &mut PatchableBufWriter, value: &RawAction, try_size: u16, catch: &Option<RawCatchBlock>, finally_size: &Option<u16>) -> (r: Result<
    (),
    EmitError,
>)
    requires
        *value == (RawAction::Try { try_size, catch: *catch, finally_size: *finally_size }),
    ensures
        r is Ok ==> {
            &&& action_ok(*value)
            &&& final(w).bytes() == old(w).bytes() + action_bytes(*value)
            &&& final(w).holes() == old(w).holes()
        },
        r is Err ==> !action_ok(*value) && r == Err::<(), EmitError>(action_err(*value)),
{
    let ghost base = w.bytes();
    let (hole, body_start) = begin_long(w, 0x8f);
    let in_register: bool = match catch {
        Some(cb) => match &cb.target {
            CatchTarget::Register(_) => true,
            CatchTarget::Variable(_) => false,
        },
        None => false,
    };
    let flags: u8 = (if catch.is_some() { 1 } else { 0 }) + (if finally_size.is_some() {
        2
    } else {
        0
    }) + (if in_register { 4 } else { 0 });
    emit_u8(w, flags);
    emit_le_u16(w, try_size);
    emit_le_u16(
        w,
        match catch {
            Some(cb) => cb.size,
            None => 0,
        },
    );
    emit_le_u16(
        w,
        match finally_size {
            Some(s) => *s,
            None => 0,
        },
    );
    match catch {
        Some(cb) => match &cb.target {
            CatchTarget::Register(r) => emit_u8(w, *r),
            CatchTarget::Variable(v) => emit_c_string(w, v),
        },
        None => emit_u8(w, 0),
    }
    proof {
        assert(w.bytes() =~= base.push(0x8fu8) + seq![0u8, 0u8] + raw_body(*value));
    }
    match end_long(w, hole, body_start) {
        Ok(()) => {
            proof {
                lemma_close_long(base, 0x8f, raw_body(*value), w.bytes());
                assert(base + seq![0x8fu8] + le_u16_bytes(raw_body(*value).len() as u16)
                    + raw_body(*value) =~= base + action_bytes(*value));
            }
            Ok(())
        },
        Err(e) => Err(e),
    }
}

fn write_wait_for_frame_action(w: &mut PatchableBufWriter, value: &RawAction, frame: u16, skip: u8) -> (r: Result<
    (),
    EmitError,
>)
    requires
        *value == (RawAction::WaitForFrame { frame, skip }),
    ensures
        r is Ok ==> {
            &&& action_ok(*value)
            &&& final(w).bytes() == old(w).bytes() + action_bytes(*value)
            &&& final(w).holes() == old(w).holes()
        },
        r is Err ==> !action_ok(*value) && r == Err::<(), EmitError>(action_err(*value)),
{
    let ghost base = w.bytes();
    let (hole, body_start) = begin_long(w, 0x8a);
    emit_le_u16(w, frame);
    emit_u8(w, skip);
    proof {
        assert(w.bytes() =~= base.push(0x8au8) + seq![0u8, 0u8] + raw_body(*value));
    }
    match end_long(w, hole, body_start) {
        Ok(()) => {
            proof {
                lemma_close_long(base, 0x8a, raw_body(*value), w.bytes());
                assert(base + seq![0x8au8] + le_u16_bytes(raw_body(*value).len() as u16)
                    + raw_body(*value) =~= base + action_bytes(*value));
            }
            Ok(())
        },
        Err(e) => Err(e),
    }
}

fn write_wait_for_frame2_action(w: &mut PatchableBufWriter, value: &RawAction, skip: u8) -> (r: Result<
    (),
    EmitError,
>)
    requires
        *value == (RawAction::WaitForFrame2 { skip }),
    ensures
        r is Ok ==> {
            &&& action_ok(*value)
            &&& final(w).bytes() == old(w).bytes() + action_bytes(*value)
            &&& final(w).holes() == old(w).holes()
        },
        r is Err ==> !action_ok(*value) && r == Err::<(), EmitError>(action_err(*value)),
{
    let ghost base = w.bytes();
    let (hole, body_start) = begin_long(w, 0x8d);
    emit_u8(w, skip);
    proof {
        assert(w.bytes() =~= base.push(0x8du8) + seq![0u8, 0u8] + raw_body(*value));
    }
    match end_long(w, hole, body_start) {
        Ok(()) => {
            proof {
                lemma_close_long(base, 0x8d, raw_body(*value), w.bytes());
                assert(base + seq![0x8du8] + le_u16_bytes(raw_body(*value).len() as u16)
                    + raw_body(*value) =~= base + action_bytes(*value));
            }
            Ok(())
        },
        Err(e) => Err(e),
    }
}

fn write_with_action(w: &mut PatchableBufWriter, value: &RawAction, size: u16) -> (r: Result<
    (),
    EmitError,
>)
    requires
        *value == (RawAction::With { size }),
    ensures
        r is Ok ==> {
            &&& action_ok(*value)
            &&& final(w).bytes() == old(w).bytes() + action_bytes(*value)
            &&& final(w).holes() == old(w).holes()
        },
        r is Err ==> !action_ok(*value) && r == Err::<(), EmitError>(action_err(*value)),
{
    let ghost base = w.bytes();
    let (hole, body_start) = begin_long(w, 0x94);
    emit_le_u16(w, size);
    proof {
        assert(w.bytes() =~= base.push(0x94u8) + seq![0u8, 0u8] + raw_body(*value));
    }
    match end_long(w, hole, body_start) {
        Ok(()) => {
            proof {
                lemma_close_long(base, 0x94, raw_body(*value), w.bytes());
                assert(base + seq![0x94u8] + le_u16_bytes(raw_body(*value).len() as u16)
                    + raw_body(*value) =~= base + action_bytes(*value));
            }
            Ok(())
        },
        Err(e) => Err(e),
    }
}

fn write_raw_escape_action(w: &mut PatchableBufWriter, value: &RawAction, code: u8, data: &Vec<u8>) -> (r: Result<
    (),
    EmitError,
>)
    requires
        raw_action_wf(*value),
        *value == (RawAction::Raw { code, data: *data }),
    ensures
        r is Ok ==> {
            &&& action_ok(*value)
            &&& final(w).bytes() == old(w).bytes() + action_bytes(*value)
            &&& final(w).holes() == old(w).holes()
        },
        r is Err ==> !action_ok(*value) && r == Err::<(), EmitError>(action_err(*value)),
{
    if code < 0x80 {
        write_short(w, code);
        proof {
            assert(action_bytes(*value) =~= seq![code]);
        }
        Ok(())
    } else {
        if data.len() > 0xFFFF {
            return Err(EmitError::BodyTooLong);
        }
        emit_u8(w, code);
        emit_le_u16(w, data.len() as u16);
        w.write_all(data.as_slice());
        proof {
            assert(old(w).bytes() + action_bytes(*value) =~= old(w).bytes().push(code)
                + le_u16_bytes(data@.len() as u16) + data@);
        }
        Ok(())
    }
}

/// Writes one raw action: the opcode byte and, for long opcodes, the
/// length-prefixed body, the prefix patched through a hole once the body has
/// been measured.
#[verifier::rlimit(100)]
pub fn write_raw_action(w: &mut PatchableBufWriter, value: &RawAction) -> (r: Result<
    (),
    EmitError,
>)
    requires
        raw_action_wf(*value),
    ensures
        r is Ok ==> {
            &&& action_ok(*value)
            &&& final(w).bytes() == old(w).bytes() + action_bytes(*value)
            &&& final(w).holes() == old(w).holes()
        },
        r is Err ==> !action_ok(*value) && r == Err::<(), EmitError>(action_err(*value)),
{
    match value {
        RawAction::Add => {
            write_short(w, 0x0a);
            Ok(())
        },
        RawAction::Add2 => {
            write_short(w, 0x47);
            Ok(())
        },
        RawAction::And => {
            write_short(w, 0x10);
            Ok(())
        },
        RawAction::AsciiToChar => {
            write_short(w, 0x33);
            Ok(())
        },
        RawAction::BitAnd => {
            write_short(w, 0x60);
            Ok(())
        },
        RawAction::BitOr => {
            write_short(w, 0x61);
            Ok(())
        },
        RawAction::BitLShift => {
            write_short(w, 0x63);
            Ok(())
        },
        RawAction::BitRShift => {
            write_short(w, 0x64);
            Ok(())
        },
        RawAction::BitURShift => {
            write_short(w, 0x65);
            Ok(())
        },
        RawAction::BitXor => {
            write_short(w, 0x62);
            Ok(())
        },
        RawAction::CallFunction => {
            write_short(w, 0x3d);
            Ok(())
        },
        RawAction::CallMethod => {
            write_short(w, 0x52);
            Ok(())
        },
        RawAction::CharToAscii => {
            write_short(w, 0x32);
            Ok(())
        },
        RawAction::CastOp => {
            write_short(w, 0x2b);
            Ok(())
        },
        RawAction::CloneSprite => {
            write_short(w, 0x24);
            Ok(())
        },
        RawAction::Decrement => {
            write_short(w, 0x51);
            Ok(())
        },
        RawAction::DefineLocal => {
            write_short(w, 0x3c);
            Ok(())
        },
        RawAction::DefineLocal2 => {
            write_short(w, 0x41);
            Ok(())
        },
        RawAction::Delete => {
            write_short(w, 0x3a);
            Ok(())
        },
        RawAction::Delete2 => {
            write_short(w, 0x3b);
            Ok(())
        },
        RawAction::Divide => {
            write_short(w, 0x0d);
            Ok(())
        },
        RawAction::End => {
            write_short(w, 0x00);
            Ok(())
        },
        RawAction::EndDrag => {
            write_short(w, 0x28);
            Ok(())
        },
        RawAction::Enumerate => {
            write_short(w, 0x46);
            Ok(())
        },
        RawAction::Enumerate2 => {
            write_short(w, 0x55);
            Ok(())
        },
        RawAction::Equals => {
            write_short(w, 0x0e);
            Ok(())
        },
        RawAction::Equals2 => {
            write_short(w, 0x49);
            Ok(())
        },
        RawAction::Extends => {
            write_short(w, 0x69);
            Ok(())
        },
        RawAction::FsCommand2 => {
            write_short(w, 0x2d);
            Ok(())
        },
        RawAction::GetMember => {
            write_short(w, 0x4e);
            Ok(())
        },
        RawAction::GetProperty => {
            write_short(w, 0x22);
            Ok(())
        },
        RawAction::GetTime => {
            write_short(w, 0x34);
            Ok(())
        },
        RawAction::GetVariable => {
            write_short(w, 0x1c);
            Ok(())
        },
        RawAction::Greater => {
            write_short(w, 0x67);
            Ok(())
        },
        RawAction::ImplementsOp => {
            write_short(w, 0x2c);
            Ok(())
        },
        RawAction::Increment => {
            write_short(w, 0x50);
            Ok(())
        },
        RawAction::InitArray => {
            write_short(w, 0x42);
            Ok(())
        },
        RawAction::InitObject => {
            write_short(w, 0x43);
            Ok(())
        },
        RawAction::InstanceOf => {
            write_short(w, 0x54);
            Ok(())
        },
        RawAction::Less => {
            write_short(w, 0x0f);
            Ok(())
        },
        RawAction::Less2 => {
            write_short(w, 0x48);
            Ok(())
        },
        RawAction::MbAsciiToChar => {
            write_short(w, 0x37);
            Ok(())
        },
        RawAction::MbCharToAscii => {
            write_short(w, 0x36);
            Ok(())
        },
        RawAction::MbStringExtract => {
            write_short(w, 0x35);
            Ok(())
        },
        RawAction::MbStringLength => {
            write_short(w, 0x31);
            Ok(())
        },
        RawAction::Modulo => {
            write_short(w, 0x3f);
            Ok(())
        },
        RawAction::Multiply => {
            write_short(w, 0x0c);
            Ok(())
        },
        RawAction::NewMethod => {
            write_short(w, 0x53);
            Ok(())
        },
        RawAction::NewObject => {
            write_short(w, 0x40);
            Ok(())
        },
        RawAction::NextFrame => {
            write_short(w, 0x04);
            Ok(())
        },
        RawAction::Not => {
            write_short(w, 0x12);
            Ok(())
        },
        RawAction::Or => {
            write_short(w, 0x11);
            Ok(())
        },
        RawAction::Play => {
            write_short(w, 0x06);
            Ok(())
        },
        RawAction::Pop => {
            write_short(w, 0x17);
            Ok(())
        },
        RawAction::PrevFrame => {
            write_short(w, 0x05);
            Ok(())
        },
        RawAction::PushDuplicate => {
            write_short(w, 0x4c);
            Ok(())
        },
        RawAction::RandomNumber => {
            write_short(w, 0x30);
            Ok(())
        },
        RawAction::RemoveSprite => {
            write_short(w, 0x25);
            Ok(())
        },
        RawAction::Return => {
            write_short(w, 0x3e);
            Ok(())
        },
        RawAction::SetMember => {
            write_short(w, 0x4f);
            Ok(())
        },
        RawAction::SetProperty => {
            write_short(w, 0x23);
            Ok(())
        },
        RawAction::SetTarget2 => {
            write_short(w, 0x20);
            Ok(())
        },
        RawAction::SetVariable => {
            write_short(w, 0x1d);
            Ok(())
        },
        RawAction::StackSwap => {
            write_short(w, 0x4d);
            Ok(())
        },
        RawAction::StartDrag => {
            write_short(w, 0x27);
            Ok(())
        },
        RawAction::Stop => {
            write_short(w, 0x07);
            Ok(())
        },
        RawAction::StopSounds => {
            write_short(w, 0x09);
            Ok(())
        },
        RawAction::StrictEquals => {
            write_short(w, 0x66);
            Ok(())
        },
        RawAction::StringAdd => {
            write_short(w, 0x21);
            Ok(())
        },
        RawAction::StringEquals => {
            write_short(w, 0x13);
            Ok(())
        },
        RawAction::StringExtract => {
            write_short(w, 0x15);
            Ok(())
        },
        RawAction::StringGreater => {
            write_short(w, 0x68);
            Ok(())
        },
        RawAction::StringLength => {
            write_short(w, 0x14);
            Ok(())
        },
        RawAction::StringLess => {
            write_short(w, 0x29);
            Ok(())
        },
        RawAction::Subtract => {
            write_short(w, 0x0b);
            Ok(())
        },
        RawAction::TargetPath => {
            write_short(w, 0x45);
            Ok(())
        },
        RawAction::Throw => {
            write_short(w, 0x2a);
            Ok(())
        },
        RawAction::ToInteger => {
            write_short(w, 0x18);
            Ok(())
        },
        RawAction::ToNumber => {
            write_short(w, 0x4a);
            Ok(())
        },
        RawAction::ToString => {
            write_short(w, 0x4b);
            Ok(())
        },
        RawAction::ToggleQuality => {
            write_short(w, 0x08);
            Ok(())
        },
        RawAction::Trace => {
            write_short(w, 0x26);
            Ok(())
        },
        RawAction::TypeOf => {
            write_short(w, 0x44);
            Ok(())
        },
        RawAction::Call => {
            write_long_empty(w, 0x9e);
            proof {
                assert(action_bytes(*value) =~= seq![0x9eu8] + le_u16_bytes(0));
            }
            Ok(())
        },
        RawAction::ConstantPool { pool } => write_constant_pool_action(w, value, pool),
        RawAction::DefineFunction { name, parameters, body_size } => write_define_function_action(
            w,
            value,
            name,
            parameters,
            *body_size,
        ),
        RawAction::DefineFunction2 {
            name,
            register_count,
            flags,
            parameters,
            body_size,
        } => write_define_function2_action(
            w,
            value,
            name,
            *register_count,
            *flags,
            parameters,
            *body_size,
        ),
        RawAction::GetUrl { url, target } => write_get_url_action(w, value, url, target),
        RawAction::GetUrl2 { method, load_target, load_variables } => write_get_url2_action(
            w,
            value,
            *method,
            *load_target,
            *load_variables,
        ),
        RawAction::GotoFrame { frame } => write_goto_frame_action(w, value, *frame),
        RawAction::GotoFrame2 { play, scene_bias } => write_goto_frame2_action(
            w,
            value,
            *play,
            *scene_bias,
        ),
        RawAction::GotoLabel { label } => write_goto_label_action(w, value, label),
        RawAction::If { offset } => write_if_action(w, value, *offset),
        RawAction::Jump { offset } => write_jump_action(w, value, *offset),
        RawAction::Push { values } => write_push_action(w, value, values),
        RawAction::Raw { code, data } => write_raw_escape_action(w, value, *code, data),
        RawAction::SetTarget { target_name } => write_set_target_action(
            w,
            value,
            target_name,
        ),
        RawAction::StoreRegister { register } => write_store_register_action(
            w,
            value,
            *register,
        ),
        RawAction::StrictMode { is_strict } => write_strict_mode_action(w, value, *is_strict),
        RawAction::Try { try_size, catch, finally_size } => write_try_action(
            w,
            value,
            *try_size,
            catch,
            finally_size,
        ),
        RawAction::WaitForFrame { frame, skip } => write_wait_for_frame_action(
            w,
            value,
            *frame,
            *skip,
        ),
        RawAction::WaitForFrame2 { skip } => write_wait_for_frame2_action(w, value, *skip),
        RawAction::With { size } => write_with_action(w, value, *size),
    }
}

/// Encodes one raw action on its own, with no framing around it.
pub fn emit_raw_action(value: &RawAction) -> (r: Result<Vec<u8>, EmitError>)
    requires
        raw_action_wf(*value),
    ensures
        r is Ok ==> action_ok(*value) && r->Ok_0@ == action_bytes(*value),
        r is Err ==> !action_ok(*value) && r == Err::<Vec<u8>, EmitError>(action_err(*value)),
{
    let mut w = PatchableBufWriter::new();
    match write_raw_action(&mut w, value) {
        Ok(()) => Ok(w.complete()),
        Err(e) => Err(e),
    }
}

/// Law: in the encoding of a long action, the two bytes after the opcode
/// hold exactly the byte length of the body that follows them.
pub proof fn lemma_long_action_length_prefix(a: RawAction)
    requires
        action_ok(a),
        opcode(a) >= 0x80,
    ensures
        action_bytes(a).len() == 3 + raw_body(a).len(),
        action_bytes(a)[0] == opcode(a),
        action_bytes(a).subrange(1, 3) == le_u16_bytes(raw_body(a).len() as u16),
        action_bytes(a).subrange(3, action_bytes(a).len() as int) == raw_body(a),
{
    assert(action_bytes(a).subrange(1, 3) =~= le_u16_bytes(raw_body(a).len() as u16));
    assert(action_bytes(a).subrange(3, action_bytes(a).len() as int) =~= raw_body(a));
}

/// Law: a short action is its opcode byte alone; it carries no body.
pub proof fn lemma_short_action_no_body(a: RawAction)
    requires
        opcode(a) < 0x80,
    ensures
        action_bytes(a) == seq![opcode(a)],
{
}

} // verus!
