//! Tests of the linearizer: whole control-flow graphs down to bytes.

use avm1_emitter::{
    emit_cfg, Action, CatchBlock, CatchTarget, Cfg, CfgBlock, CfgFlow, DefineFunction,
    DefineFunction2, EmitError, PushValue, RawAction, RawParameter,
};

fn label(s: &str) -> Vec<u8> {
    s.as_bytes().to_vec()
}

fn block(name: &str, actions: Vec<Action>, flow: CfgFlow) -> CfgBlock {
    CfgBlock { label: label(name), actions, flow }
}

fn cfg(blocks: Vec<CfgBlock>) -> Cfg {
    Cfg { blocks }
}

fn emit(c: &Cfg) -> Vec<u8> {
    emit_cfg(c).expect("graph must encode")
}

#[test]
fn single_empty_block_is_the_trailing_end() {
    let c = cfg(vec![block("a", vec![], CfgFlow::Simple { next: None })]);
    assert_eq!(emit(&c), vec![0x00]);
}

#[test]
fn fall_through_to_next_block_emits_no_jump() {
    let c = cfg(vec![
        block("a", vec![], CfgFlow::Simple { next: Some(label("b")) }),
        block("b", vec![], CfgFlow::Return),
    ]);
    assert_eq!(emit(&c), vec![0x3e, 0x00]);
}

#[test]
fn self_loop_jumps_back_over_its_own_tail() {
    let c = cfg(vec![block("a", vec![], CfgFlow::Simple { next: Some(label("a")) })]);
    // The jump instruction spans bytes 0..5; the offset field sits at 3 and
    // is measured from the byte after it, so reaching offset 0 takes -5.
    assert_eq!(emit(&c), vec![0x99, 0x02, 0x00, 0xfb, 0xff, 0x00]);
}

#[test]
fn conditional_branch_to_next_instruction_has_delta_zero() {
    let c = cfg(vec![
        block(
            "a",
            vec![],
            CfgFlow::If { true_target: Some(label("b")), false_target: Some(label("b")) },
        ),
        block("b", vec![], CfgFlow::Return),
    ]);
    assert_eq!(emit(&c), vec![0x9d, 0x02, 0x00, 0x00, 0x00, 0x3e, 0x00]);
}

#[test]
fn if_with_absent_false_target_emits_end_after_the_branch() {
    let c = cfg(vec![
        block("a", vec![], CfgFlow::If { true_target: Some(label("b")), false_target: None }),
        block("b", vec![], CfgFlow::Return),
    ]);
    assert_eq!(emit(&c), vec![0x9d, 0x02, 0x00, 0x01, 0x00, 0x00, 0x3e, 0x00]);
}

#[test]
fn error_flow_is_a_malformed_push() {
    let c = cfg(vec![block("a", vec![], CfgFlow::Error)]);
    assert_eq!(emit(&c), vec![0x96, 0x01, 0x00, 0xff, 0x00]);
}

#[test]
fn throw_flow() {
    let c = cfg(vec![block("a", vec![], CfgFlow::Throw)]);
    assert_eq!(emit(&c), vec![0x2a, 0x00]);
}

#[test]
fn actions_precede_the_terminator() {
    let c = cfg(vec![block(
        "a",
        vec![
            Action::Raw(RawAction::Push { values: vec![PushValue::Boolean(true)] }),
            Action::Raw(RawAction::Pop),
        ],
        CfgFlow::Return,
    )]);
    assert_eq!(emit(&c), vec![0x96, 0x02, 0x00, 0x05, 0x01, 0x17, 0x3e, 0x00]);
}

#[test]
fn function_body_gets_no_trailing_end() {
    let body = cfg(vec![block("fb", vec![], CfgFlow::Simple { next: None })]);
    let c = cfg(vec![block(
        "a",
        vec![Action::DefineFunction(DefineFunction {
            name: label("f"),
            parameters: vec![],
            body,
        })],
        CfgFlow::Simple { next: None },
    )]);
    // The body emits no bytes, so body_size is zero and only the outer
    // trailing End closes the stream.
    assert_eq!(
        emit(&c),
        vec![0x9b, 0x06, 0x00, 0x66, 0x00, 0x00, 0x00, 0x00, 0x00, 0x00]
    );
}

#[test]
fn function_body_is_emitted_after_its_header() {
    let body = cfg(vec![block("fb", vec![], CfgFlow::Return)]);
    let c = cfg(vec![block(
        "a",
        vec![Action::DefineFunction(DefineFunction {
            name: label("f"),
            parameters: vec![label("x")],
            body,
        })],
        CfgFlow::Simple { next: None },
    )]);
    assert_eq!(
        emit(&c),
        vec![0x9b, 0x08, 0x00, 0x66, 0x00, 0x01, 0x00, 0x78, 0x00, 0x01, 0x00, 0x3e, 0x00]
    );
}

#[test]
fn function2_header_carries_registers_and_flags() {
    let body = cfg(vec![block("fb", vec![], CfgFlow::Simple { next: None })]);
    let c = cfg(vec![block(
        "a",
        vec![Action::DefineFunction2(DefineFunction2 {
            name: label(""),
            register_count: 2,
            flags: 7,
            parameters: vec![RawParameter { register: 1, name: label("a") }],
            body,
        })],
        CfgFlow::Simple { next: None },
    )]);
    assert_eq!(
        emit(&c),
        vec![
            0x8e, 0x0b, 0x00, // header
            0x00, // empty name
            0x01, 0x00, // one parameter
            0x02, // register count
            0x07, 0x00, // flags
            0x01, 0x61, 0x00, // register 1, "a"
            0x00, 0x00, // body size 0
            0x00, // trailing End
        ]
    );
}

#[test]
fn wait_for_frame_emits_skip_one_and_two_jumps() {
    let c = cfg(vec![
        block(
            "a",
            vec![],
            CfgFlow::WaitForFrame {
                frame: 5,
                ready_target: Some(label("b")),
                loading_target: Some(label("a")),
            },
        ),
        block("b", vec![], CfgFlow::Return),
    ]);
    assert_eq!(
        emit(&c),
        vec![
            0x8a, 0x03, 0x00, 0x05, 0x00, 0x01, // WaitForFrame { frame: 5, skip: 1 }
            0x99, 0x02, 0x00, 0x05, 0x00, // jump to b (delta 5)
            0x99, 0x02, 0x00, 0xf0, 0xff, // jump back to a (delta -16)
            0x3e, 0x00,
        ]
    );
}

#[test]
fn wait_for_frame2_uses_the_stack_frame_operand() {
    let c = cfg(vec![
        block(
            "a",
            vec![],
            CfgFlow::WaitForFrame2 {
                ready_target: Some(label("b")),
                loading_target: Some(label("b")),
            },
        ),
        block("b", vec![], CfgFlow::Return),
    ]);
    assert_eq!(
        emit(&c),
        vec![
            0x8d, 0x01, 0x00, 0x01, // WaitForFrame2 { skip: 1 }
            0x99, 0x02, 0x00, 0x05, 0x00, // jump to b
            0x99, 0x02, 0x00, 0x00, 0x00, // jump to b (next instruction)
            0x3e, 0x00,
        ]
    );
}

#[test]
fn with_body_is_length_prefixed() {
    let body = cfg(vec![block("wb", vec![], CfgFlow::Return)]);
    let c = cfg(vec![block("a", vec![], CfgFlow::With { body })]);
    assert_eq!(emit(&c), vec![0x94, 0x02, 0x00, 0x01, 0x00, 0x3e, 0x00]);
}

#[test]
fn try_with_register_catch_only() {
    let c = cfg(vec![block(
        "t",
        vec![],
        CfgFlow::Try {
            try_body: cfg(vec![block("tb", vec![], CfgFlow::Return)]),
            catch: Some(CatchBlock {
                target: CatchTarget::Register(2),
                body: cfg(vec![block("cb", vec![], CfgFlow::Return)]),
            }),
            finally: None,
        },
    )]);
    assert_eq!(
        emit(&c),
        vec![
            0x8f, 0x08, 0x00, // Try, header size 8
            0x05, // has catch, catch in register
            0x01, 0x00, // try size
            0x01, 0x00, // catch size
            0x00, 0x00, // finally size
            0x02, // catch register
            0x3e, // try body
            0x3e, // catch body
            0x00, // trailing End
        ]
    );
}

#[test]
fn try_with_variable_catch_only() {
    let c = cfg(vec![block(
        "t",
        vec![],
        CfgFlow::Try {
            try_body: cfg(vec![block("tb", vec![], CfgFlow::Return)]),
            catch: Some(CatchBlock {
                target: CatchTarget::Variable(label("e")),
                body: cfg(vec![block("cb", vec![], CfgFlow::Return)]),
            }),
            finally: None,
        },
    )]);
    assert_eq!(
        emit(&c),
        vec![
            0x8f, 0x09, 0x00, 0x01, 0x01, 0x00, 0x01, 0x00, 0x00, 0x00, 0x65, 0x00, 0x3e,
            0x3e, 0x00,
        ]
    );
}

#[test]
fn try_with_finally_only() {
    let c = cfg(vec![block(
        "t",
        vec![],
        CfgFlow::Try {
            try_body: cfg(vec![block("tb", vec![], CfgFlow::Return)]),
            catch: None,
            finally: Some(cfg(vec![block("fb", vec![], CfgFlow::Return)])),
        },
    )]);
    assert_eq!(
        emit(&c),
        vec![
            0x8f, 0x08, 0x00, 0x02, 0x01, 0x00, 0x00, 0x00, 0x01, 0x00, 0x00, 0x3e, 0x3e,
            0x00,
        ]
    );
}

#[test]
fn try_with_catch_and_finally() {
    let c = cfg(vec![block(
        "t",
        vec![],
        CfgFlow::Try {
            try_body: cfg(vec![block("tb", vec![], CfgFlow::Return)]),
            catch: Some(CatchBlock {
                target: CatchTarget::Register(1),
                body: cfg(vec![block("cb", vec![], CfgFlow::Return)]),
            }),
            finally: Some(cfg(vec![block("fb", vec![], CfgFlow::Return)])),
        },
    )]);
    assert_eq!(
        emit(&c),
        vec![
            0x8f, 0x08, 0x00, 0x07, 0x01, 0x00, 0x01, 0x00, 0x01, 0x00, 0x01, 0x3e, 0x3e,
            0x3e, 0x00,
        ]
    );
}

#[test]
fn try_with_neither_catch_nor_finally() {
    let c = cfg(vec![block(
        "t",
        vec![],
        CfgFlow::Try {
            try_body: cfg(vec![block("tb", vec![], CfgFlow::Return)]),
            catch: None,
            finally: None,
        },
    )]);
    assert_eq!(
        emit(&c),
        vec![
            0x8f, 0x08, 0x00, 0x00, 0x01, 0x00, 0x00, 0x00, 0x00, 0x00, 0x00, 0x3e, 0x00,
        ]
    );
}

#[test]
fn try_sections_fall_through_without_jumps() {
    // A try body that falls off its end continues at the catch body, which
    // continues at the finally body: no jump is emitted anywhere.
    let c = cfg(vec![block(
        "t",
        vec![],
        CfgFlow::Try {
            try_body: cfg(vec![block("tb", vec![], CfgFlow::Simple { next: Some(label("cb")) })]),
            catch: Some(CatchBlock {
                target: CatchTarget::Register(0),
                body: cfg(vec![block(
                    "cb",
                    vec![],
                    CfgFlow::Simple { next: Some(label("fb")) },
                )]),
            }),
            finally: Some(cfg(vec![block("fb", vec![], CfgFlow::Return)])),
        },
    )]);
    assert_eq!(
        emit(&c),
        vec![
            0x8f, 0x08, 0x00, 0x07, 0x00, 0x00, 0x00, 0x00, 0x01, 0x00, 0x00, 0x3e, 0x00,
        ]
    );
}

#[test]
fn backward_branch_out_of_reach_is_an_error() {
    let c = cfg(vec![block(
        "a",
        vec![Action::Raw(RawAction::Raw { code: 0x80, data: vec![0; 33000] })],
        CfgFlow::Simple { next: Some(label("a")) },
    )]);
    assert_eq!(emit_cfg(&c), Err(EmitError::OffsetOutOfReach));
}

#[test]
fn forward_branch_within_reach_resolves() {
    // A forward jump over a large block still fits the signed 16-bit field.
    let c = cfg(vec![
        block("a", vec![], CfgFlow::Simple { next: Some(label("c")) }),
        block(
            "b",
            vec![Action::Raw(RawAction::Raw { code: 0x80, data: vec![0; 256] })],
            CfgFlow::Return,
        ),
        block("c", vec![], CfgFlow::Return),
    ]);
    let bytes = emit(&c);
    // Jump (5) + raw action (259) + return (1) + return (1) + end (1).
    assert_eq!(bytes.len(), 267);
    // The offset field at 3..5 must reach block c at offset 265.
    assert_eq!(&bytes[0..3], &[0x99, 0x02, 0x00]);
    let delta = i16::from_le_bytes([bytes[3], bytes[4]]) as i64;
    assert_eq!(5 + delta, 265);
    assert_eq!(bytes[265], 0x3e);
    assert_eq!(bytes[266], 0x00);
}

#[test]
fn branch_out_of_a_try_body_reaches_an_outer_block() {
    // Labels bubble up to the enclosing function scope, so a jump inside a
    // try body can target the enclosing block.
    let c = cfg(vec![block(
        "t",
        vec![],
        CfgFlow::Try {
            try_body: cfg(vec![block("tb", vec![], CfgFlow::Simple { next: Some(label("t")) })]),
            catch: None,
            finally: None,
        },
    )]);
    assert_eq!(
        emit(&c),
        vec![
            0x8f, 0x08, 0x00, 0x00, 0x05, 0x00, 0x00, 0x00, 0x00, 0x00, 0x00, // header
            0x99, 0x02, 0x00, 0xf0, 0xff, // jump back to the try block itself
            0x00, // trailing End
        ]
    );
}

#[test]
fn branch_into_a_try_body_from_outside() {
    let c = cfg(vec![
        block("a", vec![], CfgFlow::Simple { next: Some(label("tb")) }),
        block(
            "t",
            vec![],
            CfgFlow::Try {
                try_body: cfg(vec![block("tb", vec![], CfgFlow::Return)]),
                catch: None,
                finally: None,
            },
        ),
    ]);
    assert_eq!(
        emit(&c),
        vec![
            0x99, 0x02, 0x00, 0x0b, 0x00, // jump to the try body's first block
            0x8f, 0x08, 0x00, 0x00, 0x01, 0x00, 0x00, 0x00, 0x00, 0x00, 0x00, // header
            0x3e, // try body
            0x00, // trailing End
        ]
    );
}

#[test]
fn forward_branch_at_the_boundary_of_reach() {
    // With a filler of n body bytes between the jump and its target, the
    // delta is n + 4: the largest representable forward distance passes and
    // one byte more is rejected.
    let at_boundary = cfg(vec![
        block("a", vec![], CfgFlow::Simple { next: Some(label("c")) }),
        block(
            "b",
            vec![Action::Raw(RawAction::Raw { code: 0x80, data: vec![0; 32763] })],
            CfgFlow::Return,
        ),
        block("c", vec![], CfgFlow::Return),
    ]);
    let bytes = emit_cfg(&at_boundary).expect("graph must encode");
    assert_eq!(i16::from_le_bytes([bytes[3], bytes[4]]), 32767);
    let beyond = cfg(vec![
        block("a", vec![], CfgFlow::Simple { next: Some(label("c")) }),
        block(
            "b",
            vec![Action::Raw(RawAction::Raw { code: 0x80, data: vec![0; 32764] })],
            CfgFlow::Return,
        ),
        block("c", vec![], CfgFlow::Return),
    ]);
    assert_eq!(emit_cfg(&beyond), Err(EmitError::OffsetOutOfReach));
}

#[test]
fn branch_out_of_a_with_body() {
    let c = cfg(vec![block(
        "w",
        vec![],
        CfgFlow::With {
            body: cfg(vec![block("wb", vec![], CfgFlow::Simple { next: Some(label("w")) })]),
        },
    )]);
    assert_eq!(
        emit(&c),
        vec![
            0x94, 0x02, 0x00, 0x05, 0x00, // With, body size 5
            0x99, 0x02, 0x00, 0xf6, 0xff, // jump back to the with block itself
            0x00, // trailing End
        ]
    );
}

#[test]
fn try_body_falls_through_to_the_finally_body() {
    // With no catch, the try body's fall-through is the first block of the
    // finally body, so naming it as the successor emits no jump.
    let c = cfg(vec![block(
        "t",
        vec![],
        CfgFlow::Try {
            try_body: cfg(vec![block("tb", vec![], CfgFlow::Simple { next: Some(label("fb")) })]),
            catch: None,
            finally: Some(cfg(vec![block("fb", vec![], CfgFlow::Return)])),
        },
    )]);
    assert_eq!(
        emit(&c),
        vec![
            0x8f, 0x08, 0x00, 0x02, 0x00, 0x00, 0x00, 0x00, 0x01, 0x00, 0x00, 0x3e, 0x00,
        ]
    );
}
