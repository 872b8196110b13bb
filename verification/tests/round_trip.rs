//! Round-trip tests: a graph is emitted, the bytes are parsed back with the
//! independent parser, and the result must be structurally equivalent to
//! the source — same blocks and action counts in order, labels equal under
//! a fresh depth-first indexing, actions equal (function definitions
//! compared by name, parameters and a recursive check of their bodies),
//! and flows of the same variant with their label slots compared under the
//! relational equality.

use avm1_emitter::{
    emit_cfg, Action, Cfg, CfgBlock, CfgFlow, DefineFunction, PushValue, RawAction,
};

fn label(s: &str) -> Vec<u8> {
    s.as_bytes().to_vec()
}

fn block(name: &str, actions: Vec<Action>, flow: CfgFlow) -> CfgBlock {
    CfgBlock { label: label(name), actions, flow }
}

fn collect_parsed_labels<'a>(c: &'a avm1_types::cfg::Cfg, out: &mut Vec<&'a avm1_types::cfg::CfgLabel>) {
    for b in c.blocks.iter() {
        out.push(&b.label);
        if let avm1_types::cfg::CfgFlow::With(w) = &b.flow {
            collect_parsed_labels(&w.body, out);
        }
    }
}

fn collect_model_labels<'a>(c: &'a Cfg, out: &mut Vec<&'a Vec<u8>>) {
    for b in &c.blocks {
        out.push(&b.label);
        if let CfgFlow::With { body } = &b.flow {
            collect_model_labels(body, out);
        }
    }
}

struct LabelIds<'a> {
    parsed: std::collections::HashMap<&'a avm1_types::cfg::CfgLabel, usize>,
    model: std::collections::HashMap<&'a Vec<u8>, usize>,
}

impl<'a> LabelIds<'a> {
    fn label_eq(&self, p: Option<&avm1_types::cfg::CfgLabel>, m: Option<&Vec<u8>>) -> bool {
        match (p, m) {
            (Some(p), Some(m)) => self.parsed.get(p) == self.model.get(m),
            (None, None) => true,
            _ => false,
        }
    }
}

fn push_value_eq(p: &avm1_types::PushValue, m: &PushValue) -> bool {
    match (p, m) {
        (avm1_types::PushValue::Boolean(a), PushValue::Boolean(b)) => a == b,
        (avm1_types::PushValue::Constant(a), PushValue::Constant(b)) => a == b,
        (avm1_types::PushValue::Null, PushValue::Null) => true,
        (avm1_types::PushValue::Register(a), PushValue::Register(b)) => a == b,
        (avm1_types::PushValue::Sint32(a), PushValue::Sint32(b)) => a == b,
        (avm1_types::PushValue::String(a), PushValue::String(b)) => a.as_bytes() == &b[..],
        (avm1_types::PushValue::Undefined, PushValue::Undefined) => true,
        _ => false,
    }
}

fn action_eq(p: &avm1_types::cfg::Action, m: &Action) -> bool {
    match (p, m) {
        (avm1_types::cfg::Action::Push(pp), Action::Raw(RawAction::Push { values })) => {
            pp.values.len() == values.len()
                && pp.values.iter().zip(values.iter()).all(|(a, b)| push_value_eq(a, b))
        }
        (avm1_types::cfg::Action::Pop, Action::Raw(RawAction::Pop)) => true,
        (avm1_types::cfg::Action::Trace, Action::Raw(RawAction::Trace)) => true,
        (avm1_types::cfg::Action::DefineFunction(pf), Action::DefineFunction(mf)) => {
            pf.name.as_bytes() == &mf.name[..]
                && pf.parameters.len() == mf.parameters.len()
                && pf
                    .parameters
                    .iter()
                    .zip(mf.parameters.iter())
                    .all(|(a, b)| a.as_bytes() == &b[..])
                && cfg_equivalent(&pf.body, &mf.body)
        }
        _ => false,
    }
}

fn flow_eq(ids: &LabelIds, p: &avm1_types::cfg::CfgFlow, m: &CfgFlow) -> bool {
    match (p, m) {
        (avm1_types::cfg::CfgFlow::Simple(ps), CfgFlow::Simple { next }) => {
            ids.label_eq(ps.next.as_ref(), next.as_ref())
        }
        (avm1_types::cfg::CfgFlow::If(pi), CfgFlow::If { true_target, false_target }) => {
            ids.label_eq(pi.true_target.as_ref(), true_target.as_ref())
                && ids.label_eq(pi.false_target.as_ref(), false_target.as_ref())
        }
        (avm1_types::cfg::CfgFlow::Return, CfgFlow::Return) => true,
        (avm1_types::cfg::CfgFlow::Throw, CfgFlow::Throw) => true,
        (avm1_types::cfg::CfgFlow::With(pw), CfgFlow::With { body }) => soft_eq(ids, &pw.body, body),
        (avm1_types::cfg::CfgFlow::WaitForFrame(pw), CfgFlow::WaitForFrame { frame, ready_target, loading_target }) => {
            pw.frame == *frame
                && ids.label_eq(pw.ready_target.as_ref(), ready_target.as_ref())
                && ids.label_eq(pw.loading_target.as_ref(), loading_target.as_ref())
        }
        _ => false,
    }
}

fn soft_eq(ids: &LabelIds, p: &avm1_types::cfg::Cfg, m: &Cfg) -> bool {
    if p.blocks.len() != m.blocks.len() {
        return false;
    }
    for (pb, mb) in p.blocks.iter().zip(m.blocks.iter()) {
        if !ids.label_eq(Some(&pb.label), Some(&mb.label)) {
            return false;
        }
        if pb.actions.len() != mb.actions.len() {
            return false;
        }
        if !pb.actions.iter().zip(mb.actions.iter()).all(|(a, b)| action_eq(a, b)) {
            return false;
        }
        if !flow_eq(ids, &pb.flow, &mb.flow) {
            return false;
        }
    }
    true
}

fn cfg_equivalent(p: &avm1_types::cfg::Cfg, m: &Cfg) -> bool {
    let mut parsed_labels = Vec::new();
    collect_parsed_labels(p, &mut parsed_labels);
    let mut model_labels = Vec::new();
    collect_model_labels(m, &mut model_labels);
    let ids = LabelIds {
        parsed: parsed_labels.into_iter().enumerate().map(|(i, l)| (l, i)).collect(),
        model: model_labels.into_iter().enumerate().map(|(i, l)| (l, i)).collect(),
    };
    soft_eq(&ids, p, m)
}

fn round_trips(m: &Cfg) {
    let bytes = emit_cfg(m).expect("graph must encode");
    let parsed = avm1_parser::parse_cfg(&bytes);
    assert!(
        cfg_equivalent(&parsed, m),
        "parsed graph is not equivalent; bytes {:?}, parsed {:?}",
        bytes,
        parsed
    );
}

#[test]
fn round_trip_branch_and_loop() {
    let m = Cfg {
        blocks: vec![
            block(
                "a",
                vec![],
                CfgFlow::If { true_target: Some(label("c")), false_target: Some(label("b")) },
            ),
            block(
                "b",
                vec![Action::Raw(RawAction::Push { values: vec![PushValue::Boolean(true)] })],
                CfgFlow::Simple { next: Some(label("a")) },
            ),
            block("c", vec![], CfgFlow::Return),
        ],
    };
    round_trips(&m);
}

#[test]
fn round_trip_function_definition() {
    let m = Cfg {
        blocks: vec![block(
            "a",
            vec![Action::DefineFunction(DefineFunction {
                name: label("f"),
                parameters: vec![label("x")],
                body: Cfg { blocks: vec![block("fb", vec![], CfgFlow::Return)] },
            })],
            CfgFlow::Simple { next: None },
        )],
    };
    round_trips(&m);
}
