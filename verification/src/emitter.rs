//! The linearizer: lays the blocks of a control-flow graph out in order,
//! emits each block's actions and terminator, records where every block
//! starts and where every branch's offset field sits, and finally resolves
//! each recorded branch against the label table, patching its hole with a
//! signed 16-bit offset measured from the byte right after the offset field.

use crate::actions::{
    action_bytes, action_ok, begin_long, c_string_list_bytes, catch_in_register, end_long,
    raw_parameters_bytes, try_flags_byte, write_c_string_list, write_raw_action,
    write_raw_parameters, write_short,
};
use crate::buffer::{le_u16_bytes, BufferHole, PatchableBufWriter};
use crate::buffer::patched2;
use crate::primitives::{c_string_bytes, emit_c_string, emit_le_u16, emit_u8};
use crate::types::{
    Action, CatchBlock, CatchTarget, Cfg, CfgBlock, CfgFlow, DefineFunction, DefineFunction2,
    EmitError, RawAction,
};
use vstd::prelude::*;

verus! {

/// The view of an optional borrowed label.
pub open spec fn label_ref_view(o: Option<&Vec<u8>>) -> Option<Seq<u8>> {
    match o {
        Some(l) => Some(l@),
        None => None,
    }
}

/// The view of an optional owned label.
pub open spec fn label_view(o: Option<Vec<u8>>) -> Option<Seq<u8>> {
    match o {
        Some(l) => Some(l@),
        None => None,
    }
}

/// The label of the first block of a graph.
pub open spec fn first_label(c: Cfg) -> Seq<u8> {
    c.blocks@[0].label@
}

/// The fall-through label of a catch body: the first block of the finally
/// body when one exists, else the outer fall-through.
pub open spec fn catch_next(finally: Option<Cfg>, ft: Option<Seq<u8>>) -> Option<Seq<u8>> {
    match finally {
        Some(f) => Some(first_label(f)),
        None => ft,
    }
}

/// The fall-through label of a try body: the first block of the catch body
/// when one exists, else that of the finally body, else the outer
/// fall-through.
pub open spec fn try_next(
    catch: Option<CatchBlock>,
    finally: Option<Cfg>,
    ft: Option<Seq<u8>>,
) -> Option<Seq<u8>> {
    match catch {
        Some(cb) => Some(first_label(cb.body)),
        None => catch_next(finally, ft),
    }
}

/// The fall-through label of block `i`: the label of the textually
/// following block, or the outer fall-through for the last block.
pub open spec fn ft_at(blocks: Seq<CfgBlock>, i: int, ft: Option<Seq<u8>>) -> Option<Seq<u8>> {
    if i + 1 < blocks.len() {
        Some(blocks[i + 1].label@)
    } else {
        ft
    }
}

/// Byte length of the catch-target field of a `Try` terminator: a register
/// byte, a null-terminated name, or a single placeholder byte.
pub open spec fn catch_target_len(catch: Option<CatchBlock>) -> nat {
    match catch {
        Some(cb) => match cb.target {
            CatchTarget::Register(_) => 1nat,
            CatchTarget::Variable(v) => v@.len() + 1,
        },
        None => 1,
    }
}

/// Byte length of one straight-line action as emitted.
pub open spec fn cfg_action_len(a: Action) -> nat
    decreases a, 0int, 0int,
{
    match a {
        Action::Raw(r) => action_bytes(r).len(),
        Action::DefineFunction(df) => 3 + (df.name@.len() + 1) + 2 + c_string_list_bytes(
            df.parameters@,
        ).len() + 2 + hard_len(df.body, false),
        Action::DefineFunction2(df) => 3 + (df.name@.len() + 1) + 2 + 1 + 2
            + raw_parameters_bytes(df.parameters@).len() + 2 + hard_len(df.body, false),
    }
}

/// Byte length of the actions of a block from index `i` on.
pub open spec fn actions_len(acts: Seq<Action>, i: int) -> nat
    decreases acts, acts.len() - i, 0int,
{
    if 0 <= i < acts.len() {
        cfg_action_len(acts[i]) + actions_len(acts, i + 1)
    } else {
        0
    }
}

/// Byte length of a terminator as emitted, given the fall-through label.
pub open spec fn flow_len(f: CfgFlow, ft: Option<Seq<u8>>) -> nat
    decreases f, 0int, 0int,
{
    match f {
        CfgFlow::Simple { next } => if label_view(next) == ft {
            0nat
        } else if next is Some {
            5nat
        } else {
            1nat
        },
        CfgFlow::If { false_target, .. } => 5nat + (if label_view(false_target) == ft {
            0nat
        } else if false_target is Some {
            5nat
        } else {
            1nat
        }),
        CfgFlow::Return => 1,
        CfgFlow::Throw => 1,
        CfgFlow::Error => 4,
        CfgFlow::Try { try_body, catch, finally } => 10 + catch_target_len(catch) + soft_len(
            try_body.blocks@,
            0,
            try_next(catch, finally, ft),
        ) + (match catch {
            Some(cb) => soft_len(cb.body.blocks@, 0, catch_next(finally, ft)),
            None => 0nat,
        }) + (match finally {
            Some(fin) => soft_len(fin.blocks@, 0, ft),
            None => 0nat,
        }),
        CfgFlow::With { body } => 5 + soft_len(body.blocks@, 0, ft),
        CfgFlow::WaitForFrame { .. } => 16,
        CfgFlow::WaitForFrame2 { .. } => 14nat,
    }
}

/// Byte length of one block as emitted.
pub open spec fn block_len(b: CfgBlock, ft: Option<Seq<u8>>) -> nat
    decreases b, 0int, 1int,
{
    actions_len(b.actions@, 0) + flow_len(b.flow, ft)
}

/// Byte length of the blocks from index `i` on, each with its own
/// fall-through.
pub open spec fn soft_len(blocks: Seq<CfgBlock>, i: int, ft: Option<Seq<u8>>) -> nat
    decreases blocks, blocks.len() - i, 2int,
{
    if 0 <= i < blocks.len() {
        block_len(blocks[i], ft_at(blocks, i, ft)) + soft_len(blocks, i + 1, ft)
    } else {
        0
    }
}

/// Byte length of a whole scope, with its trailing `End` when one is
/// appended.
pub open spec fn hard_len(c: Cfg, append_end: bool) -> nat
    decreases c, 0int, 3int,
{
    soft_len(c.blocks@, 0, None) + (if append_end {
        1nat
    } else {
        0nat
    })
}

/// The labels of a terminator's nested scopes, in emission order.
pub open spec fn flow_labels(f: CfgFlow) -> Seq<Seq<u8>>
    decreases f, 0int, 0int,
{
    match f {
        CfgFlow::Try { try_body, catch, finally } => soft_labels(try_body.blocks@, 0) + (match catch {
            Some(cb) => soft_labels(cb.body.blocks@, 0),
            None => Seq::empty(),
        }) + (match finally {
            Some(fin) => soft_labels(fin.blocks@, 0),
            None => Seq::empty(),
        }),
        CfgFlow::With { body } => soft_labels(body.blocks@, 0),
        _ => Seq::empty(),
    }
}

/// The labels of one block: its own, then those of its nested scopes.
pub open spec fn block_labels(b: CfgBlock) -> Seq<Seq<u8>>
    decreases b, 0int, 1int,
{
    seq![b.label@] + flow_labels(b.flow)
}

/// The labels of the blocks from index `i` on, in emission order.
pub open spec fn soft_labels(blocks: Seq<CfgBlock>, i: int) -> Seq<Seq<u8>>
    decreases blocks, blocks.len() - i, 2int,
{
    if 0 <= i < blocks.len() {
        block_labels(blocks[i]) + soft_labels(blocks, i + 1)
    } else {
        Seq::empty()
    }
}

/// The targets of the branches a terminator emits, in emission order.  A
/// `None` target stands for the end sentinel of the enclosing scope.
pub open spec fn flow_targets(f: CfgFlow, ft: Option<Seq<u8>>) -> Seq<Option<Seq<u8>>>
    decreases f, 0int, 0int,
{
    match f {
        CfgFlow::Simple { next } => if label_view(next) == ft || next is None {
            Seq::empty()
        } else {
            seq![label_view(next)]
        },
        CfgFlow::If { true_target, false_target } => seq![label_view(true_target)] + (if label_view(
            false_target,
        ) == ft || false_target is None {
            Seq::empty()
        } else {
            seq![label_view(false_target)]
        }),
        CfgFlow::Try { try_body, catch, finally } => soft_targets(
            try_body.blocks@,
            0,
            try_next(catch, finally, ft),
        ) + (match catch {
            Some(cb) => soft_targets(cb.body.blocks@, 0, catch_next(finally, ft)),
            None => Seq::empty(),
        }) + (match finally {
            Some(fin) => soft_targets(fin.blocks@, 0, ft),
            None => Seq::empty(),
        }),
        CfgFlow::With { body } => soft_targets(body.blocks@, 0, ft),
        CfgFlow::WaitForFrame { ready_target, loading_target, .. } => seq![
            label_view(ready_target),
            label_view(loading_target),
        ],
        CfgFlow::WaitForFrame2 { ready_target, loading_target } => seq![
            label_view(ready_target),
            label_view(loading_target),
        ],
        _ => Seq::empty(),
    }
}

/// The branch targets of the blocks from index `i` on, in emission order.
pub open spec fn soft_targets(
    blocks: Seq<CfgBlock>,
    i: int,
    ft: Option<Seq<u8>>,
) -> Seq<Option<Seq<u8>>>
    decreases blocks, blocks.len() - i, 2int,
{
    if 0 <= i < blocks.len() {
        flow_targets(blocks[i].flow, ft_at(blocks, i, ft)) + soft_targets(blocks, i + 1, ft)
    } else {
        Seq::empty()
    }
}

/// Every label a terminator's fields mention, nested scopes included.
pub open spec fn flow_mentions(f: CfgFlow) -> Seq<Seq<u8>>
    decreases f, 0int, 0int,
{
    match f {
        CfgFlow::Simple { next } => opt_to_seq(next),
        CfgFlow::If { true_target, false_target } => opt_to_seq(true_target) + opt_to_seq(
            false_target,
        ),
        CfgFlow::Try { try_body, catch, finally } => soft_mentions(try_body.blocks@, 0) + (match catch {
            Some(cb) => soft_mentions(cb.body.blocks@, 0),
            None => Seq::empty(),
        }) + (match finally {
            Some(fin) => soft_mentions(fin.blocks@, 0),
            None => Seq::empty(),
        }),
        CfgFlow::With { body } => soft_mentions(body.blocks@, 0),
        CfgFlow::WaitForFrame { ready_target, loading_target, .. } => opt_to_seq(ready_target)
            + opt_to_seq(loading_target),
        CfgFlow::WaitForFrame2 { ready_target, loading_target } => opt_to_seq(ready_target)
            + opt_to_seq(loading_target),
        _ => Seq::empty(),
    }
}

/// A zero- or one-element sequence out of an optional label.
pub open spec fn opt_to_seq(o: Option<Vec<u8>>) -> Seq<Seq<u8>> {
    match o {
        Some(l) => seq![l@],
        None => Seq::empty(),
    }
}

/// Every label the blocks from index `i` on mention.
pub open spec fn soft_mentions(blocks: Seq<CfgBlock>, i: int) -> Seq<Seq<u8>>
    decreases blocks, blocks.len() - i, 2int,
{
    if 0 <= i < blocks.len() {
        flow_mentions(blocks[i].flow) + soft_mentions(blocks, i + 1)
    } else {
        Seq::empty()
    }
}

/// The bytes of the catch-target field of a `Try` terminator: a register
/// byte, a null-terminated name, or a single placeholder byte.
pub open spec fn catch_target_bytes(catch: Option<CatchBlock>) -> Seq<u8> {
    match catch {
        Some(cb) => match cb.target {
            CatchTarget::Register(r) => seq![r],
            CatchTarget::Variable(v) => c_string_bytes(v@),
        },
        None => seq![0u8],
    }
}

/// The five-byte stub of a branch instruction: the opcode, a body length of
/// two, and a zeroed offset field to be patched at resolution.
pub open spec fn branch_stub(op: u8) -> Seq<u8> {
    seq![op, 2u8, 0u8, 0u8, 0u8]
}

/// The flag byte of a `Try` terminator.
pub open spec fn try_flags(catch: Option<CatchBlock>, finally: Option<Cfg>) -> u8 {
    try_flags_byte(
        catch is Some,
        finally is Some,
        (match catch {
            Some(cb) => catch_in_register(cb.target),
            None => false,
        }),
    )
}

/// The bytes a terminator is emitted as, before branch resolution: branch
/// offset fields are zero, every other byte — opcodes, flags, size fields,
/// the catch target — is final.
pub open spec fn flow_stub(f: CfgFlow, ft: Option<Seq<u8>>) -> Seq<u8>
    decreases f, 0int, 0int,
{
    match f {
        CfgFlow::Simple { next } => if label_view(next) == ft {
            Seq::empty()
        } else if next is Some {
            branch_stub(0x99)
        } else {
            seq![0u8]
        },
        CfgFlow::If { false_target, .. } => branch_stub(0x9d) + (if label_view(false_target)
            == ft {
            Seq::empty()
        } else if false_target is Some {
            branch_stub(0x99)
        } else {
            seq![0u8]
        }),
        CfgFlow::Return => seq![0x3eu8],
        CfgFlow::Throw => seq![0x2au8],
        CfgFlow::Error => seq![0x96u8, 0x01u8, 0x00u8, 0xffu8],
        CfgFlow::Try { try_body, catch, finally } => seq![0x8fu8] + le_u16_bytes(
            (7 + catch_target_len(catch)) as u16,
        ) + seq![try_flags(catch, finally)] + le_u16_bytes(
            soft_len(try_body.blocks@, 0, try_next(catch, finally, ft)) as u16,
        ) + le_u16_bytes(
            (match catch {
                Some(cb) => soft_len(cb.body.blocks@, 0, catch_next(finally, ft)),
                None => 0nat,
            }) as u16,
        ) + le_u16_bytes(
            (match finally {
                Some(fin) => soft_len(fin.blocks@, 0, ft),
                None => 0nat,
            }) as u16,
        ) + catch_target_bytes(catch) + soft_stub(
            try_body.blocks@,
            0,
            try_next(catch, finally, ft),
        ) + (match catch {
            Some(cb) => soft_stub(cb.body.blocks@, 0, catch_next(finally, ft)),
            None => Seq::empty(),
        }) + (match finally {
            Some(fin) => soft_stub(fin.blocks@, 0, ft),
            None => Seq::empty(),
        }),
        CfgFlow::With { body } => seq![0x94u8, 0x02u8, 0x00u8] + le_u16_bytes(
            soft_len(body.blocks@, 0, ft) as u16,
        ) + soft_stub(body.blocks@, 0, ft),
        CfgFlow::WaitForFrame { frame, .. } => action_bytes(
            RawAction::WaitForFrame { frame, skip: 1 },
        ) + branch_stub(0x99) + branch_stub(0x99),
        CfgFlow::WaitForFrame2 { .. } => action_bytes(RawAction::WaitForFrame2 { skip: 1 })
            + branch_stub(0x99) + branch_stub(0x99),
    }
}

/// The bytes a straight-line action is emitted as.  A function definition
/// carries its fully resolved body right after its header.
pub open spec fn cfg_action_stub(a: Action) -> Seq<u8>
    decreases a, 0int, 0int,
{
    match a {
        Action::Raw(r) => action_bytes(r),
        Action::DefineFunction(df) => {
            let hdr = c_string_bytes(df.name@) + le_u16_bytes(df.parameters@.len() as u16)
                + c_string_list_bytes(df.parameters@) + le_u16_bytes(
                hard_len(df.body, false) as u16,
            );
            seq![0x9bu8] + le_u16_bytes(hdr.len() as u16) + hdr + scope_bytes(df.body, false)
        },
        Action::DefineFunction2(df) => {
            let hdr = c_string_bytes(df.name@) + le_u16_bytes(df.parameters@.len() as u16)
                + seq![df.register_count] + le_u16_bytes(df.flags) + raw_parameters_bytes(
                df.parameters@,
            ) + le_u16_bytes(hard_len(df.body, false) as u16);
            seq![0x8eu8] + le_u16_bytes(hdr.len() as u16) + hdr + scope_bytes(df.body, false)
        },
    }
}

/// The bytes of a block's actions from index `i` on.
pub open spec fn actions_stub(acts: Seq<Action>, i: int) -> Seq<u8>
    decreases acts, acts.len() - i, 0int,
{
    if 0 <= i < acts.len() {
        cfg_action_stub(acts[i]) + actions_stub(acts, i + 1)
    } else {
        Seq::empty()
    }
}

/// The bytes one block is emitted as, before branch resolution.
pub open spec fn block_stub(b: CfgBlock, ft: Option<Seq<u8>>) -> Seq<u8>
    decreases b, 0int, 1int,
{
    actions_stub(b.actions@, 0) + flow_stub(b.flow, ft)
}

/// The bytes the blocks from index `i` on are emitted as.
pub open spec fn soft_stub(blocks: Seq<CfgBlock>, i: int, ft: Option<Seq<u8>>) -> Seq<u8>
    decreases blocks, blocks.len() - i, 2int,
{
    if 0 <= i < blocks.len() {
        block_stub(blocks[i], ft_at(blocks, i, ft)) + soft_stub(blocks, i + 1, ft)
    } else {
        Seq::empty()
    }
}

/// The label table of a terminator's nested scopes, with each label mapped
/// to the offset of its block's first byte; `start` is the offset at which
/// the terminator begins.
pub open spec fn flow_label_table(f: CfgFlow, start: int, ft: Option<Seq<u8>>) -> Seq<
    (Seq<u8>, int),
>
    decreases f, 0int, 0int,
{
    match f {
        CfgFlow::Try { try_body, catch, finally } => {
            let p = start + 10 + catch_target_len(catch);
            let tl = soft_len(try_body.blocks@, 0, try_next(catch, finally, ft)) as int;
            let cl = (match catch {
                Some(cb) => soft_len(cb.body.blocks@, 0, catch_next(finally, ft)),
                None => 0nat,
            }) as int;
            soft_label_table(try_body.blocks@, 0, p, try_next(catch, finally, ft)) + (match catch {
                Some(cb) => soft_label_table(cb.body.blocks@, 0, p + tl, catch_next(finally, ft)),
                None => Seq::empty(),
            }) + (match finally {
                Some(fin) => soft_label_table(fin.blocks@, 0, p + tl + cl, ft),
                None => Seq::empty(),
            })
        },
        CfgFlow::With { body } => soft_label_table(body.blocks@, 0, start + 5, ft),
        _ => Seq::empty(),
    }
}

/// The label table of one block starting at offset `start`: its own label
/// at its first byte, then the tables of its nested scopes.
pub open spec fn block_label_table(b: CfgBlock, start: int, ft: Option<Seq<u8>>) -> Seq<
    (Seq<u8>, int),
>
    decreases b, 0int, 1int,
{
    seq![(b.label@, start)] + flow_label_table(b.flow, start + actions_len(b.actions@, 0), ft)
}

/// The label table of the blocks from index `i` on, the first starting at
/// offset `start`.
pub open spec fn soft_label_table(
    blocks: Seq<CfgBlock>,
    i: int,
    start: int,
    ft: Option<Seq<u8>>,
) -> Seq<(Seq<u8>, int)>
    decreases blocks, blocks.len() - i, 2int,
{
    if 0 <= i < blocks.len() {
        block_label_table(blocks[i], start, ft_at(blocks, i, ft)) + soft_label_table(
            blocks,
            i + 1,
            start + block_len(blocks[i], ft_at(blocks, i, ft)),
            ft,
        )
    } else {
        Seq::empty()
    }
}

/// The branch slots a terminator emits, in order: the offset of each
/// two-byte offset field and its target label; `start` is the offset at
/// which the terminator begins.
pub open spec fn flow_jump_slots(f: CfgFlow, start: int, ft: Option<Seq<u8>>) -> Seq<
    (int, Option<Seq<u8>>),
>
    decreases f, 0int, 0int,
{
    match f {
        CfgFlow::Simple { next } => if label_view(next) == ft || next is None {
            Seq::empty()
        } else {
            seq![(start + 3, label_view(next))]
        },
        CfgFlow::If { true_target, false_target } => seq![(start + 3, label_view(true_target))] + (
        if label_view(false_target) == ft || false_target is None {
            Seq::empty()
        } else {
            seq![(start + 8, label_view(false_target))]
        }),
        CfgFlow::Try { try_body, catch, finally } => {
            let p = start + 10 + catch_target_len(catch);
            let tl = soft_len(try_body.blocks@, 0, try_next(catch, finally, ft)) as int;
            let cl = (match catch {
                Some(cb) => soft_len(cb.body.blocks@, 0, catch_next(finally, ft)),
                None => 0nat,
            }) as int;
            soft_jump_slots(try_body.blocks@, 0, p, try_next(catch, finally, ft)) + (match catch {
                Some(cb) => soft_jump_slots(cb.body.blocks@, 0, p + tl, catch_next(finally, ft)),
                None => Seq::empty(),
            }) + (match finally {
                Some(fin) => soft_jump_slots(fin.blocks@, 0, p + tl + cl, ft),
                None => Seq::empty(),
            })
        },
        CfgFlow::With { body } => soft_jump_slots(body.blocks@, 0, start + 5, ft),
        CfgFlow::WaitForFrame { ready_target, loading_target, .. } => seq![
            (start + 9, label_view(ready_target)),
            (start + 14, label_view(loading_target)),
        ],
        CfgFlow::WaitForFrame2 { ready_target, loading_target } => seq![
            (start + 7, label_view(ready_target)),
            (start + 12, label_view(loading_target)),
        ],
        _ => Seq::empty(),
    }
}

/// The branch slots of one block starting at offset `start`.
pub open spec fn block_jump_slots(b: CfgBlock, start: int, ft: Option<Seq<u8>>) -> Seq<
    (int, Option<Seq<u8>>),
>
    decreases b, 0int, 1int,
{
    flow_jump_slots(b.flow, start + actions_len(b.actions@, 0), ft)
}

/// The branch slots of the blocks from index `i` on, the first starting at
/// offset `start`.
pub open spec fn soft_jump_slots(
    blocks: Seq<CfgBlock>,
    i: int,
    start: int,
    ft: Option<Seq<u8>>,
) -> Seq<(int, Option<Seq<u8>>)>
    decreases blocks, blocks.len() - i, 2int,
{
    if 0 <= i < blocks.len() {
        block_jump_slots(blocks[i], start, ft_at(blocks, i, ft)) + soft_jump_slots(
            blocks,
            i + 1,
            start + block_len(blocks[i], ft_at(blocks, i, ft)),
            ft,
        )
    } else {
        Seq::empty()
    }
}

/// One branch slot patched: the field receives the signed distance from the
/// byte after it to the target's offset in the table, or to the end
/// sentinel for a `None` target.
pub open spec fn patch_slot(
    b: Seq<u8>,
    labels: Seq<(Seq<u8>, int)>,
    end: int,
    slot: (int, Option<Seq<u8>>),
) -> Seq<u8> {
    match (match slot.1 {
        Some(l) => assoc_lookup(labels, l),
        None => Some(end),
    }) {
        Some(t) => patched2(b, slot.0, ((t - (slot.0 + 2)) as i16) as u16),
        None => b,
    }
}

/// All branch slots patched, last first (the order resolution applies
/// them; the slots are disjoint, so the order does not show in the result).
pub open spec fn resolve_slots(
    b: Seq<u8>,
    labels: Seq<(Seq<u8>, int)>,
    end: int,
    slots: Seq<(int, Option<Seq<u8>>)>,
) -> Seq<u8>
    decreases slots.len(),
{
    if slots.len() == 0 {
        b
    } else {
        resolve_slots(patch_slot(b, labels, end, slots.last()), labels, end, slots.drop_last())
    }
}

/// The final bytes of an emitted scope: the stub layout, a trailing `End`
/// when one is appended, and every branch field patched against the scope's
/// own label table.
pub open spec fn scope_bytes(c: Cfg, append_end: bool) -> Seq<u8>
    decreases c, 0int, 4int,
{
    let stub = soft_stub(c.blocks@, 0, None) + (if append_end {
        seq![0u8]
    } else {
        Seq::<u8>::empty()
    });
    resolve_slots(
        stub,
        soft_label_table(c.blocks@, 0, 0, None),
        soft_stub(c.blocks@, 0, None).len() as int,
        soft_jump_slots(c.blocks@, 0, 0, None),
    )
}

/// The slot view of recorded branches: field offset and target, in order.
pub open spec fn slot_views(jumps: Seq<JumpRecord>) -> Seq<(int, Option<Seq<u8>>)> {
    jumps.map_values(|j: JumpRecord| (j.offset as int, label_view(j.target)))
}

/// Structural well-formedness of one action: a nested function body is a
/// well-formed scope of its own.
pub open spec fn action_wf(a: Action) -> bool
    decreases a, 0int, 0int,
{
    match a {
        Action::Raw(r) => crate::actions::raw_action_wf(r),
        Action::DefineFunction(df) => hard_cfg_wf(df.body),
        Action::DefineFunction2(df) => hard_cfg_wf(df.body),
    }
}

/// Well-formedness of the actions of a block from index `i` on.
pub open spec fn actions_wf(acts: Seq<Action>, i: int) -> bool
    decreases acts, acts.len() - i, 0int,
{
    if 0 <= i < acts.len() {
        action_wf(acts[i]) && actions_wf(acts, i + 1)
    } else {
        true
    }
}

/// Well-formedness of a terminator: every nested scope is non-empty and
/// well-formed in turn.
pub open spec fn flow_wf(f: CfgFlow) -> bool
    decreases f, 0int, 0int,
{
    match f {
        CfgFlow::Try { try_body, catch, finally } => try_body.blocks@.len() >= 1 && soft_wf(
            try_body.blocks@,
            0,
        ) && (match catch {
            Some(cb) => cb.body.blocks@.len() >= 1 && soft_wf(cb.body.blocks@, 0),
            None => true,
        }) && (match finally {
            Some(fin) => fin.blocks@.len() >= 1 && soft_wf(fin.blocks@, 0),
            None => true,
        }),
        CfgFlow::With { body } => body.blocks@.len() >= 1 && soft_wf(body.blocks@, 0),
        _ => true,
    }
}

/// Well-formedness of one block.
pub open spec fn block_wf(b: CfgBlock) -> bool
    decreases b, 0int, 1int,
{
    actions_wf(b.actions@, 0) && flow_wf(b.flow)
}

/// Well-formedness of the blocks from index `i` on.
pub open spec fn soft_wf(blocks: Seq<CfgBlock>, i: int) -> bool
    decreases blocks, blocks.len() - i, 2int,
{
    if 0 <= i < blocks.len() {
        block_wf(blocks[i]) && soft_wf(blocks, i + 1)
    } else {
        true
    }
}

/// No two labels of the sequence are equal.
pub open spec fn labels_distinct(labels: Seq<Seq<u8>>) -> bool {
    forall|i: int, j: int| 0 <= i < j < labels.len() ==> labels[i] != labels[j]
}

/// Well-formedness of a whole scope, as the emitter requires it: at least
/// one block everywhere, distinct labels, and every mentioned label defined
/// by some block of the scope — branch resolution then cannot meet an
/// unknown label.  Nested function bodies are scopes of their own.
pub open spec fn hard_cfg_wf(c: Cfg) -> bool
    decreases c, 0int, 3int,
{
    &&& c.blocks@.len() >= 1
    &&& soft_wf(c.blocks@, 0)
    &&& labels_distinct(soft_labels(c.blocks@, 0))
    &&& (forall|k: int|
        0 <= k < soft_mentions(c.blocks@, 0).len() ==> soft_labels(c.blocks@, 0).contains(
            #[trigger] soft_mentions(c.blocks@, 0)[k],
        ))
}

/// Encodability of one action: counts and body lengths fit their 16-bit
/// fields; a nested function body is short enough for every branch in it to
/// be within reach.
pub open spec fn action_enc_ok(a: Action) -> bool
    decreases a, 0int, 0int,
{
    match a {
        Action::Raw(r) => action_ok(r),
        Action::DefineFunction(df) => {
            &&& df.parameters@.len() <= 0xFFFF
            &&& (df.name@.len() + 1) + 2 + c_string_list_bytes(df.parameters@).len() + 2 <= 0xFFFF
            &&& hard_len(df.body, false) <= 32767
            &&& cfg_enc_ok(df.body)
        },
        Action::DefineFunction2(df) => {
            &&& df.parameters@.len() <= 0xFFFF
            &&& (df.name@.len() + 1) + 2 + 1 + 2 + raw_parameters_bytes(df.parameters@).len() + 2
                <= 0xFFFF
            &&& hard_len(df.body, false) <= 32767
            &&& cfg_enc_ok(df.body)
        },
    }
}

/// Encodability of the actions of a block from index `i` on.
pub open spec fn actions_enc_ok(acts: Seq<Action>, i: int) -> bool
    decreases acts, acts.len() - i, 0int,
{
    if 0 <= i < acts.len() {
        action_enc_ok(acts[i]) && actions_enc_ok(acts, i + 1)
    } else {
        true
    }
}

/// Encodability of a terminator: the measured extents of nested scopes fit
/// their 16-bit size fields.
pub open spec fn flow_enc_ok(f: CfgFlow, ft: Option<Seq<u8>>) -> bool
    decreases f, 0int, 0int,
{
    match f {
        CfgFlow::Try { try_body, catch, finally } => {
            &&& 7 + catch_target_len(catch) <= 0xFFFF
            &&& soft_len(try_body.blocks@, 0, try_next(catch, finally, ft)) <= 0xFFFF
            &&& soft_enc_ok(try_body.blocks@, 0, try_next(catch, finally, ft))
            &&& (match catch {
                Some(cb) => soft_len(cb.body.blocks@, 0, catch_next(finally, ft)) <= 0xFFFF
                    && soft_enc_ok(cb.body.blocks@, 0, catch_next(finally, ft)),
                None => true,
            })
            &&& (match finally {
                Some(fin) => soft_len(fin.blocks@, 0, ft) <= 0xFFFF && soft_enc_ok(
                    fin.blocks@,
                    0,
                    ft,
                ),
                None => true,
            })
        },
        CfgFlow::With { body } => soft_len(body.blocks@, 0, ft) <= 0xFFFF && soft_enc_ok(
            body.blocks@,
            0,
            ft,
        ),
        _ => true,
    }
}

/// Encodability of one block.
pub open spec fn block_enc_ok(b: CfgBlock, ft: Option<Seq<u8>>) -> bool
    decreases b, 0int, 1int,
{
    actions_enc_ok(b.actions@, 0) && flow_enc_ok(b.flow, ft)
}

/// Encodability of the blocks from index `i` on.
pub open spec fn soft_enc_ok(blocks: Seq<CfgBlock>, i: int, ft: Option<Seq<u8>>) -> bool
    decreases blocks, blocks.len() - i, 2int,
{
    if 0 <= i < blocks.len() {
        block_enc_ok(blocks[i], ft_at(blocks, i, ft)) && soft_enc_ok(blocks, i + 1, ft)
    } else {
        true
    }
}

/// A sufficient condition for emission to succeed: every size and count
/// fits its field, and the whole scope is short enough that every branch
/// offset within it fits a signed 16-bit field.
pub open spec fn cfg_enc_ok(c: Cfg) -> bool
    decreases c, 0int, 3int,
{
    soft_enc_ok(c.blocks@, 0, None) && hard_len(c, true) <= 32767
}


/// A prefix relation on byte sequences: everything once written stays in
/// place; later emission only appends or patches past it.
pub open spec fn is_prefix(p: Seq<u8>, s: Seq<u8>) -> bool {
    p.len() <= s.len() && s.subrange(0, p.len() as int) == p
}

proof fn lemma_prefix_refl(a: Seq<u8>)
    ensures
        is_prefix(a, a),
{
    assert(a.subrange(0, a.len() as int) =~= a);
}

proof fn lemma_prefix_trans(a: Seq<u8>, b: Seq<u8>, c: Seq<u8>)
    requires
        is_prefix(a, b),
        is_prefix(b, c),
    ensures
        is_prefix(a, c),
{
    assert forall|i: int| 0 <= i < a.len() implies c.subrange(0, a.len() as int)[i] == a[i] by {
        assert(b.subrange(0, a.len() as int)[i] == a[i]);
        assert(c.subrange(0, b.len() as int)[i] == b[i]);
    }
    assert(c.subrange(0, a.len() as int) =~= a);
}

proof fn lemma_patched2_prefix(pre: Seq<u8>, pos: int, v: u16, base: Seq<u8>)
    requires
        is_prefix(base, pre),
        base.len() <= pos,
        pos + 2 <= pre.len(),
    ensures
        is_prefix(base, crate::buffer::patched2(pre, pos, v)),
{
    assert(crate::buffer::patched2(pre, pos, v).subrange(0, base.len() as int) =~= pre.subrange(
        0,
        base.len() as int,
    ));
}

/// A recorded block start: a label and the offset of the block's first
/// byte.
pub struct LabelOffset {
    pub label: Vec<u8>,
    pub offset: usize,
}

/// A recorded branch: the offset of its two-byte offset field, the hole
/// standing for that field, and the target label (`None` aims at the end
/// sentinel of the scope).
pub struct JumpRecord {
    pub offset: usize,
    pub hole: BufferHole,
    pub target: Option<Vec<u8>>,
}

/// The two tables accumulated while a scope is emitted: where each block
/// starts, and which branches are waiting for resolution.
pub struct WriteInfo {
    pub blocks: Vec<LabelOffset>,
    pub jumps: Vec<JumpRecord>,
}

impl WriteInfo {
    pub fn new() -> (wi: Self)
        ensures
            wi.blocks@ == Seq::<LabelOffset>::empty(),
            wi.jumps@ == Seq::<JumpRecord>::empty(),
    {
        WriteInfo { blocks: Vec::new(), jumps: Vec::new() }
    }

    /// Appends another table pair to this one, keeping order.
    pub fn extend(&mut self, other: WriteInfo)
        ensures
            final(self).blocks@ == old(self).blocks@ + other.blocks@,
            final(self).jumps@ == old(self).jumps@ + other.jumps@,
    {
        let WriteInfo { blocks: mut ob, jumps: mut oj } = other;
        self.blocks.append(&mut ob);
        self.jumps.append(&mut oj);
    }
}

/// The labels of recorded block starts, in order.
pub open spec fn label_views(blocks: Seq<LabelOffset>) -> Seq<Seq<u8>> {
    blocks.map_values(|lo: LabelOffset| lo.label@)
}

/// The label table as an association sequence.
pub open spec fn label_offsets_view(blocks: Seq<LabelOffset>) -> Seq<(Seq<u8>, int)> {
    blocks.map_values(|lo: LabelOffset| (lo.label@, lo.offset as int))
}

/// The targets of recorded branches, in order.
pub open spec fn target_views(jumps: Seq<JumpRecord>) -> Seq<Option<Seq<u8>>> {
    jumps.map_values(|j: JumpRecord| label_view(j.target))
}

/// Sanity of recorded tables with respect to the region `[lo, hi]` of the
/// buffer: block starts lie in the region, each branch's offset field lies
/// wholly in it and matches its hole, and offset fields are disjoint and in
/// ascending order.
pub open spec fn records_ok(
    blocks: Seq<LabelOffset>,
    jumps: Seq<JumpRecord>,
    lo: int,
    hi: int,
) -> bool {
    &&& (forall|k: int| 0 <= k < blocks.len() ==> lo <= (#[trigger] blocks[k]).offset <= hi)
    &&& (forall|k: int|
        0 <= k < jumps.len() ==> {
            &&& lo <= (#[trigger] jumps[k]).offset
            &&& jumps[k].offset + 2 <= hi
            &&& jumps[k].hole.pos() == jumps[k].offset
        })
    &&& (forall|k1: int, k2: int|
        0 <= k1 < k2 < jumps.len() ==> (#[trigger] jumps[k1]).offset + 2
            <= (#[trigger] jumps[k2]).offset)
}

proof fn lemma_records_join(
    b1: Seq<LabelOffset>,
    j1: Seq<JumpRecord>,
    b2: Seq<LabelOffset>,
    j2: Seq<JumpRecord>,
    lo: int,
    mid: int,
    hi: int,
)
    requires
        records_ok(b1, j1, lo, mid),
        records_ok(b2, j2, mid, hi),
        lo <= mid <= hi,
    ensures
        records_ok(b1 + b2, j1 + j2, lo, hi),
{
    assert forall|k: int| 0 <= k < (b1 + b2).len() implies lo <= (#[trigger] (b1 + b2)[k]).offset
        <= hi by {
        if k < b1.len() {
            assert((b1 + b2)[k] == b1[k]);
        } else {
            assert((b1 + b2)[k] == b2[k - b1.len()]);
        }
    }
    assert forall|k: int| 0 <= k < (j1 + j2).len() implies lo <= (#[trigger] (j1 + j2)[k]).offset
        && (j1 + j2)[k].offset + 2 <= hi && (j1 + j2)[k].hole.pos() == (j1 + j2)[k].offset by {
        if k < j1.len() {
            assert((j1 + j2)[k] == j1[k]);
        } else {
            assert((j1 + j2)[k] == j2[k - j1.len()]);
        }
    }
    assert forall|k1: int, k2: int|
        0 <= k1 < k2 < (j1 + j2).len() implies (#[trigger] (j1 + j2)[k1]).offset + 2 <= (#[trigger] (j1
        + j2)[k2]).offset by {
        if k2 < j1.len() {
            assert((j1 + j2)[k1] == j1[k1]);
            assert((j1 + j2)[k2] == j1[k2]);
        } else if k1 >= j1.len() {
            assert((j1 + j2)[k1] == j2[k1 - j1.len()]);
            assert((j1 + j2)[k2] == j2[k2 - j1.len()]);
        } else {
            assert((j1 + j2)[k1] == j1[k1]);
            assert((j1 + j2)[k2] == j2[k2 - j1.len()]);
        }
    }
}

proof fn lemma_records_widen(
    blocks: Seq<LabelOffset>,
    jumps: Seq<JumpRecord>,
    lo: int,
    hi: int,
    lo2: int,
    hi2: int,
)
    requires
        records_ok(blocks, jumps, lo, hi),
        lo2 <= lo,
        hi <= hi2,
    ensures
        records_ok(blocks, jumps, lo2, hi2),
{
}

/// Looks a key up in an association sequence: the value of the first pair
/// whose key matches.
pub open spec fn assoc_lookup(labels: Seq<(Seq<u8>, int)>, key: Seq<u8>) -> Option<int>
    decreases labels.len(),
{
    if labels.len() == 0 {
        None
    } else if labels[0].0 == key {
        Some(labels[0].1)
    } else {
        assoc_lookup(labels.drop_first(), key)
    }
}

proof fn lemma_assoc_lookup_some(labels: Seq<(Seq<u8>, int)>, key: Seq<u8>)
    requires
        exists|k: int| 0 <= k < labels.len() && (#[trigger] labels[k]).0 == key,
    ensures
        assoc_lookup(labels, key) is Some,
    decreases labels.len(),
{
    let k = choose|k: int| 0 <= k < labels.len() && (#[trigger] labels[k]).0 == key;
    if labels[0].0 != key {
        assert(labels.drop_first()[k - 1] == labels[k]);
        lemma_assoc_lookup_some(labels.drop_first(), key);
    }
}

proof fn lemma_assoc_lookup_in_range(labels: Seq<(Seq<u8>, int)>, key: Seq<u8>, lo: int, hi: int)
    requires
        forall|k: int| 0 <= k < labels.len() ==> lo <= (#[trigger] labels[k]).1 <= hi,
        assoc_lookup(labels, key) is Some,
    ensures
        lo <= assoc_lookup(labels, key)->0 <= hi,
    decreases labels.len(),
{
    if labels.len() > 0 && labels[0].0 != key {
        assert(forall|k: int|
            0 <= k < labels.drop_first().len() ==> lo <= (#[trigger] labels.drop_first()[k]).1
                <= hi);
        lemma_assoc_lookup_in_range(labels.drop_first(), key, lo, hi);
    }
}

/// Whether two byte strings are equal.
pub fn label_eq(a: &Vec<u8>, b: &Vec<u8>) -> (r: bool)
    ensures
        r <==> a@ == b@,
{
    if a.len() != b.len() {
        return false;
    }
    let mut i: usize = 0;
    while i < a.len()
        invariant
            i <= a@.len(),
            a@.len() == b@.len(),
            forall|k: int| 0 <= k < i ==> a@[k] == b@[k],
        decreases a@.len() - i,
    {
        if a[i] != b[i] {
            return false;
        }
        i = i + 1;
    }
    proof {
        assert(a@ =~= b@);
    }
    true
}

/// Whether two optional labels are equal.
pub fn opt_label_eq(a: Option<&Vec<u8>>, b: Option<&Vec<u8>>) -> (r: bool)
    ensures
        r <==> label_ref_view(a) == label_ref_view(b),
{
    match (a, b) {
        (Some(x), Some(y)) => label_eq(x, y),
        (None, None) => true,
        _ => false,
    }
}

/// A copy of a byte string.
pub fn clone_bytes(v: &Vec<u8>) -> (r: Vec<u8>)
    ensures
        r@ == v@,
{
    let mut r: Vec<u8> = Vec::new();
    let mut i: usize = 0;
    while i < v.len()
        invariant
            i <= v@.len(),
            r@ == v@.subrange(0, i as int),
        decreases v@.len() - i,
    {
        r.push(v[i]);
        proof {
            assert(v@.subrange(0, i + 1) =~= v@.subrange(0, i as int).push(v@[i as int]));
        }
        i = i + 1;
    }
    proof {
        assert(v@.subrange(0, v@.len() as int) =~= v@);
    }
    r
}

/// Looks a label up in the recorded block starts.
fn lookup_label(blocks: &Vec<LabelOffset>, label: &Vec<u8>) -> (r: Option<usize>)
    ensures
        match r {
            Some(off) => assoc_lookup(label_offsets_view(blocks@), label@) == Some(off as int),
            None => assoc_lookup(label_offsets_view(blocks@), label@) is None,
        },
{
    let mut i: usize = 0;
    proof {
        assert(label_offsets_view(blocks@).skip(0) =~= label_offsets_view(blocks@));
    }
    while i < blocks.len()
        invariant
            i <= blocks@.len(),
            assoc_lookup(label_offsets_view(blocks@), label@) == assoc_lookup(
                label_offsets_view(blocks@).skip(i as int),
                label@,
            ),
        decreases blocks@.len() - i,
    {
        let ghost rest = label_offsets_view(blocks@).skip(i as int);
        proof {
            assert(rest.len() == blocks@.len() - i);
            assert(rest[0] == label_offsets_view(blocks@)[i as int]);
            assert(rest.drop_first() =~= label_offsets_view(blocks@).skip(i + 1));
        }
        if label_eq(&blocks[i].label, label) {
            return Some(blocks[i].offset);
        }
        i = i + 1;
    }
    proof {
        assert(label_offsets_view(blocks@).skip(blocks@.len() as int).len() == 0);
    }
    None
}

/// The signed 16-bit offset `x` with `source + x == target`, or `None`
/// where the distance is out of reach of the encoding.
pub fn offset_delta_i16(source: usize, target: usize) -> (r: Option<i16>)
    ensures
        r is Some <==> -32768 <= target - source <= 32767,
        r is Some ==> r->0 as int == target - source,
{
    if target >= source {
        let diff = target - source;
        if diff <= 32767 {
            Some(diff as i16)
        } else {
            None
        }
    } else {
        let x = source - target;
        if x > 32768 {
            None
        } else if x == 32768 {
            Some(-32768)
        } else {
            Some(-(x as i16))
        }
    }
}

/// Writes an action header: the opcode byte, and the length field when it
/// is non-zero.
fn write_action_header(w: &mut PatchableBufWriter, code: u8, length: u16)
    ensures
        final(w).bytes() == old(w).bytes() + seq![code] + (if length > 0 {
            le_u16_bytes(length)
        } else {
            Seq::<u8>::empty()
        }),
        final(w).holes() == old(w).holes(),
{
    emit_u8(w, code);
    if length > 0 {
        emit_le_u16(w, length);
        proof {
            assert(old(w).bytes().push(code) + le_u16_bytes(length) =~= old(w).bytes()
                + seq![code] + le_u16_bytes(length));
        }
    } else {
        proof {
            assert(old(w).bytes().push(code) =~= old(w).bytes() + seq![code]
                + Seq::<u8>::empty());
        }
    }
}

/// Emits the stub of a conditional branch: the `If` opcode with a reserved
/// two-byte offset field; returns the field's offset and its hole.
fn write_if(w: &mut PatchableBufWriter) -> (r: (usize, BufferHole))
    ensures
        final(w).bytes() == old(w).bytes() + seq![0x9du8, 2u8, 0u8, 0u8, 0u8],
        final(w).holes() == old(w).holes() + 1,
        r.0 == old(w).bytes().len() + 3,
        r.1.pos() == r.0,
{
    write_action_header(w, 0x9d, 2);
    let pos = w.len();
    let hole = w.write_hole_le_i16();
    proof {
        assert(old(w).bytes() + seq![0x9du8] + le_u16_bytes(2) + seq![0u8, 0u8] =~= old(w).bytes()
            + seq![0x9du8, 2u8, 0u8, 0u8, 0u8]);
    }
    (pos, hole)
}

/// Emits the stub of an unconditional branch: the `Jump` opcode with a
/// reserved two-byte offset field.
fn write_jump(w: &mut PatchableBufWriter) -> (r: (usize, BufferHole))
    ensures
        final(w).bytes() == old(w).bytes() + seq![0x99u8, 2u8, 0u8, 0u8, 0u8],
        final(w).holes() == old(w).holes() + 1,
        r.0 == old(w).bytes().len() + 3,
        r.1.pos() == r.0,
{
    write_action_header(w, 0x99, 2);
    let pos = w.len();
    let hole = w.write_hole_le_i16();
    proof {
        assert(old(w).bytes() + seq![0x99u8] + le_u16_bytes(2) + seq![0u8, 0u8] =~= old(w).bytes()
            + seq![0x99u8, 2u8, 0u8, 0u8, 0u8]);
    }
    (pos, hole)
}

/// Emits the deliberately malformed `Push` that stands for a point the
/// input marked as faulty: a one-byte body holding an invalid value tag.
pub fn write_error(w: &mut PatchableBufWriter)
    ensures
        final(w).bytes() == old(w).bytes() + seq![0x96u8, 0x01u8, 0x00u8, 0xffu8],
        final(w).holes() == old(w).holes(),
{
    emit_u8(w, 0x96);
    emit_le_u16(w, 0x0001);
    emit_u8(w, 0xff);
    proof {
        assert(old(w).bytes().push(0x96u8) + le_u16_bytes(1) =~= old(w).bytes() + seq![
            0x96u8,
            0x01u8,
            0x00u8,
        ]);
        assert((old(w).bytes() + seq![0x96u8, 0x01u8, 0x00u8]).push(0xffu8) =~= old(w).bytes()
            + seq![0x96u8, 0x01u8, 0x00u8, 0xffu8]);
    }
}


proof fn lemma_actions_wf_at(acts: Seq<Action>, i: int, j: int)
    requires
        actions_wf(acts, i),
        0 <= i <= j < acts.len(),
    ensures
        action_wf(acts[j]),
    decreases j - i,
{
    if i < j {
        lemma_actions_wf_at(acts, i + 1, j);
    }
}

proof fn lemma_actions_enc_ok_at(acts: Seq<Action>, i: int, j: int)
    requires
        actions_enc_ok(acts, i),
        0 <= i <= j < acts.len(),
    ensures
        action_enc_ok(acts[j]),
    decreases j - i,
{
    if i < j {
        lemma_actions_enc_ok_at(acts, i + 1, j);
    }
}

proof fn lemma_soft_wf_at(blocks: Seq<CfgBlock>, i: int, j: int)
    requires
        soft_wf(blocks, i),
        0 <= i <= j < blocks.len(),
    ensures
        block_wf(blocks[j]),
    decreases j - i,
{
    if i < j {
        lemma_soft_wf_at(blocks, i + 1, j);
    }
}

proof fn lemma_soft_enc_ok_at(blocks: Seq<CfgBlock>, i: int, j: int, ft: Option<Seq<u8>>)
    requires
        soft_enc_ok(blocks, i, ft),
        0 <= i <= j < blocks.len(),
    ensures
        block_enc_ok(blocks[j], ft_at(blocks, j, ft)),
    decreases j - i,
{
    if i < j {
        lemma_soft_enc_ok_at(blocks, i + 1, j, ft);
    }
}

proof fn lemma_label_views_concat(a: Seq<LabelOffset>, b: Seq<LabelOffset>)
    ensures
        label_views(a + b) == label_views(a) + label_views(b),
{
    assert(label_views(a + b) =~= label_views(a) + label_views(b));
}

proof fn lemma_target_views_concat(a: Seq<JumpRecord>, b: Seq<JumpRecord>)
    ensures
        target_views(a + b) == target_views(a) + target_views(b),
{
    assert(target_views(a + b) =~= target_views(a) + target_views(b));
}

proof fn lemma_label_offsets_view_concat(a: Seq<LabelOffset>, b: Seq<LabelOffset>)
    ensures
        label_offsets_view(a + b) == label_offsets_view(a) + label_offsets_view(b),
{
    assert(label_offsets_view(a + b) =~= label_offsets_view(a) + label_offsets_view(b));
}

proof fn lemma_slot_views_concat(a: Seq<JumpRecord>, b: Seq<JumpRecord>)
    ensures
        slot_views(a + b) == slot_views(a) + slot_views(b),
{
    assert(slot_views(a + b) =~= slot_views(a) + slot_views(b));
}

proof fn lemma_patch_zero_slot(s: Seq<u8>, prefix: Seq<u8>, suffix: Seq<u8>, v: u16)
    requires
        s == prefix + seq![0u8, 0u8] + suffix,
    ensures
        patched2(s, prefix.len() as int, v) == prefix + le_u16_bytes(v) + suffix,
{
    assert(patched2(s, prefix.len() as int, v) =~= prefix + le_u16_bytes(v) + suffix);
}

proof fn lemma_contains_concat_left(a: Seq<Seq<u8>>, b: Seq<Seq<u8>>, v: Seq<u8>)
    requires
        a.contains(v),
    ensures
        (a + b).contains(v),
{
    let i = choose|i: int| 0 <= i < a.len() && a[i] == v;
    assert((a + b)[i] == v);
}

proof fn lemma_contains_concat_right(a: Seq<Seq<u8>>, b: Seq<Seq<u8>>, v: Seq<u8>)
    requires
        b.contains(v),
    ensures
        (a + b).contains(v),
{
    let i = choose|i: int| 0 <= i < b.len() && b[i] == v;
    assert((a + b)[a.len() + i] == v);
}

proof fn lemma_flow_targets_mentioned(f: CfgFlow, ft: Option<Seq<u8>>, k: int)
    requires
        0 <= k < flow_targets(f, ft).len(),
        flow_targets(f, ft)[k] is Some,
    ensures
        flow_mentions(f).contains(flow_targets(f, ft)[k]->0),
    decreases f, 0int, 1int,
{
    let v = flow_targets(f, ft)[k]->0;
    match f {
        CfgFlow::Simple { next } => {
            assert(flow_mentions(f)[0] == v);
        },
        CfgFlow::If { true_target, false_target } => {
            if k == 0 {
                match true_target {
                    Some(l) => {
                        assert(flow_mentions(f)[0] == v);
                    },
                    None => {},
                }
            } else {
                assert(flow_mentions(f)[opt_to_seq(true_target).len() as int] == v);
            }
        },
        CfgFlow::Try { try_body, catch, finally } => {
            let t_next = try_next(catch, finally, ft);
            let c_next = catch_next(finally, ft);
            let t_targets = soft_targets(try_body.blocks@, 0, t_next);
            let c_targets = (match catch {
                Some(cb) => soft_targets(cb.body.blocks@, 0, c_next),
                None => Seq::empty(),
            });
            let f_targets = (match finally {
                Some(fin) => soft_targets(fin.blocks@, 0, ft),
                None => Seq::empty(),
            });
            let t_mentions = soft_mentions(try_body.blocks@, 0);
            let c_mentions = (match catch {
                Some(cb) => soft_mentions(cb.body.blocks@, 0),
                None => Seq::empty(),
            });
            let f_mentions = (match finally {
                Some(fin) => soft_mentions(fin.blocks@, 0),
                None => Seq::empty(),
            });
            if k < t_targets.len() {
                lemma_soft_targets_mentioned(try_body.blocks@, 0, t_next, k);
                lemma_contains_concat_left(t_mentions, c_mentions, v);
                lemma_contains_concat_left(t_mentions + c_mentions, f_mentions, v);
            } else if k < t_targets.len() + c_targets.len() {
                match catch {
                    Some(cb) => {
                        lemma_soft_targets_mentioned(
                            cb.body.blocks@,
                            0,
                            c_next,
                            k - t_targets.len(),
                        );
                        lemma_contains_concat_right(t_mentions, c_mentions, v);
                        lemma_contains_concat_left(t_mentions + c_mentions, f_mentions, v);
                    },
                    None => {},
                }
            } else {
                match finally {
                    Some(fin) => {
                        lemma_soft_targets_mentioned(
                            fin.blocks@,
                            0,
                            ft,
                            k - t_targets.len() - c_targets.len(),
                        );
                        lemma_contains_concat_right(t_mentions + c_mentions, f_mentions, v);
                    },
                    None => {},
                }
            }
        },
        CfgFlow::With { body } => {
            lemma_soft_targets_mentioned(body.blocks@, 0, ft, k);
        },
        CfgFlow::WaitForFrame { ready_target, loading_target, .. } => {
            if k == 0 {
                assert(flow_mentions(f)[0] == v);
            } else {
                assert(flow_mentions(f)[opt_to_seq(ready_target).len() as int] == v);
            }
        },
        CfgFlow::WaitForFrame2 { ready_target, loading_target } => {
            if k == 0 {
                assert(flow_mentions(f)[0] == v);
            } else {
                assert(flow_mentions(f)[opt_to_seq(ready_target).len() as int] == v);
            }
        },
        _ => {},
    }
}

proof fn lemma_soft_targets_mentioned(blocks: Seq<CfgBlock>, i: int, ft: Option<Seq<u8>>, k: int)
    requires
        0 <= i,
        0 <= k < soft_targets(blocks, i, ft).len(),
        soft_targets(blocks, i, ft)[k] is Some,
    ensures
        soft_mentions(blocks, i).contains(soft_targets(blocks, i, ft)[k]->0),
    decreases blocks, blocks.len() - i, 2int,
{
    let v = soft_targets(blocks, i, ft)[k]->0;
    let head = flow_targets(blocks[i].flow, ft_at(blocks, i, ft));
    if k < head.len() {
        lemma_flow_targets_mentioned(blocks[i].flow, ft_at(blocks, i, ft), k);
        lemma_contains_concat_left(flow_mentions(blocks[i].flow), soft_mentions(blocks, i + 1), v);
    } else {
        lemma_soft_targets_mentioned(blocks, i + 1, ft, k - head.len());
        lemma_contains_concat_right(flow_mentions(blocks[i].flow), soft_mentions(blocks, i + 1), v);
    }
}


/// Emits a function definition: the body is linearized into a buffer of its
/// own, fully resolved there, and appended after the header that carries
/// its byte size.
fn write_define_function(w: &mut PatchableBufWriter, df: &DefineFunction) -> (r: Result<
    (),
    EmitError,
>)
    requires
        hard_cfg_wf(df.body),
    ensures
        r is Ok ==> {
            &&& final(w).bytes().len() == old(w).bytes().len() + cfg_action_len(
                Action::DefineFunction(*df),
            )
            &&& is_prefix(old(w).bytes(), final(w).bytes())
            &&& final(w).holes() == old(w).holes()
            &&& final(w).bytes() == old(w).bytes() + cfg_action_stub(Action::DefineFunction(*df))
        },
        r is Err ==> !action_enc_ok(Action::DefineFunction(*df)),
    decreases *df, 0int, 0int,
{
    let mut body = PatchableBufWriter::new();
    match write_hard_cfg(&mut body, &df.body, false) {
        Ok(()) => {},
        Err(e) => {
            return Err(e);
        },
    }
    let body_len = body.len();
    if body_len > 0xFFFF {
        return Err(EmitError::BodyTooLong);
    }
    if df.parameters.len() > 0xFFFF {
        return Err(EmitError::CountTooLong);
    }
    let ghost base = w.bytes();
    let (hole, body_start) = begin_long(w, 0x9b);
    emit_c_string(w, &df.name);
    emit_le_u16(w, df.parameters.len() as u16);
    write_c_string_list(w, &df.parameters);
    emit_le_u16(w, body_len as u16);
    proof {
        assert(w.bytes().len() == base.len() + 3 + (df.name@.len() + 1) + 2
            + c_string_list_bytes(df.parameters@).len() + 2);
    }
    let ghost pre_end = w.bytes();
    match end_long(w, hole, body_start) {
        Ok(()) => {},
        Err(e) => {
            return Err(e);
        },
    }
    proof {
        assert(w.bytes().subrange(0, base.len() as int) =~= base);
    }
    let ghost hdr = c_string_bytes(df.name@) + le_u16_bytes(df.parameters@.len() as u16)
        + c_string_list_bytes(df.parameters@) + le_u16_bytes(hard_len(df.body, false) as u16);
    proof {
        assert(pre_end =~= base.push(0x9bu8) + seq![0u8, 0u8] + hdr);
        crate::actions::lemma_close_long(base, 0x9b, hdr, w.bytes());
    }
    let body_bytes = body.complete();
    w.write_all(body_bytes.as_slice());
    proof {
        assert(is_prefix(base, w.bytes())) by {
            assert(w.bytes().subrange(0, base.len() as int) =~= base);
        }
        assert(w.bytes() =~= base + cfg_action_stub(Action::DefineFunction(*df)));
    }
    Ok(())
}

/// Emits the richer function definition the same way.
fn write_define_function2(w: &mut PatchableBufWriter, df: &DefineFunction2) -> (r: Result<
    (),
    EmitError,
>)
    requires
        hard_cfg_wf(df.body),
    ensures
        r is Ok ==> {
            &&& final(w).bytes().len() == old(w).bytes().len() + cfg_action_len(
                Action::DefineFunction2(*df),
            )
            &&& is_prefix(old(w).bytes(), final(w).bytes())
            &&& final(w).holes() == old(w).holes()
            &&& final(w).bytes() == old(w).bytes() + cfg_action_stub(Action::DefineFunction2(*df))
        },
        r is Err ==> !action_enc_ok(Action::DefineFunction2(*df)),
    decreases *df, 0int, 0int,
{
    let mut body = PatchableBufWriter::new();
    match write_hard_cfg(&mut body, &df.body, false) {
        Ok(()) => {},
        Err(e) => {
            return Err(e);
        },
    }
    let body_len = body.len();
    if body_len > 0xFFFF {
        return Err(EmitError::BodyTooLong);
    }
    if df.parameters.len() > 0xFFFF {
        return Err(EmitError::CountTooLong);
    }
    let ghost base = w.bytes();
    let (hole, body_start) = begin_long(w, 0x8e);
    emit_c_string(w, &df.name);
    emit_le_u16(w, df.parameters.len() as u16);
    emit_u8(w, df.register_count);
    emit_le_u16(w, df.flags);
    write_raw_parameters(w, &df.parameters);
    emit_le_u16(w, body_len as u16);
    proof {
        assert(w.bytes().len() == base.len() + 3 + (df.name@.len() + 1) + 2 + 1 + 2
            + raw_parameters_bytes(df.parameters@).len() + 2);
    }
    let ghost pre_end = w.bytes();
    match end_long(w, hole, body_start) {
        Ok(()) => {},
        Err(e) => {
            return Err(e);
        },
    }
    proof {
        assert(w.bytes().subrange(0, base.len() as int) =~= base);
    }
    let ghost hdr = c_string_bytes(df.name@) + le_u16_bytes(df.parameters@.len() as u16)
        + seq![df.register_count] + le_u16_bytes(df.flags) + raw_parameters_bytes(df.parameters@)
        + le_u16_bytes(hard_len(df.body, false) as u16);
    proof {
        assert(pre_end =~= base.push(0x8eu8) + seq![0u8, 0u8] + hdr);
        crate::actions::lemma_close_long(base, 0x8e, hdr, w.bytes());
    }
    let body_bytes = body.complete();
    w.write_all(body_bytes.as_slice());
    proof {
        assert(is_prefix(base, w.bytes())) by {
            assert(w.bytes().subrange(0, base.len() as int) =~= base);
        }
        assert(w.bytes() =~= base + cfg_action_stub(Action::DefineFunction2(*df)));
    }
    Ok(())
}

/// Emits a `With` terminator: the opcode, a size hole, and the body
/// sub-graph inline; the hole is patched with the body's measured length.
fn write_with(w: &mut PatchableBufWriter, flow: &CfgFlow, ft: Option<&Vec<u8>>) -> (r: Result<
    WriteInfo,
    EmitError,
>)
    requires
        flow is With,
        flow_wf(*flow),
    ensures
        r is Ok ==> {
            &&& final(w).bytes().len() == old(w).bytes().len() + flow_len(
                *flow,
                label_ref_view(ft),
            )
            &&& is_prefix(old(w).bytes(), final(w).bytes())
            &&& final(w).holes() == old(w).holes() + r->Ok_0.jumps@.len()
            &&& label_views(r->Ok_0.blocks@) == flow_labels(*flow)
            &&& target_views(r->Ok_0.jumps@) == flow_targets(*flow, label_ref_view(ft))
            &&& records_ok(
                r->Ok_0.blocks@,
                r->Ok_0.jumps@,
                old(w).bytes().len() as int,
                final(w).bytes().len() as int,
            )
            &&& final(w).bytes() == old(w).bytes() + flow_stub(*flow, label_ref_view(ft))
            &&& label_offsets_view(r->Ok_0.blocks@) == flow_label_table(
                *flow,
                old(w).bytes().len() as int,
                label_ref_view(ft),
            )
            &&& slot_views(r->Ok_0.jumps@) == flow_jump_slots(
                *flow,
                old(w).bytes().len() as int,
                label_ref_view(ft),
            )
        },
        r is Err ==> !flow_enc_ok(*flow, label_ref_view(ft)),
    decreases *flow, 0int, 0int,
{
    match flow {
        CfgFlow::With { body } => {
            let ghost base = w.bytes();
            write_action_header(w, 0x94, 2);
            let with_size_hole = w.write_hole_le_u16();
            let ghost hpos = with_size_hole.pos();
            let body_start = w.len();
            let ghost header_end = w.bytes();
            proof {
                assert(is_prefix(base, header_end)) by {
                    assert(header_end.subrange(0, base.len() as int) =~= base);
                }
            }
            let wi = match write_soft_cfg(w, body, ft) {
                Ok(wi) => wi,
                Err(e) => {
                    return Err(e);
                },
            };
            let body_end = w.len();
            if body_end - body_start > 0xFFFF {
                return Err(EmitError::BodyTooLong);
            }
            let ghost pre_patch = w.bytes();
            with_size_hole.patch(w, (body_end - body_start) as u16);
            proof {
                lemma_prefix_trans(base, header_end, pre_patch);
                lemma_patched2_prefix(pre_patch, hpos, (body_end - body_start) as u16, base);
                let bstub = soft_stub(body.blocks@, 0, label_ref_view(ft));
                assert(pre_patch =~= (base + seq![0x94u8, 0x02u8, 0x00u8]) + seq![0u8, 0u8]
                    + bstub);
                lemma_patch_zero_slot(
                    pre_patch,
                    base + seq![0x94u8, 0x02u8, 0x00u8],
                    bstub,
                    (body_end - body_start) as u16,
                );
                assert(w.bytes() =~= base + flow_stub(*flow, label_ref_view(ft)));
                lemma_records_widen(
                    wi.blocks@,
                    wi.jumps@,
                    body_start as int,
                    body_end as int,
                    base.len() as int,
                    w.bytes().len() as int,
                );
            }
            Ok(wi)
        },
        _ => {
            // The caller matched the variant; this arm is provably dead.
            proof {
                assert(false);
            }
            Err(EmitError::BodyTooLong)
        },
    }
}

proof fn lemma_try_bytes_chain(
    hdr: Seq<u8>,
    tb: Seq<u8>,
    tstub: Seq<u8>,
    cstub: Seq<u8>,
    fstub: Seq<u8>,
    tv: u16,
    cv: u16,
    fv: u16,
    before_try: Seq<u8>,
    pre2: Seq<u8>,
    before_catch: Seq<u8>,
    pre3: Seq<u8>,
    before_fin: Seq<u8>,
    pre4: Seq<u8>,
    fin_bytes: Seq<u8>,
)
    requires
        before_try == hdr + seq![0u8, 0u8] + seq![0u8, 0u8] + seq![0u8, 0u8] + tb,
        pre2 == before_try + tstub,
        before_catch == patched2(pre2, hdr.len() as int, tv),
        pre3 == before_catch + cstub,
        before_fin == patched2(pre3, hdr.len() as int + 2, cv),
        pre4 == before_fin + fstub,
        fin_bytes == patched2(pre4, hdr.len() as int + 4, fv),
    ensures
        fin_bytes == hdr + le_u16_bytes(tv) + le_u16_bytes(cv) + le_u16_bytes(fv) + tb + tstub
            + cstub + fstub,
{
    let z2 = seq![0u8, 0u8];
    assert(pre2 =~= hdr + z2 + (z2 + z2 + tb + tstub));
    lemma_patch_zero_slot(pre2, hdr, z2 + z2 + tb + tstub, tv);
    let p_catch = hdr + le_u16_bytes(tv);
    assert(pre3 =~= p_catch + z2 + (z2 + tb + tstub + cstub));
    lemma_patch_zero_slot(pre3, p_catch, z2 + tb + tstub + cstub, cv);
    let p_fin = p_catch + le_u16_bytes(cv);
    assert(pre4 =~= p_fin + z2 + (tb + tstub + cstub + fstub));
    lemma_patch_zero_slot(pre4, p_fin, tb + tstub + cstub + fstub, fv);
    assert(fin_bytes =~= hdr + le_u16_bytes(tv) + le_u16_bytes(cv) + le_u16_bytes(fv) + tb + tstub
        + cstub + fstub);
}

/// Emits the opening of a `Try` terminator: the opcode, the header-size
/// field patched from the measured header, the flag byte, the three
/// zeroed section-size fields, and the catch target.
fn write_try_header(
    w: &mut PatchableBufWriter,
    catch: &Option<CatchBlock>,
    finally: &Option<Cfg>,
) -> (r: Result<(BufferHole, BufferHole, BufferHole), EmitError>)
    ensures
        r is Ok ==> {
            &&& final(w).bytes() == old(w).bytes() + seq![0x8fu8] + le_u16_bytes(
                (7 + catch_target_len(*catch)) as u16,
            ) + seq![try_flags(*catch, *finally)] + seq![0u8, 0u8] + seq![0u8, 0u8]
                + seq![0u8, 0u8] + catch_target_bytes(*catch)
            &&& final(w).bytes().len() == old(w).bytes().len() + 10 + catch_target_len(*catch)
            &&& final(w).holes() == old(w).holes() + 3
            &&& r->Ok_0.0.pos() == old(w).bytes().len() + 4
            &&& r->Ok_0.1.pos() == old(w).bytes().len() + 6
            &&& r->Ok_0.2.pos() == old(w).bytes().len() + 8
        },
        r is Err ==> 7 + catch_target_len(*catch) > 0xFFFF,
{
    let ghost base = w.bytes();
    emit_u8(w, 0x8f);
    let action_size_hole = w.write_hole_le_u16();
    let action_start = w.len();
    let in_register: bool = match catch {
        Some(cb) => match &cb.target {
            CatchTarget::Register(_) => true,
            CatchTarget::Variable(_) => false,
        },
        None => false,
    };
    let flags: u8 = (if catch.is_some() { 1 } else { 0 }) + (if finally.is_some() {
        2
    } else {
        0
    }) + (if in_register { 4 } else { 0 });
    emit_u8(w, flags);
    let try_size_hole = w.write_hole_le_u16();
    let catch_size_hole = w.write_hole_le_u16();
    let finally_size_hole = w.write_hole_le_u16();
    match catch {
        Some(cb) => match &cb.target {
            CatchTarget::Register(ct) => emit_u8(w, *ct),
            CatchTarget::Variable(ct) => emit_c_string(w, ct),
        },
        None => emit_u8(w, 0),
    }
    let action_end = w.len();
    proof {
        assert(action_end - action_start == 7 + catch_target_len(*catch));
    }
    if action_end - action_start > 0xFFFF {
        return Err(EmitError::BodyTooLong);
    }
    let ghost pre1 = w.bytes();
    action_size_hole.patch(w, (action_end - action_start) as u16);
    proof {
        let z2 = seq![0u8, 0u8];
        let fb = seq![try_flags(*catch, *finally)];
        let tb = catch_target_bytes(*catch);
        assert(pre1 =~= (base + seq![0x8fu8]) + z2 + (fb + z2 + z2 + z2 + tb));
        lemma_patch_zero_slot(
            pre1,
            base + seq![0x8fu8],
            fb + z2 + z2 + z2 + tb,
            (action_end - action_start) as u16,
        );
        assert(w.bytes() =~= base + seq![0x8fu8] + le_u16_bytes(
            (7 + catch_target_len(*catch)) as u16,
        ) + fb + z2 + z2 + z2 + tb);
    }
    Ok((try_size_hole, catch_size_hole, finally_size_hole))
}

/// Emits a `Try` terminator: the header, then the try, catch and finally
/// sub-graphs inline, each with the fall-through rule of nested scopes;
/// the section-size fields are patched from the measured extents.
#[verifier::rlimit(100)]
fn write_try(w: &mut PatchableBufWriter, flow: &CfgFlow, ft: Option<&Vec<u8>>) -> (r: Result<
    WriteInfo,
    EmitError,
>)
    requires
        flow is Try,
        flow_wf(*flow),
    ensures
        r is Ok ==> {
            &&& final(w).bytes().len() == old(w).bytes().len() + flow_len(
                *flow,
                label_ref_view(ft),
            )
            &&& is_prefix(old(w).bytes(), final(w).bytes())
            &&& final(w).holes() == old(w).holes() + r->Ok_0.jumps@.len()
            &&& label_views(r->Ok_0.blocks@) == flow_labels(*flow)
            &&& target_views(r->Ok_0.jumps@) == flow_targets(*flow, label_ref_view(ft))
            &&& records_ok(
                r->Ok_0.blocks@,
                r->Ok_0.jumps@,
                old(w).bytes().len() as int,
                final(w).bytes().len() as int,
            )
            &&& final(w).bytes() == old(w).bytes() + flow_stub(*flow, label_ref_view(ft))
            &&& label_offsets_view(r->Ok_0.blocks@) == flow_label_table(
                *flow,
                old(w).bytes().len() as int,
                label_ref_view(ft),
            )
            &&& slot_views(r->Ok_0.jumps@) == flow_jump_slots(
                *flow,
                old(w).bytes().len() as int,
                label_ref_view(ft),
            )
        },
        r is Err ==> !flow_enc_ok(*flow, label_ref_view(ft)),
    decreases *flow, 0int, 0int,
{
    match flow {
        CfgFlow::Try { try_body, catch, finally } => {
            let ghost base = w.bytes();
            let ghost ftv = label_ref_view(ft);
            let (try_size_hole, catch_size_hole, finally_size_hole) = match write_try_header(
                w,
                catch,
                finally,
            ) {
                Ok(holes) => holes,
                Err(e) => {
                    return Err(e);
                },
            };
            let ghost try_hpos = try_size_hole.pos();
            let ghost catch_hpos = catch_size_hole.pos();
            let ghost finally_hpos = finally_size_hole.pos();
            let ghost hdr = base + seq![0x8fu8] + le_u16_bytes(
                (7 + catch_target_len(*catch)) as u16,
            ) + seq![try_flags(*catch, *finally)];
            let action_end = w.len();
            let finally_next: Option<&Vec<u8>> = ft;
            let catch_next_l: Option<&Vec<u8>> = match finally {
                Some(fin) => Some(&fin.blocks[0].label),
                None => ft,
            };
            let try_next_l: Option<&Vec<u8>> = match catch {
                Some(cb) => Some(&cb.body.blocks[0].label),
                None => catch_next_l,
            };
            proof {
                assert(label_ref_view(try_next_l) == try_next(*catch, *finally, ftv));
                assert(label_ref_view(catch_next_l) == catch_next(*finally, ftv));
            }
            let ghost before_try = w.bytes();
            let mut res = match write_soft_cfg(w, try_body, try_next_l) {
                Ok(wi) => wi,
                Err(e) => {
                    return Err(e);
                },
            };
            let try_end = w.len();
            if try_end - action_end > 0xFFFF {
                return Err(EmitError::BodyTooLong);
            }
            let ghost pre2 = w.bytes();
            try_size_hole.patch(w, (try_end - action_end) as u16);
            let ghost before_catch = w.bytes();
            match catch {
                Some(cb) => {
                    let catch_wi = match write_soft_cfg(w, &cb.body, catch_next_l) {
                        Ok(wi) => wi,
                        Err(e) => {
                            return Err(e);
                        },
                    };
                    proof {
                        lemma_label_views_concat(res.blocks@, catch_wi.blocks@);
                        lemma_target_views_concat(res.jumps@, catch_wi.jumps@);
                        lemma_label_offsets_view_concat(res.blocks@, catch_wi.blocks@);
                        lemma_slot_views_concat(res.jumps@, catch_wi.jumps@);
                        lemma_records_join(
                            res.blocks@,
                            res.jumps@,
                            catch_wi.blocks@,
                            catch_wi.jumps@,
                            action_end as int,
                            try_end as int,
                            w.bytes().len() as int,
                        );
                    }
                    res.extend(catch_wi);
                },
                None => {},
            }
            let catch_end = w.len();
            if catch_end - try_end > 0xFFFF {
                return Err(EmitError::BodyTooLong);
            }
            let ghost pre3 = w.bytes();
            catch_size_hole.patch(w, (catch_end - try_end) as u16);
            let ghost before_fin = w.bytes();
            match finally {
                Some(fin) => {
                    let fin_wi = match write_soft_cfg(w, fin, finally_next) {
                        Ok(wi) => wi,
                        Err(e) => {
                            return Err(e);
                        },
                    };
                    proof {
                        lemma_label_views_concat(res.blocks@, fin_wi.blocks@);
                        lemma_target_views_concat(res.jumps@, fin_wi.jumps@);
                        lemma_label_offsets_view_concat(res.blocks@, fin_wi.blocks@);
                        lemma_slot_views_concat(res.jumps@, fin_wi.jumps@);
                        lemma_records_join(
                            res.blocks@,
                            res.jumps@,
                            fin_wi.blocks@,
                            fin_wi.jumps@,
                            action_end as int,
                            catch_end as int,
                            w.bytes().len() as int,
                        );
                    }
                    res.extend(fin_wi);
                },
                None => {},
            }
            let finally_end = w.len();
            if finally_end - catch_end > 0xFFFF {
                return Err(EmitError::BodyTooLong);
            }
            let ghost pre4 = w.bytes();
            finally_size_hole.patch(w, (finally_end - catch_end) as u16);
            proof {
                let tv = (try_end - action_end) as u16;
                let cv = (catch_end - try_end) as u16;
                let fv = (finally_end - catch_end) as u16;
                let lo = base.len() as int;
                assert(try_hpos == lo + 4 && catch_hpos == lo + 6 && finally_hpos == lo + 8);
                assert(hdr.len() == lo + 4);
                let tb = catch_target_bytes(*catch);
                let tstub = soft_stub(try_body.blocks@, 0, try_next(*catch, *finally, ftv));
                let cstub = (match catch {
                    Some(cb) => soft_stub(cb.body.blocks@, 0, catch_next(*finally, ftv)),
                    None => Seq::<u8>::empty(),
                });
                let fstub = (match finally {
                    Some(fin) => soft_stub(fin.blocks@, 0, ftv),
                    None => Seq::<u8>::empty(),
                });
                assert(before_try =~= hdr + seq![0u8, 0u8] + seq![0u8, 0u8] + seq![0u8, 0u8]
                    + tb);
                lemma_try_bytes_chain(
                    hdr,
                    tb,
                    tstub,
                    cstub,
                    fstub,
                    tv,
                    cv,
                    fv,
                    before_try,
                    pre2,
                    before_catch,
                    pre3,
                    before_fin,
                    pre4,
                    w.bytes(),
                );
                assert(w.bytes() =~= base + flow_stub(*flow, ftv));
                assert(is_prefix(base, w.bytes())) by {
                    assert(w.bytes().subrange(0, base.len() as int) =~= base);
                }
                assert(action_end == lo + 10 + catch_target_len(*catch));
                assert(label_offsets_view(res.blocks@) =~= flow_label_table(*flow, lo, ftv));
                assert(slot_views(res.jumps@) =~= flow_jump_slots(*flow, lo, ftv));
                assert(label_views(res.blocks@) =~= flow_labels(*flow));
                assert(target_views(res.jumps@) =~= flow_targets(*flow, ftv));
                lemma_records_widen(
                    res.blocks@,
                    res.jumps@,
                    action_end as int,
                    finally_end as int,
                    base.len() as int,
                    w.bytes().len() as int,
                );
            }
            Ok(res)
        },
        _ => {
            // The caller matched the variant; this arm is provably dead.
            proof {
                assert(false);
            }
            Err(EmitError::BodyTooLong)
        },
    }
}


/// A branch as resolved in the final bytes: its offset field holds the
/// signed 16-bit distance from the byte right after the field to the
/// target's recorded offset, or to the end sentinel for a `None` target.
pub open spec fn jump_resolved(
    b: Seq<u8>,
    labels: Seq<(Seq<u8>, int)>,
    end: int,
    off: int,
    target: Option<Seq<u8>>,
) -> bool {
    match (match target {
        Some(l) => assoc_lookup(labels, l),
        None => Some(end),
    }) {
        Some(t) => {
            &&& 0 <= off
            &&& off + 2 <= b.len()
            &&& 0 <= t <= b.len()
            &&& -32768 <= t - (off + 2) <= 32767
            &&& b.subrange(off, off + 2) == le_u16_bytes(((t - (off + 2)) as i16) as u16)
        },
        None => false,
    }
}

/// How an emitted scope relates to its bytes, through one label table and
/// one branch list: the labels are the scope's labels in emission order,
/// each recorded at an offset inside the bytes; the branches are exactly
/// those the scope's terminators call for, and each one's offset field
/// holds the distance to its target's recorded offset — every branch lands
/// on a recorded block start or on the end sentinel.
pub open spec fn emitted_scope_with(
    c: Cfg,
    b: Seq<u8>,
    append_end: bool,
    labels: Seq<(Seq<u8>, int)>,
    jumps: Seq<(int, Option<Seq<u8>>)>,
) -> bool {
    let end = if append_end {
        b.len() - 1
    } else {
        b.len() as int
    };
    &&& labels.map_values(|p: (Seq<u8>, int)| p.0) == soft_labels(c.blocks@, 0)
    &&& labels.len() >= 1 && labels[0].1 == 0
    &&& (forall|k: int| 0 <= k < labels.len() ==> 0 <= (#[trigger] labels[k]).1 <= b.len())
    &&& jumps.map_values(|p: (int, Option<Seq<u8>>)| p.1) == soft_targets(c.blocks@, 0, None)
    &&& (append_end ==> b.len() >= 1 && b[b.len() - 1] == 0)
    &&& (forall|k: int|
        0 <= k < jumps.len() ==> jump_resolved(b, labels, end, (#[trigger] jumps[k]).0, jumps[k].1))
}

/// There is a label table and a branch list under which the bytes are the
/// scope as emitted and every branch is resolved.
pub open spec fn emitted_scope(c: Cfg, b: Seq<u8>, append_end: bool) -> bool {
    exists|labels: Seq<(Seq<u8>, int)>, jumps: Seq<(int, Option<Seq<u8>>)>|
        emitted_scope_with(c, b, append_end, labels, jumps)
}

/// Emits one block: records its starting offset, emits its actions, then
/// its terminator, recording every branch stub for later resolution.
#[verifier::rlimit(100)]
fn write_block(w: &mut PatchableBufWriter, b: &CfgBlock, ft: Option<&Vec<u8>>) -> (r: Result<
    WriteInfo,
    EmitError,
>)
    requires
        block_wf(*b),
    ensures
        r is Ok ==> {
            &&& final(w).bytes().len() == old(w).bytes().len() + block_len(*b, label_ref_view(ft))
            &&& is_prefix(old(w).bytes(), final(w).bytes())
            &&& final(w).holes() == old(w).holes() + r->Ok_0.jumps@.len()
            &&& label_views(r->Ok_0.blocks@) == block_labels(*b)
            &&& r->Ok_0.blocks@.len() >= 1
            &&& r->Ok_0.blocks@[0].offset == old(w).bytes().len()
            &&& target_views(r->Ok_0.jumps@) == flow_targets(b.flow, label_ref_view(ft))
            &&& records_ok(
                r->Ok_0.blocks@,
                r->Ok_0.jumps@,
                old(w).bytes().len() as int,
                final(w).bytes().len() as int,
            )
            &&& final(w).bytes() == old(w).bytes() + block_stub(*b, label_ref_view(ft))
            &&& label_offsets_view(r->Ok_0.blocks@) == block_label_table(
                *b,
                old(w).bytes().len() as int,
                label_ref_view(ft),
            )
            &&& slot_views(r->Ok_0.jumps@) == block_jump_slots(
                *b,
                old(w).bytes().len() as int,
                label_ref_view(ft),
            )
        },
        r is Err ==> !block_enc_ok(*b, label_ref_view(ft)),
    decreases *b, 0int, 0int,
{
    let ghost ftv = label_ref_view(ft);
    let mut res = WriteInfo::new();
    let start = w.len();
    res.blocks.push(LabelOffset { label: clone_bytes(&b.label), offset: start });
    proof {
        lemma_prefix_refl(w.bytes());
    }
    let mut j: usize = 0;
    while j < b.actions.len()
        invariant
            j <= b.actions@.len(),
            actions_wf(b.actions@, 0),
            start == old(w).bytes().len(),
            w.bytes().len() + actions_len(b.actions@, j as int) == start + actions_len(
                b.actions@,
                0,
            ),
            w.bytes() + actions_stub(b.actions@, j as int) == old(w).bytes() + actions_stub(
                b.actions@,
                0,
            ),
            is_prefix(old(w).bytes(), w.bytes()),
            w.holes() == old(w).holes(),
        decreases b.actions@.len() - j,
    {
        proof {
            lemma_actions_wf_at(b.actions@, 0, j as int);
            assert(decreases_to!(*b => b.actions));
            assert(decreases_to!(b.actions => b.actions@));
            assert(decreases_to!(b.actions@ => b.actions@[j as int]));
        }
        let ghost pre = w.bytes();
        match &b.actions[j] {
            Action::Raw(ra) => {
                match write_raw_action(w, ra) {
                    Ok(()) => {
                        proof {
                            assert(is_prefix(pre, w.bytes())) by {
                                assert(w.bytes().subrange(0, pre.len() as int) =~= pre);
                            }
                        }
                    },
                    Err(e) => {
                        proof {
                            if actions_enc_ok(b.actions@, 0) {
                                lemma_actions_enc_ok_at(b.actions@, 0, j as int);
                            }
                        }
                        return Err(e);
                    },
                }
            },
            Action::DefineFunction(df) => {
                match write_define_function(w, df) {
                    Ok(()) => {},
                    Err(e) => {
                        proof {
                            if actions_enc_ok(b.actions@, 0) {
                                lemma_actions_enc_ok_at(b.actions@, 0, j as int);
                            }
                        }
                        return Err(e);
                    },
                }
            },
            Action::DefineFunction2(df) => {
                match write_define_function2(w, df) {
                    Ok(()) => {},
                    Err(e) => {
                        proof {
                            if actions_enc_ok(b.actions@, 0) {
                                lemma_actions_enc_ok_at(b.actions@, 0, j as int);
                            }
                        }
                        return Err(e);
                    },
                }
            },
        }
        proof {
            assert(w.bytes().len() == pre.len() + cfg_action_len(b.actions@[j as int]));
            assert(w.bytes() =~= pre + cfg_action_stub(b.actions@[j as int]));
            assert((pre + cfg_action_stub(b.actions@[j as int])) + actions_stub(
                b.actions@,
                j + 1,
            ) =~= pre + actions_stub(b.actions@, j as int));
            lemma_prefix_trans(old(w).bytes(), pre, w.bytes());
        }
        j = j + 1;
    }
    let ghost flow_start = w.bytes();
    proof {
        assert(w.bytes().len() == start + actions_len(b.actions@, 0));
        assert(flow_start + actions_stub(b.actions@, b.actions@.len() as int) =~= flow_start);
        assert(flow_start =~= old(w).bytes() + actions_stub(b.actions@, 0));
    }
    match &b.flow {
        CfgFlow::Error => {
            write_error(w);
        },
        CfgFlow::Return => {
            write_short(w, 0x3e);
        },
        CfgFlow::Throw => {
            write_short(w, 0x2a);
        },
        CfgFlow::Simple { next } => {
            if !opt_label_eq(next.as_ref(), ft) {
                match next {
                    Some(l) => {
                        let (off, hole) = write_jump(w);
                        res.jumps.push(
                            JumpRecord { offset: off, hole, target: Some(clone_bytes(l)) },
                        );
                    },
                    None => {
                        write_short(w, 0x00);
                    },
                }
            }
        },
        CfgFlow::If { true_target, false_target } => {
            let (off, hole) = write_if(w);
            let tt: Option<Vec<u8>> = match true_target {
                Some(l) => Some(clone_bytes(l)),
                None => None,
            };
            res.jumps.push(JumpRecord { offset: off, hole, target: tt });
            if !opt_label_eq(false_target.as_ref(), ft) {
                match false_target {
                    Some(l) => {
                        let (off2, hole2) = write_jump(w);
                        res.jumps.push(
                            JumpRecord { offset: off2, hole: hole2, target: Some(clone_bytes(l)) },
                        );
                    },
                    None => {
                        write_short(w, 0x00);
                    },
                }
            }
        },
        CfgFlow::WaitForFrame { frame, ready_target, loading_target } => {
            match write_raw_action(w, &(RawAction::WaitForFrame { frame: *frame, skip: 1 })) {
                Ok(()) => {},
                Err(_) => {
                    proof {
                        assert(false);
                    }
                },
            }
            let (off, hole) = write_jump(w);
            let rt: Option<Vec<u8>> = match ready_target {
                Some(l) => Some(clone_bytes(l)),
                None => None,
            };
            res.jumps.push(JumpRecord { offset: off, hole, target: rt });
            let (off2, hole2) = write_jump(w);
            let lt: Option<Vec<u8>> = match loading_target {
                Some(l) => Some(clone_bytes(l)),
                None => None,
            };
            res.jumps.push(JumpRecord { offset: off2, hole: hole2, target: lt });
        },
        CfgFlow::WaitForFrame2 { ready_target, loading_target } => {
            match write_raw_action(w, &(RawAction::WaitForFrame2 { skip: 1 })) {
                Ok(()) => {},
                Err(_) => {
                    proof {
                        assert(false);
                    }
                },
            }
            let (off, hole) = write_jump(w);
            let rt: Option<Vec<u8>> = match ready_target {
                Some(l) => Some(clone_bytes(l)),
                None => None,
            };
            res.jumps.push(JumpRecord { offset: off, hole, target: rt });
            let (off2, hole2) = write_jump(w);
            let lt: Option<Vec<u8>> = match loading_target {
                Some(l) => Some(clone_bytes(l)),
                None => None,
            };
            res.jumps.push(JumpRecord { offset: off2, hole: hole2, target: lt });
        },
        CfgFlow::Try { .. } => {
            let sub = match write_try(w, &b.flow, ft) {
                Ok(sub) => sub,
                Err(e) => {
                    return Err(e);
                },
            };
            proof {
                lemma_label_views_concat(res.blocks@, sub.blocks@);
                lemma_target_views_concat(res.jumps@, sub.jumps@);
                lemma_label_offsets_view_concat(res.blocks@, sub.blocks@);
                lemma_slot_views_concat(res.jumps@, sub.jumps@);
                lemma_records_join(
                    res.blocks@,
                    res.jumps@,
                    sub.blocks@,
                    sub.jumps@,
                    start as int,
                    flow_start.len() as int,
                    w.bytes().len() as int,
                );
            }
            res.extend(sub);
        },
        CfgFlow::With { .. } => {
            let sub = match write_with(w, &b.flow, ft) {
                Ok(sub) => sub,
                Err(e) => {
                    return Err(e);
                },
            };
            proof {
                lemma_label_views_concat(res.blocks@, sub.blocks@);
                lemma_target_views_concat(res.jumps@, sub.jumps@);
                lemma_label_offsets_view_concat(res.blocks@, sub.blocks@);
                lemma_slot_views_concat(res.jumps@, sub.jumps@);
                lemma_records_join(
                    res.blocks@,
                    res.jumps@,
                    sub.blocks@,
                    sub.jumps@,
                    start as int,
                    flow_start.len() as int,
                    w.bytes().len() as int,
                );
            }
            res.extend(sub);
        },
    }
    proof {
        assert(is_prefix(flow_start, w.bytes())) by {
            assert(w.bytes().subrange(0, flow_start.len() as int) =~= flow_start);
        }
        lemma_prefix_trans(old(w).bytes(), flow_start, w.bytes());
        assert(label_views(res.blocks@) =~= block_labels(*b));
        assert(target_views(res.jumps@) =~= flow_targets(b.flow, ftv));
        assert(w.bytes() =~= flow_start + flow_stub(b.flow, ftv));
        assert(w.bytes() =~= old(w).bytes() + block_stub(*b, ftv));
        assert(label_offsets_view(res.blocks@) =~= block_label_table(*b, start as int, ftv));
        assert(slot_views(res.jumps@) =~= block_jump_slots(*b, start as int, ftv));
    }
    Ok(res)
}

/// Emits the blocks of a sub-graph in order, each falling through to the
/// textually following block, the last to the outer fall-through label.
fn write_soft_cfg(w: &mut PatchableBufWriter, cfg: &Cfg, ft: Option<&Vec<u8>>) -> (r: Result<
    WriteInfo,
    EmitError,
>)
    requires
        soft_wf(cfg.blocks@, 0),
    ensures
        r is Ok ==> {
            &&& final(w).bytes().len() == old(w).bytes().len() + soft_len(
                cfg.blocks@,
                0,
                label_ref_view(ft),
            )
            &&& is_prefix(old(w).bytes(), final(w).bytes())
            &&& final(w).holes() == old(w).holes() + r->Ok_0.jumps@.len()
            &&& label_views(r->Ok_0.blocks@) == soft_labels(cfg.blocks@, 0)
            &&& cfg.blocks@.len() >= 1 ==> r->Ok_0.blocks@.len() >= 1
                && r->Ok_0.blocks@[0].offset == old(w).bytes().len()
            &&& target_views(r->Ok_0.jumps@) == soft_targets(cfg.blocks@, 0, label_ref_view(ft))
            &&& records_ok(
                r->Ok_0.blocks@,
                r->Ok_0.jumps@,
                old(w).bytes().len() as int,
                final(w).bytes().len() as int,
            )
            &&& final(w).bytes() == old(w).bytes() + soft_stub(cfg.blocks@, 0, label_ref_view(ft))
            &&& label_offsets_view(r->Ok_0.blocks@) == soft_label_table(
                cfg.blocks@,
                0,
                old(w).bytes().len() as int,
                label_ref_view(ft),
            )
            &&& slot_views(r->Ok_0.jumps@) == soft_jump_slots(
                cfg.blocks@,
                0,
                old(w).bytes().len() as int,
                label_ref_view(ft),
            )
        },
        r is Err ==> !soft_enc_ok(cfg.blocks@, 0, label_ref_view(ft)),
    decreases *cfg, 1int, 0int,
{
    let ghost ftv = label_ref_view(ft);
    let mut res = WriteInfo::new();
    proof {
        assert(label_views(res.blocks@) =~= Seq::<Seq<u8>>::empty());
        assert(target_views(res.jumps@) =~= Seq::<Option<Seq<u8>>>::empty());
        assert(label_offsets_view(res.blocks@) =~= Seq::<(Seq<u8>, int)>::empty());
        assert(slot_views(res.jumps@) =~= Seq::<(int, Option<Seq<u8>>)>::empty());
        assert(Seq::<Seq<u8>>::empty() + soft_labels(cfg.blocks@, 0) =~= soft_labels(
            cfg.blocks@,
            0,
        ));
        assert(Seq::<Option<Seq<u8>>>::empty() + soft_targets(cfg.blocks@, 0, ftv) =~= soft_targets(
            cfg.blocks@,
            0,
            ftv,
        ));
        assert(Seq::<(Seq<u8>, int)>::empty() + soft_label_table(
            cfg.blocks@,
            0,
            old(w).bytes().len() as int,
            ftv,
        ) =~= soft_label_table(cfg.blocks@, 0, old(w).bytes().len() as int, ftv));
        assert(Seq::<(int, Option<Seq<u8>>)>::empty() + soft_jump_slots(
            cfg.blocks@,
            0,
            old(w).bytes().len() as int,
            ftv,
        ) =~= soft_jump_slots(cfg.blocks@, 0, old(w).bytes().len() as int, ftv));
    }
    proof {
        lemma_prefix_refl(w.bytes());
    }
    let mut i: usize = 0;
    while i < cfg.blocks.len()
        invariant
            i <= cfg.blocks@.len(),
            soft_wf(cfg.blocks@, 0),
            ftv == label_ref_view(ft),
            w.bytes().len() + soft_len(cfg.blocks@, i as int, ftv) == old(w).bytes().len()
                + soft_len(cfg.blocks@, 0, ftv),
            is_prefix(old(w).bytes(), w.bytes()),
            w.holes() == old(w).holes() + res.jumps@.len(),
            label_views(res.blocks@) + soft_labels(cfg.blocks@, i as int) == soft_labels(
                cfg.blocks@,
                0,
            ),
            i > 0 ==> res.blocks@.len() >= 1 && res.blocks@[0].offset == old(w).bytes().len(),
            target_views(res.jumps@) + soft_targets(cfg.blocks@, i as int, ftv) == soft_targets(
                cfg.blocks@,
                0,
                ftv,
            ),
            records_ok(
                res.blocks@,
                res.jumps@,
                old(w).bytes().len() as int,
                w.bytes().len() as int,
            ),
            w.bytes() + soft_stub(cfg.blocks@, i as int, ftv) == old(w).bytes() + soft_stub(
                cfg.blocks@,
                0,
                ftv,
            ),
            label_offsets_view(res.blocks@) + soft_label_table(
                cfg.blocks@,
                i as int,
                w.bytes().len() as int,
                ftv,
            ) == soft_label_table(cfg.blocks@, 0, old(w).bytes().len() as int, ftv),
            slot_views(res.jumps@) + soft_jump_slots(
                cfg.blocks@,
                i as int,
                w.bytes().len() as int,
                ftv,
            ) == soft_jump_slots(cfg.blocks@, 0, old(w).bytes().len() as int, ftv),
        decreases cfg.blocks@.len() - i,
    {
        let cur_next: Option<&Vec<u8>> = if i + 1 < cfg.blocks.len() {
            Some(&cfg.blocks[i + 1].label)
        } else {
            ft
        };
        proof {
            assert(label_ref_view(cur_next) == ft_at(cfg.blocks@, i as int, ftv));
            lemma_soft_wf_at(cfg.blocks@, 0, i as int);
            assert(decreases_to!(*cfg => cfg.blocks));
            assert(decreases_to!(cfg.blocks => cfg.blocks@));
            assert(decreases_to!(cfg.blocks@ => cfg.blocks@[i as int]));
        }
        let ghost pre = w.bytes();
        let ghost res_blocks = res.blocks@;
        let ghost res_jumps = res.jumps@;
        match write_block(w, &cfg.blocks[i], cur_next) {
            Ok(sub) => {
                proof {
                    lemma_label_views_concat(res_blocks, sub.blocks@);
                    lemma_target_views_concat(res_jumps, sub.jumps@);
                    lemma_records_join(
                        res_blocks,
                        res_jumps,
                        sub.blocks@,
                        sub.jumps@,
                        old(w).bytes().len() as int,
                        pre.len() as int,
                        w.bytes().len() as int,
                    );
                    lemma_prefix_trans(old(w).bytes(), pre, w.bytes());
                    assert((label_views(res_blocks) + block_labels(cfg.blocks@[i as int]))
                        + soft_labels(cfg.blocks@, i + 1) =~= label_views(res_blocks) + (
                    block_labels(cfg.blocks@[i as int]) + soft_labels(cfg.blocks@, i + 1)));
                    assert((target_views(res_jumps) + flow_targets(
                        cfg.blocks@[i as int].flow,
                        ft_at(cfg.blocks@, i as int, ftv),
                    )) + soft_targets(cfg.blocks@, i + 1, ftv) =~= target_views(res_jumps) + (
                    flow_targets(cfg.blocks@[i as int].flow, ft_at(cfg.blocks@, i as int, ftv))
                        + soft_targets(cfg.blocks@, i + 1, ftv)));
                    lemma_label_offsets_view_concat(res_blocks, sub.blocks@);
                    lemma_slot_views_concat(res_jumps, sub.jumps@);
                    let ftc = ft_at(cfg.blocks@, i as int, ftv);
                    let bl = cfg.blocks@[i as int];
                    assert((pre + block_stub(bl, ftc)) + soft_stub(cfg.blocks@, i + 1, ftv) =~= pre
                        + soft_stub(cfg.blocks@, i as int, ftv));
                    assert(w.bytes().len() == pre.len() + block_len(bl, ftc));
                    assert((label_offsets_view(res_blocks) + block_label_table(
                        bl,
                        pre.len() as int,
                        ftc,
                    )) + soft_label_table(cfg.blocks@, i + 1, w.bytes().len() as int, ftv)
                        =~= label_offsets_view(res_blocks) + (block_label_table(
                        bl,
                        pre.len() as int,
                        ftc,
                    ) + soft_label_table(cfg.blocks@, i + 1, w.bytes().len() as int, ftv)));
                    assert((slot_views(res_jumps) + block_jump_slots(bl, pre.len() as int, ftc))
                        + soft_jump_slots(cfg.blocks@, i + 1, w.bytes().len() as int, ftv)
                        =~= slot_views(res_jumps) + (block_jump_slots(bl, pre.len() as int, ftc)
                        + soft_jump_slots(cfg.blocks@, i + 1, w.bytes().len() as int, ftv)));
                }
                res.extend(sub);
            },
            Err(e) => {
                proof {
                    if soft_enc_ok(cfg.blocks@, 0, ftv) {
                        lemma_soft_enc_ok_at(cfg.blocks@, 0, i as int, ftv);
                    }
                }
                return Err(e);
            },
        }
        i = i + 1;
    }
    Ok(res)
}


proof fn lemma_label_offsets_keys(blocks: Seq<LabelOffset>)
    ensures
        label_offsets_view(blocks).map_values(|p: (Seq<u8>, int)| p.0) == label_views(blocks),
{
    assert(label_offsets_view(blocks).map_values(|p: (Seq<u8>, int)| p.0) =~= label_views(blocks));
}

/// Emits a whole scope into a fresh buffer and resolves every recorded
/// branch: the target offset comes from the label table, or is the end
/// sentinel for a `None` target; the hole is patched with the distance
/// from the byte right after the offset field.
#[verifier::rlimit(100)]
fn write_hard_cfg(w: &mut PatchableBufWriter, cfg: &Cfg, append_end: bool) -> (r: Result<
    (),
    EmitError,
>)
    requires
        hard_cfg_wf(*cfg),
        old(w).bytes().len() == 0,
        old(w).holes() == 0,
    ensures
        r is Ok ==> {
            &&& final(w).bytes().len() == hard_len(*cfg, append_end)
            &&& final(w).holes() == 0
            &&& final(w).bytes() == scope_bytes(*cfg, append_end)
            &&& emitted_scope_with(
                *cfg,
                final(w).bytes(),
                append_end,
                soft_label_table(cfg.blocks@, 0, 0, None),
                soft_jump_slots(cfg.blocks@, 0, 0, None),
            )
            &&& emitted_scope(*cfg, final(w).bytes(), append_end)
        },
        r is Err ==> !cfg_enc_ok(*cfg),
    decreases *cfg, 2int, 0int,
{
    let wi = match write_soft_cfg(w, cfg, None) {
        Ok(wi) => wi,
        Err(e) => {
            return Err(e);
        },
    };
    let end_offset = w.len();
    if append_end {
        write_short(w, 0x00);
    }
    let ghost total = w.bytes().len() as int;
    let ghost endg = end_offset as int;
    let ghost all_jumps = wi.jumps@;
    let ghost all_blocks = wi.blocks@;
    let ghost labels_w = label_offsets_view(all_blocks);
    let ghost slots_all = slot_views(all_jumps);
    let ghost goal = scope_bytes(*cfg, append_end);
    proof {
        lemma_label_offsets_keys(all_blocks);
        assert(append_end ==> w.bytes()[total - 1] == 0);
        assert(forall|k: int|
            0 <= k < labels_w.len() ==> 0 <= (#[trigger] labels_w[k]).1 <= endg);
        assert(all_jumps.take(all_jumps.len() as int) =~= all_jumps);
        assert(slots_all.take(slots_all.len() as int) =~= slots_all);
        assert(labels_w == soft_label_table(cfg.blocks@, 0, 0, None));
        assert(slots_all == soft_jump_slots(cfg.blocks@, 0, 0, None));
        assert(endg == soft_stub(cfg.blocks@, 0, None).len());
        assert(w.bytes() =~= soft_stub(cfg.blocks@, 0, None) + (if append_end {
            seq![0u8]
        } else {
            Seq::<u8>::empty()
        }));
        assert(resolve_slots(w.bytes(), labels_w, endg, slots_all.take(all_jumps.len() as int))
            == goal) by {
            assert(slots_all.take(slots_all.len() as int) =~= slots_all);
        }
    }
    let WriteInfo { blocks: blist, jumps: mut jlist } = wi;
    while jlist.len() > 0
        invariant
            hard_cfg_wf(*cfg),
            w.bytes().len() == total,
            total == hard_len(*cfg, append_end),
            0 <= endg <= total,
            endg + (if append_end { 1int } else { 0int }) == total,
            endg == end_offset as int,
            jlist@.len() <= all_jumps.len(),
            jlist@ == all_jumps.take(jlist@.len() as int),
            w.holes() == jlist@.len(),
            append_end ==> total >= 1 && w.bytes()[total - 1] == 0,
            label_offsets_view(blist@) == labels_w,
            labels_w.map_values(|p: (Seq<u8>, int)| p.0) == soft_labels(cfg.blocks@, 0),
            forall|k: int| 0 <= k < labels_w.len() ==> 0 <= (#[trigger] labels_w[k]).1 <= endg,
            records_ok(all_blocks, all_jumps, 0, endg),
            target_views(all_jumps) == soft_targets(cfg.blocks@, 0, None),
            slots_all == slot_views(all_jumps),
            resolve_slots(w.bytes(), labels_w, endg, slots_all.take(jlist@.len() as int)) == goal,
            goal == scope_bytes(*cfg, append_end),
            forall|idx: int|
                jlist@.len() <= idx < all_jumps.len() ==> jump_resolved(
                    w.bytes(),
                    labels_w,
                    endg,
                    (#[trigger] all_jumps[idx]).offset as int,
                    label_view(all_jumps[idx].target),
                ),
        decreases jlist@.len(),
    {
        let ghost n = jlist@.len() as int;
        let j = match jlist.pop() {
            Some(j) => j,
            None => {
                // The loop condition rules an empty list out.
                proof {
                    assert(false);
                }
                return Err(EmitError::OffsetOutOfReach);
            },
        };
        let ghost k = n - 1;
        proof {
            assert(n <= all_jumps.len());
            assert(j == all_jumps.take(n)[k]);
            assert(all_jumps.take(n)[k] == all_jumps[k]);
            assert(jlist@ =~= all_jumps.take(k));
            assert(target_views(all_jumps)[k] == label_view(j.target));
            assert(0 <= j.offset && j.offset + 2 <= endg && j.hole.pos() == j.offset);
        }
        let target_off: usize = match &j.target {
            Some(l) => {
                proof {
                    assert(soft_targets(cfg.blocks@, 0, None)[k] == Some(l@));
                    lemma_soft_targets_mentioned(cfg.blocks@, 0, None, k);
                    let v = l@;
                    let m = choose|m: int|
                        0 <= m < soft_mentions(cfg.blocks@, 0).len() && soft_mentions(
                            cfg.blocks@,
                            0,
                        )[m] == v;
                    assert(soft_labels(cfg.blocks@, 0).contains(v));
                    let n2 = choose|n2: int|
                        0 <= n2 < soft_labels(cfg.blocks@, 0).len() && soft_labels(
                            cfg.blocks@,
                            0,
                        )[n2] == v;
                    assert(labels_w[n2].0 == v);
                    lemma_assoc_lookup_some(labels_w, v);
                    lemma_assoc_lookup_in_range(labels_w, v, 0, endg);
                }
                match lookup_label(&blist, l) {
                    Some(o) => o,
                    None => {
                        // Well-formedness puts every target in the table.
                        proof {
                            assert(false);
                        }
                        return Err(EmitError::OffsetOutOfReach);
                    },
                }
            },
            None => end_offset,
        };
        let source = j.offset + 2;
        let ghost jhpos = j.hole.pos();
        match offset_delta_i16(source, target_off) {
            Some(delta) => {
                let ghost pre = w.bytes();
                j.hole.patch(w, delta as u16);
                proof {
                    assert(w.bytes() == crate::buffer::patched2(pre, jhpos, delta as u16));
                    assert(w.bytes().len() == pre.len());
                    assert(jhpos == j.offset as int);
                    assert(w.bytes().subrange(j.offset as int, j.offset + 2) =~= le_u16_bytes(
                        delta as u16,
                    ));
                    assert(jump_resolved(
                        w.bytes(),
                        labels_w,
                        endg,
                        all_jumps[k].offset as int,
                        label_view(all_jumps[k].target),
                    ));
                    assert forall|idx: int|
                        k < idx < all_jumps.len() implies jump_resolved(
                        w.bytes(),
                        labels_w,
                        endg,
                        (#[trigger] all_jumps[idx]).offset as int,
                        label_view(all_jumps[idx].target),
                    ) by {
                        assert(all_jumps[k].offset + 2 <= all_jumps[idx].offset);
                        assert(w.bytes().subrange(
                            all_jumps[idx].offset as int,
                            all_jumps[idx].offset + 2,
                        ) =~= pre.subrange(
                            all_jumps[idx].offset as int,
                            all_jumps[idx].offset + 2,
                        ));
                    }
                    // The patch just made is the specified resolution of
                    // slot `k`, so the remaining-slots fold is preserved.
                    assert(slots_all[k] == (j.offset as int, label_view(j.target)));
                    assert(w.bytes() == patch_slot(pre, labels_w, endg, slots_all[k]));
                    assert(slots_all.take(n).drop_last() =~= slots_all.take(k));
                    assert(slots_all.take(n).last() == slots_all[k]);
                    assert(resolve_slots(pre, labels_w, endg, slots_all.take(n))
                        == resolve_slots(w.bytes(), labels_w, endg, slots_all.take(k)));
                }
            },
            None => {
                proof {
                    assert(0 <= target_off <= endg);
                    assert(endg <= total);
                    assert(total > 32767);
                    assert(hard_len(*cfg, true) >= hard_len(*cfg, append_end));
                }
                return Err(EmitError::OffsetOutOfReach);
            },
        }
    }
    proof {
        let jumps_w = all_jumps.map_values(
            |jr: JumpRecord| (jr.offset as int, label_view(jr.target)),
        );
        assert(jumps_w.map_values(|p: (int, Option<Seq<u8>>)| p.1) =~= target_views(all_jumps));
        assert forall|k: int| 0 <= k < jumps_w.len() implies jump_resolved(
            w.bytes(),
            labels_w,
            endg,
            (#[trigger] jumps_w[k]).0,
            jumps_w[k].1,
        ) by {
            assert(jumps_w[k].0 == all_jumps[k].offset as int);
            assert(jumps_w[k].1 == label_view(all_jumps[k].target));
        }
        assert(forall|k: int|
            0 <= k < labels_w.len() ==> 0 <= (#[trigger] labels_w[k]).1 <= w.bytes().len());
        assert(emitted_scope_with(*cfg, w.bytes(), append_end, labels_w, jumps_w));
        assert(slots_all.take(0) =~= Seq::<(int, Option<Seq<u8>>)>::empty());
        assert(w.bytes() == goal);
        assert(jumps_w == slots_all);
    }
    Ok(())
}

/// Emits a whole program: the blocks in order, a trailing `End`, and every
/// branch resolved.  The result is pinned byte for byte: it equals the
/// stub layout with each branch field patched against the scope's label
/// table, which maps every label to its block's true start offset.  Each
/// branch's 16-bit offset, added to the position right after the offset
/// field, lands on such a block start or on the final `End` sentinel.
pub fn emit_cfg(cfg: &Cfg) -> (r: Result<Vec<u8>, EmitError>)
    requires
        hard_cfg_wf(*cfg),
    ensures
        r is Ok ==> {
            &&& r->Ok_0@.len() == hard_len(*cfg, true)
            &&& r->Ok_0@ == scope_bytes(*cfg, true)
            &&& emitted_scope_with(
                *cfg,
                r->Ok_0@,
                true,
                soft_label_table(cfg.blocks@, 0, 0, None),
                soft_jump_slots(cfg.blocks@, 0, 0, None),
            )
            &&& emitted_scope(*cfg, r->Ok_0@, true)
        },
        r is Err ==> !cfg_enc_ok(*cfg),
{
    let mut w = PatchableBufWriter::new();
    match write_hard_cfg(&mut w, cfg, true) {
        Ok(()) => Ok(w.complete()),
        Err(e) => Err(e),
    }
}

} // verus!
