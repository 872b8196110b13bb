//! An emitter of AVM1 bytecode (the action format of the SWF container).
//!
//! The input is a control-flow graph: a list of basic blocks whose
//! terminators reference other blocks by label.  The emitter lays the blocks
//! out in order, lowers inter-block transfers to position-relative branch
//! opcodes, and back-patches branch offsets and length prefixes through
//! "holes" reserved in an append-only byte buffer.  Every hole is provably
//! patched before the bytes are taken out, and every resolved branch
//! provably lands on a recorded block start or on the end sentinel.

pub mod actions;
pub mod buffer;
pub mod emitter;
pub mod primitives;
pub mod types;

pub use actions::emit_raw_action;
pub use buffer::{BufferHole, PatchableBufWriter};
pub use emitter::{emit_cfg, offset_delta_i16, write_error, WriteInfo};
pub use primitives::{
    emit_c_string, emit_le32_u64, emit_le_i16, emit_le_i32, emit_le_u16, emit_le_u32, emit_u8,
};
pub use types::{
    Action, CatchBlock, CatchTarget, Cfg, CfgBlock, CfgFlow, DefineFunction, DefineFunction2,
    EmitError, GetUrl2Method, PushValue, RawAction, RawCatchBlock, RawParameter,
};
