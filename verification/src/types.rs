//! The data model consumed by the emitter.
//!
//! Strings of the wire format (labels, names, string constants) are carried
//! as byte strings: the format writes their bytes followed by a zero byte.
//! The two floating-point push values are carried as the bits of their
//! standard encodings, since only those bits reach the wire.

use vstd::prelude::*;

verus! {

/// A fatal encoding error: the input cannot be represented in the format.
#[derive(Clone, Copy, Debug, PartialEq, Eq, Structural)]
pub enum EmitError {
    /// The body of a long action would exceed its 16-bit length prefix.
    BodyTooLong,
    /// A count field (parameters, pool entries) exceeds 16 bits.
    CountTooLong,
    /// A branch target is out of reach of a signed 16-bit offset.
    OffsetOutOfReach,
}

/// One value carried by a `Push` action.
pub enum PushValue {
    Boolean(bool),
    /// Index into the constant pool.
    Constant(u16),
    /// Bits of the standard 32-bit float encoding.
    Float32(u32),
    /// Bits of the standard 64-bit float encoding.
    Float64(u64),
    Null,
    Register(u8),
    Sint32(i32),
    String(Vec<u8>),
    Undefined,
}

/// Where a caught value is stored.
pub enum CatchTarget {
    Register(u8),
    Variable(Vec<u8>),
}

/// How a `GetUrl2` request is sent.
#[derive(Clone, Copy)]
pub enum GetUrl2Method {
    NoMethod,
    Get,
    Post,
}

/// A register/name pair of a `DefineFunction2` parameter list.
pub struct RawParameter {
    pub register: u8,
    pub name: Vec<u8>,
}

/// A raw catch clause: target and byte size of the catch body.
pub struct RawCatchBlock {
    pub target: CatchTarget,
    pub size: u16,
}

/// A raw action: one opcode with its operands, sizes given explicitly.
#[allow(inconsistent_fields)]
pub enum RawAction {
    Add,
    Add2,
    And,
    AsciiToChar,
    BitAnd,
    BitOr,
    BitLShift,
    BitRShift,
    BitURShift,
    BitXor,
    Call,
    CallFunction,
    CallMethod,
    CharToAscii,
    CastOp,
    CloneSprite,
    ConstantPool { pool: Vec<Vec<u8>> },
    Decrement,
    DefineFunction { name: Vec<u8>, parameters: Vec<Vec<u8>>, body_size: u16 },
    DefineFunction2 {
        name: Vec<u8>,
        register_count: u8,
        flags: u16,
        parameters: Vec<RawParameter>,
        body_size: u16,
    },
    DefineLocal,
    DefineLocal2,
    Delete,
    Delete2,
    Divide,
    End,
    EndDrag,
    Enumerate,
    Enumerate2,
    Equals,
    Equals2,
    Extends,
    FsCommand2,
    GetMember,
    GetProperty,
    GetTime,
    GetUrl { url: Vec<u8>, target: Vec<u8> },
    GetUrl2 { method: GetUrl2Method, load_target: bool, load_variables: bool },
    GetVariable,
    GotoFrame { frame: u16 },
    GotoFrame2 { play: bool, scene_bias: u16 },
    GotoLabel { label: Vec<u8> },
    Greater,
    If { offset: i16 },
    ImplementsOp,
    Increment,
    InitArray,
    InitObject,
    InstanceOf,
    Jump { offset: i16 },
    Less,
    Less2,
    MbAsciiToChar,
    MbCharToAscii,
    MbStringExtract,
    MbStringLength,
    Modulo,
    Multiply,
    NewMethod,
    NewObject,
    NextFrame,
    Not,
    Or,
    Play,
    Pop,
    PrevFrame,
    Push { values: Vec<PushValue> },
    PushDuplicate,
    RandomNumber,
    Raw { code: u8, data: Vec<u8> },
    RemoveSprite,
    Return,
    SetMember,
    SetProperty,
    SetTarget { target_name: Vec<u8> },
    SetTarget2,
    SetVariable,
    StackSwap,
    StartDrag,
    Stop,
    StopSounds,
    StoreRegister { register: u8 },
    StrictEquals,
    StrictMode { is_strict: bool },
    StringAdd,
    StringEquals,
    StringExtract,
    StringGreater,
    StringLength,
    StringLess,
    Subtract,
    TargetPath,
    Throw,
    ToInteger,
    ToNumber,
    ToString,
    ToggleQuality,
    Trace,
    Try { try_size: u16, catch: Option<RawCatchBlock>, finally_size: Option<u16> },
    TypeOf,
    WaitForFrame { frame: u16, skip: u8 },
    WaitForFrame2 { skip: u8 },
    With { size: u16 },
}

/// A function definition whose body is itself a control-flow graph.
pub struct DefineFunction {
    pub name: Vec<u8>,
    pub parameters: Vec<Vec<u8>>,
    pub body: Cfg,
}

/// The richer function definition, with a register count and flags.
pub struct DefineFunction2 {
    pub name: Vec<u8>,
    pub register_count: u8,
    pub flags: u16,
    pub parameters: Vec<RawParameter>,
    pub body: Cfg,
}

/// A straight-line action of a block: either one raw action, or a function
/// definition carrying a nested control-flow graph.
pub enum Action {
    DefineFunction(DefineFunction),
    DefineFunction2(DefineFunction2),
    Raw(RawAction),
}

/// A catch clause of a `Try` terminator.
pub struct CatchBlock {
    pub target: CatchTarget,
    pub body: Cfg,
}

/// The terminator of a basic block.
pub enum CfgFlow {
    /// Fall through, or jump when the successor is not the following block.
    Simple { next: Option<Vec<u8>> },
    /// Conditional branch, then fall-through handling of the false edge.
    If { true_target: Option<Vec<u8>>, false_target: Option<Vec<u8>> },
    Return,
    Throw,
    /// A point the input marked unreachable or faulty: encoded as a
    /// deliberately malformed `Push`.
    Error,
    Try { try_body: Cfg, catch: Option<CatchBlock>, finally: Option<Cfg> },
    With { body: Cfg },
    WaitForFrame { frame: u16, ready_target: Option<Vec<u8>>, loading_target: Option<Vec<u8>> },
    WaitForFrame2 { ready_target: Option<Vec<u8>>, loading_target: Option<Vec<u8>> },
}

/// A basic block: a label unique in its scope, straight-line actions, and
/// one terminator.
pub struct CfgBlock {
    pub label: Vec<u8>,
    pub actions: Vec<Action>,
    pub flow: CfgFlow,
}

/// A control-flow graph: an ordered, non-empty list of blocks.  Emission
/// order matches this order.
pub struct Cfg {
    pub blocks: Vec<CfgBlock>,
}

} // verus!
