//! Entry shims: the two functions through which a compiled `main` is entered
//! from outside.
//!
//! The process entry has the signature of a C `main`. It checks the number of
//! command-line words, has the runtime library read each word by the type of
//! the parameter it is for, calls the wrapped function, and exits with status
//! 0 whatever the function returned.
//!
//! The memory entry takes the address of a block of argument records, one for
//! each parameter, in order. A record is 16 bytes: a word that tells the type
//! of the value, then the word that holds the value. The shim reads each value
//! by the declared type of its parameter and never looks at the first word.

use crate::lower::argument_ops;
use crate::model::{first_index, first_index_from};
use crate::native::{blocks_view, FunctionPlan, PlanView, Signature, SignatureView};
use crate::native::{Literal, NativeOp, NativeType, RuntimeFn};
use vstd::prelude::*;

verus! {

/// The most parameters that a function entered through a shim may have: the
/// argument count of a process is a 32-bit integer.
pub const MAX_ENTRY_PARAMS: usize = 0x7fff_fff0;

/// The size of one argument record of a memory block, in bytes.
pub const RECORD_BYTES: usize = 16;

/// The offset of the value within an argument record, in bytes.
pub const RECORD_VALUE_OFFSET: usize = 8;

/// Why a function cannot be given an entry shim.
#[derive(Clone, Copy, Debug, PartialEq, Eq, Structural)]
pub enum EntryError {
    /// The function has more parameters than a process can be given words.
    TooManyParameters,
    /// The parameter at `index` is a pointer, which cannot be passed in from
    /// outside.
    PointerParameter { index: usize },
}

/// The runtime routine that reads a command-line word as a value of a type.
pub open spec fn parse_routine(ty: NativeType) -> RuntimeFn {
    match ty {
        NativeType::I64 => RuntimeFn::ParseInt,
        NativeType::I8 => RuntimeFn::ParseBool,
        NativeType::F64 => RuntimeFn::ParseFloat,
        NativeType::I32 => RuntimeFn::ParseChar,
        NativeType::Ptr => RuntimeFn::ParseInt,
    }
}

pub fn parse_routine_for(ty: NativeType) -> (r: RuntimeFn)
    ensures
        r == parse_routine(ty),
{
    match ty {
        NativeType::I64 => RuntimeFn::ParseInt,
        NativeType::I8 => RuntimeFn::ParseBool,
        NativeType::F64 => RuntimeFn::ParseFloat,
        NativeType::I32 => RuntimeFn::ParseChar,
        NativeType::Ptr => RuntimeFn::ParseInt,
    }
}

/// Whether a function whose parameters have these machine types can have an
/// entry shim, and if not, why.
pub open spec fn entry_check(types: Seq<NativeType>) -> Option<EntryError> {
    if types.len() > MAX_ENTRY_PARAMS {
        Some(EntryError::TooManyParameters)
    } else {
        match first_index(types, NativeType::Ptr) {
            Some(i) => Some(EntryError::PointerParameter { index: i as usize }),
            None => None,
        }
    }
}

/// The instructions that read the first `n` command-line words into the
/// slots of the parameters. The argument vector is in slot 1, word `i` is for
/// parameter `i - 1`, and parameter `i` lives in slot `i + 2`.
pub open spec fn parse_ops(types: Seq<NativeType>, n: int) -> Seq<NativeOp>
    decreases n,
{
    if n <= 0 {
        Seq::empty()
    } else {
        parse_ops(types, n - 1).push(NativeOp::Argument { src: 1 }).push(
            NativeOp::Immediate { value: n as i64 },
        ).push(
            NativeOp::CallRuntime {
                routine: parse_routine(types[n - 1]),
                dst: Some((n + 1) as usize),
            },
        )
    }
}

/// The slots `first`, `first + 1`, ... of `n` consecutive parameters.
pub open spec fn slot_run(first: usize, n: int) -> Seq<usize> {
    Seq::new(n as nat, |i: int| (first + i) as usize)
}

/// The one block of a process entry for a function with parameters of the
/// given types, declared at `callee`.
pub open spec fn process_entry_ops(types: Seq<NativeType>, callee: usize) -> Seq<NativeOp> {
    seq![
        NativeOp::Parameter { dst: 0, index: 0 },
        NativeOp::Parameter { dst: 1, index: 1 },
        NativeOp::Argument { src: 0 },
        NativeOp::Immediate { value: types.len() as i64 },
        NativeOp::CallRuntime { routine: RuntimeFn::CheckArgumentCount, dst: None },
    ] + parse_ops(types, types.len() as int) + argument_ops(slot_run(2, types.len() as int)).push(
        NativeOp::Call { callee, dst: None },
    ).push(NativeOp::Exit { status: 0 })
}

/// The signature of a process entry: the argument count and the argument
/// vector come in, the exit status goes out.
pub open spec fn process_entry_signature() -> SignatureView {
    SignatureView { params: seq![NativeType::I32, NativeType::Ptr], ret: Some(NativeType::I32) }
}

/// The plan of a process entry.
pub open spec fn process_entry_plan(types: Seq<NativeType>, callee: usize) -> PlanView {
    PlanView {
        signature: process_entry_signature(),
        slots: seq![NativeType::I32, NativeType::Ptr] + types,
        blocks: seq![process_entry_ops(types, callee)],
    }
}

/// The instructions that read the first `n` argument records of the block
/// whose address is in slot 0. Parameter `i` lives in slot `i + 1`.
pub open spec fn unpack_ops(types: Seq<NativeType>, n: int) -> Seq<NativeOp> {
    Seq::new(
        n as nat,
        |i: int| NativeOp::Unpack { dst: (i + 1) as usize, block: 0, record: i as usize, ty: types[i] },
    )
}

/// The one block of a memory entry.
pub open spec fn memory_entry_ops(types: Seq<NativeType>, callee: usize) -> Seq<NativeOp> {
    seq![NativeOp::Parameter { dst: 0, index: 0 }] + unpack_ops(types, types.len() as int)
        + argument_ops(slot_run(1, types.len() as int)).push(
        NativeOp::Call { callee, dst: None },
    ).push(NativeOp::Return { src: None, ty: None })
}

/// The signature of a memory entry: the address of the block comes in.
pub open spec fn memory_entry_signature() -> SignatureView {
    SignatureView { params: seq![NativeType::Ptr], ret: None }
}

/// The plan of a memory entry.
pub open spec fn memory_entry_plan(types: Seq<NativeType>, callee: usize) -> PlanView {
    PlanView {
        signature: memory_entry_signature(),
        slots: seq![NativeType::Ptr] + types,
        blocks: seq![memory_entry_ops(types, callee)],
    }
}

/// Tells whether a function whose parameters have these machine types can
/// have an entry shim.
pub fn check_entry_types(types: &Vec<NativeType>) -> (r: Option<EntryError>)
    ensures
        r == entry_check(types@),
        r is None ==> types@.len() <= MAX_ENTRY_PARAMS,
{
    if types.len() > MAX_ENTRY_PARAMS {
        return Some(EntryError::TooManyParameters);
    }
    let mut i: usize = 0;
    while i < types.len()
        invariant
            i <= types.len(),
            types@.len() <= MAX_ENTRY_PARAMS,
            first_index(types@, NativeType::Ptr) == first_index_from(
                types@,
                NativeType::Ptr,
                i as int,
            ),
        decreases types.len() - i,
    {
        match types[i] {
            NativeType::Ptr => {
                return Some(EntryError::PointerParameter { index: i });
            },
            _ => {},
        }
        i += 1;
    }
    None
}

/// Copies a list of machine types.
fn copy_types(types: &Vec<NativeType>, out: &mut Vec<NativeType>)
    ensures
        final(out)@ == old(out)@ + types@,
{
    let ghost base = out@;
    let mut i: usize = 0;
    while i < types.len()
        invariant
            i <= types.len(),
            out@ == base + types@.take(i as int),
        decreases types.len() - i,
    {
        out.push(types[i]);
        assert(out@ =~= base + types@.take(i + 1));
        i += 1;
    }
    assert(types@.take(types@.len() as int) =~= types@);
}

/// Queues the slots `first`, `first + 1`, ... of `n` parameters as call
/// arguments.
fn push_slot_run(first: usize, n: usize, out: &mut Vec<NativeOp>)
    requires
        first + n <= usize::MAX,
    ensures
        final(out)@ == old(out)@ + argument_ops(slot_run(first, n as int)),
{
    let ghost base = out@;
    let mut i: usize = 0;
    while i < n
        invariant
            i <= n,
            first + n <= usize::MAX,
            out@ == base + argument_ops(slot_run(first, i as int)),
        decreases n - i,
    {
        out.push(NativeOp::Argument { src: first + i });
        assert(out@ =~= base + argument_ops(slot_run(first, i + 1)));
        i += 1;
    }
}

/// Builds the process entry of the function declared at `callee`, whose
/// parameters have the given machine types.
pub fn build_process_entry(types: &Vec<NativeType>, callee: usize) -> (r: FunctionPlan)
    requires
        types@.len() <= MAX_ENTRY_PARAMS,
    ensures
        r@ == process_entry_plan(types@, callee),
{
    let n: usize = types.len();
    let mut ops: Vec<NativeOp> = Vec::new();
    ops.push(NativeOp::Parameter { dst: 0, index: 0 });
    ops.push(NativeOp::Parameter { dst: 1, index: 1 });
    ops.push(NativeOp::Argument { src: 0 });
    ops.push(NativeOp::Immediate { value: n as i64 });
    ops.push(NativeOp::CallRuntime { routine: RuntimeFn::CheckArgumentCount, dst: None });
    let ghost head = ops@;
    let mut i: usize = 0;
    while i < n
        invariant
            i <= n,
            n == types@.len(),
            n <= MAX_ENTRY_PARAMS,
            ops@ == head + parse_ops(types@, i as int),
        decreases n - i,
    {
        ops.push(NativeOp::Argument { src: 1 });
        ops.push(NativeOp::Immediate { value: (i + 1) as i64 });
        ops.push(
            NativeOp::CallRuntime { routine: parse_routine_for(types[i]), dst: Some(i + 2) },
        );
        assert(ops@ =~= head + parse_ops(types@, i + 1));
        i += 1;
    }
    push_slot_run(2, n, &mut ops);
    ops.push(NativeOp::Call { callee, dst: None });
    ops.push(NativeOp::Exit { status: 0 });
    assert(ops@ =~= process_entry_ops(types@, callee));
    let mut slots: Vec<NativeType> = Vec::new();
    slots.push(NativeType::I32);
    slots.push(NativeType::Ptr);
    copy_types(types, &mut slots);
    let mut params: Vec<NativeType> = Vec::new();
    params.push(NativeType::I32);
    params.push(NativeType::Ptr);
    let mut blocks: Vec<Vec<NativeOp>> = Vec::new();
    blocks.push(ops);
    let r = FunctionPlan {
        signature: Signature { params, ret: Some(NativeType::I32) },
        slots,
        blocks,
    };
    assert(r@.signature.params =~= process_entry_signature().params);
    assert(r@.slots =~= process_entry_plan(types@, callee).slots);
    assert(r@.blocks =~= process_entry_plan(types@, callee).blocks);
    r
}

/// Builds the memory entry of the function declared at `callee`, whose
/// parameters have the given machine types.
pub fn build_memory_entry(types: &Vec<NativeType>, callee: usize) -> (r: FunctionPlan)
    requires
        types@.len() <= MAX_ENTRY_PARAMS,
    ensures
        r@ == memory_entry_plan(types@, callee),
{
    let n: usize = types.len();
    let mut ops: Vec<NativeOp> = Vec::new();
    ops.push(NativeOp::Parameter { dst: 0, index: 0 });
    let ghost head = ops@;
    let mut i: usize = 0;
    while i < n
        invariant
            i <= n,
            n == types@.len(),
            n <= MAX_ENTRY_PARAMS,
            ops@ == head + unpack_ops(types@, i as int),
        decreases n - i,
    {
        ops.push(NativeOp::Unpack { dst: i + 1, block: 0, record: i, ty: types[i] });
        assert(ops@ =~= head + unpack_ops(types@, i + 1));
        i += 1;
    }
    push_slot_run(1, n, &mut ops);
    ops.push(NativeOp::Call { callee, dst: None });
    ops.push(NativeOp::Return { src: None, ty: None });
    assert(ops@ =~= memory_entry_ops(types@, callee));
    let mut slots: Vec<NativeType> = Vec::new();
    slots.push(NativeType::Ptr);
    copy_types(types, &mut slots);
    let mut params: Vec<NativeType> = Vec::new();
    params.push(NativeType::Ptr);
    let mut blocks: Vec<Vec<NativeOp>> = Vec::new();
    blocks.push(ops);
    let r = FunctionPlan { signature: Signature { params, ret: None }, slots, blocks };
    assert(r@.signature.params =~= memory_entry_signature().params);
    assert(r@.slots =~= memory_entry_plan(types@, callee).slots);
    assert(r@.blocks =~= memory_entry_plan(types@, callee).blocks);
    r
}

/// The word that tells the type of the value of an argument record.
pub open spec fn record_tag(literal: Literal) -> u64 {
    match literal {
        Literal::Int(_) => 0,
        Literal::Bool(_) => 1,
        Literal::Float(_) => 2,
        Literal::Char(_) => 3,
    }
}

/// The word that holds the value of an argument record: an integer in two's
/// complement, a boolean as 0 or 1, a floating-point number as its bits, a
/// character as its code point.
pub open spec fn record_value(literal: Literal) -> u64 {
    match literal {
        Literal::Int(v) => v as u64,
        Literal::Bool(b) => if b {
            1
        } else {
            0
        },
        Literal::Float(bits) => bits,
        Literal::Char(c) => c as u64,
    }
}

/// The two words of the argument record of a literal.
pub fn record_of(literal: &Literal) -> (r: (u64, u64))
    ensures
        r.0 == record_tag(*literal),
        r.1 == record_value(*literal),
{
    match literal {
        Literal::Int(v) => (0, #[verifier::truncate] (*v as u64)),
        Literal::Bool(b) => (
            1,
            if *b {
                1
            } else {
                0
            },
        ),
        Literal::Float(bits) => (2, *bits),
        Literal::Char(c) => (3, (*c as u32) as u64),
    }
}

} // verus!
