//! The function lowering engine: from the blocks of one Bril function to a
//! native instruction plan.
//!
//! Lowering resolves every name. A variable becomes the slot that the
//! function's bindings give it, a label becomes the index of the native block
//! of the Bril block that carries it, and a callee becomes its position in the
//! table of declared functions. Native block 0 is a synthetic entry block that
//! receives the formal parameters; the Bril block at position `i` becomes
//! native block `i + 1`. Blocks are never pruned, reachable or not.

use crate::bindings::{Bindings, BindingsView};
use crate::lower_laws::function_fits;
use crate::model::{first_index, first_index_from, instr_views, views};
use crate::model::{BasicBlock, BrilType, Function, Instruction, Opcode};
use crate::model::{block_views, BlockView, FunctionView, InstrView, ParamView};
use crate::native::{BinaryOp, Domain, Relation, RuntimeFn};
use crate::native::{blocks_view, FunctionPlan};
use crate::native::{NativeOp, NativeType, PlanView, Signature, SignatureView};
use vstd::prelude::*;

verus! {

/// What a declaration stands for.
#[derive(Clone, Copy, Debug, PartialEq, Eq, Structural)]
pub enum DeclKind {
    /// A function of the program. Only these can be called by name from Bril.
    Function,
    /// The entry shim that a process starts in.
    ProcessEntry,
    /// The entry shim that unpacks a block of arguments from memory.
    MemoryEntry,
}

/// How far a declared function has come.
#[derive(Clone, Copy, Debug, PartialEq, Eq, Structural)]
pub enum BodyState {
    /// Declared, without a body.
    Declared,
    /// Defined, but not yet finalized: it cannot be invoked.
    Defined,
    /// Defined and finalized.
    Ready,
}

/// A declared function. Its position in the table of declarations is the
/// handle by which calls and the backend refer to it.
#[derive(Debug)]
pub struct FuncDecl {
    /// The name of the function, or of the function that an entry shim wraps.
    pub name: String,
    pub kind: DeclKind,
    pub signature: Signature,
    pub state: BodyState,
    /// How many bodies of the function have been discarded.
    pub epoch: u64,
    /// The body that the function is currently defined with.
    pub body: Option<FunctionPlan>,
}

/// `FuncDecl` as a mathematical value.
pub struct DeclView {
    pub name: Seq<char>,
    pub kind: DeclKind,
    pub signature: SignatureView,
    pub state: BodyState,
    pub epoch: u64,
    pub body: Option<PlanView>,
}

/// The view of an optional plan.
pub open spec fn body_view(body: Option<FunctionPlan>) -> Option<PlanView> {
    match body {
        Some(plan) => Some(plan@),
        None => None,
    }
}

impl View for FuncDecl {
    type V = DeclView;

    open spec fn view(&self) -> DeclView {
        DeclView {
            name: self.name@,
            kind: self.kind,
            signature: self.signature@,
            state: self.state,
            epoch: self.epoch,
            body: body_view(self.body),
        }
    }
}

impl FuncDecl {
    /// A copy of the declaration, with its body.
    pub fn duplicate(&self) -> (r: FuncDecl)
        ensures
            r@ == self@,
    {
        FuncDecl {
            name: self.name.clone(),
            kind: self.kind,
            signature: self.signature.duplicate(),
            state: self.state,
            epoch: self.epoch,
            body: match &self.body {
                Some(plan) => Some(plan.duplicate()),
                None => None,
            },
        }
    }
}

/// The views of a table of declarations.
pub open spec fn decl_views(table: Seq<FuncDecl>) -> Seq<DeclView> {
    Seq::new(table.len(), |i: int| table[i]@)
}

/// What each declaration of a table is found by: its kind and its name.
pub open spec fn decl_keys(table: Seq<DeclView>) -> Seq<(DeclKind, Seq<char>)> {
    Seq::new(table.len(), |i: int| (table[i].kind, table[i].name))
}

/// The signatures of a table of declarations.
pub open spec fn decl_signatures(table: Seq<DeclView>) -> Seq<SignatureView> {
    Seq::new(table.len(), |i: int| table[i].signature)
}

/// The label of each block of a function, in order.
pub open spec fn block_labels(blocks: Seq<BlockView>) -> Seq<Option<Seq<char>>> {
    Seq::new(blocks.len(), |i: int| blocks[i].label)
}

/// What an instruction needs and produces, by operation.
#[derive(Clone, Copy, Debug, PartialEq, Eq, Structural)]
pub enum Shape {
    Constant,
    Binary(BinaryOp),
    Compare(Domain, Relation),
    Not,
    Copy,
    CharToInt,
    IntToChar,
    Call,
    Print,
    Nop,
    Jump,
    Branch,
    Return,
    Allocate,
    Release,
    Load,
    Store,
    PointerAdd,
}

/// The shape of each operation. Whether an operation works on integers, on
/// floating-point numbers or on characters is part of the operation.
pub open spec fn shape_of(op: Opcode) -> Shape {
    match op {
        Opcode::Const => Shape::Constant,
        Opcode::Add => Shape::Binary(BinaryOp::Iadd),
        Opcode::Sub => Shape::Binary(BinaryOp::Isub),
        Opcode::Mul => Shape::Binary(BinaryOp::Imul),
        Opcode::Div => Shape::Binary(BinaryOp::Sdiv),
        Opcode::Eq => Shape::Compare(Domain::Integer, Relation::Equal),
        Opcode::Lt => Shape::Compare(Domain::Integer, Relation::Less),
        Opcode::Gt => Shape::Compare(Domain::Integer, Relation::Greater),
        Opcode::Le => Shape::Compare(Domain::Integer, Relation::LessOrEqual),
        Opcode::Ge => Shape::Compare(Domain::Integer, Relation::GreaterOrEqual),
        Opcode::Not => Shape::Not,
        Opcode::And => Shape::Binary(BinaryOp::Band),
        Opcode::Or => Shape::Binary(BinaryOp::Bor),
        Opcode::Id => Shape::Copy,
        Opcode::Fadd => Shape::Binary(BinaryOp::Fadd),
        Opcode::Fsub => Shape::Binary(BinaryOp::Fsub),
        Opcode::Fmul => Shape::Binary(BinaryOp::Fmul),
        Opcode::Fdiv => Shape::Binary(BinaryOp::Fdiv),
        Opcode::Feq => Shape::Compare(Domain::Floating, Relation::Equal),
        Opcode::Flt => Shape::Compare(Domain::Floating, Relation::Less),
        Opcode::Fgt => Shape::Compare(Domain::Floating, Relation::Greater),
        Opcode::Fle => Shape::Compare(Domain::Floating, Relation::LessOrEqual),
        Opcode::Fge => Shape::Compare(Domain::Floating, Relation::GreaterOrEqual),
        Opcode::Ceq => Shape::Compare(Domain::Character, Relation::Equal),
        Opcode::Clt => Shape::Compare(Domain::Character, Relation::Less),
        Opcode::Cgt => Shape::Compare(Domain::Character, Relation::Greater),
        Opcode::Cle => Shape::Compare(Domain::Character, Relation::LessOrEqual),
        Opcode::Cge => Shape::Compare(Domain::Character, Relation::GreaterOrEqual),
        Opcode::Char2int => Shape::CharToInt,
        Opcode::Int2char => Shape::IntToChar,
        Opcode::Call => Shape::Call,
        Opcode::Print => Shape::Print,
        Opcode::Nop => Shape::Nop,
        Opcode::Jmp => Shape::Jump,
        Opcode::Br => Shape::Branch,
        Opcode::Ret => Shape::Return,
        Opcode::Alloc => Shape::Allocate,
        Opcode::Free => Shape::Release,
        Opcode::Load => Shape::Load,
        Opcode::Store => Shape::Store,
        Opcode::PtrAdd => Shape::PointerAdd,
    }
}

pub fn classify(op: Opcode) -> (r: Shape)
    ensures
        r == shape_of(op),
{
    match op {
        Opcode::Const => Shape::Constant,
        Opcode::Add => Shape::Binary(BinaryOp::Iadd),
        Opcode::Sub => Shape::Binary(BinaryOp::Isub),
        Opcode::Mul => Shape::Binary(BinaryOp::Imul),
        Opcode::Div => Shape::Binary(BinaryOp::Sdiv),
        Opcode::Eq => Shape::Compare(Domain::Integer, Relation::Equal),
        Opcode::Lt => Shape::Compare(Domain::Integer, Relation::Less),
        Opcode::Gt => Shape::Compare(Domain::Integer, Relation::Greater),
        Opcode::Le => Shape::Compare(Domain::Integer, Relation::LessOrEqual),
        Opcode::Ge => Shape::Compare(Domain::Integer, Relation::GreaterOrEqual),
        Opcode::Not => Shape::Not,
        Opcode::And => Shape::Binary(BinaryOp::Band),
        Opcode::Or => Shape::Binary(BinaryOp::Bor),
        Opcode::Id => Shape::Copy,
        Opcode::Fadd => Shape::Binary(BinaryOp::Fadd),
        Opcode::Fsub => Shape::Binary(BinaryOp::Fsub),
        Opcode::Fmul => Shape::Binary(BinaryOp::Fmul),
        Opcode::Fdiv => Shape::Binary(BinaryOp::Fdiv),
        Opcode::Feq => Shape::Compare(Domain::Floating, Relation::Equal),
        Opcode::Flt => Shape::Compare(Domain::Floating, Relation::Less),
        Opcode::Fgt => Shape::Compare(Domain::Floating, Relation::Greater),
        Opcode::Fle => Shape::Compare(Domain::Floating, Relation::LessOrEqual),
        Opcode::Fge => Shape::Compare(Domain::Floating, Relation::GreaterOrEqual),
        Opcode::Ceq => Shape::Compare(Domain::Character, Relation::Equal),
        Opcode::Clt => Shape::Compare(Domain::Character, Relation::Less),
        Opcode::Cgt => Shape::Compare(Domain::Character, Relation::Greater),
        Opcode::Cle => Shape::Compare(Domain::Character, Relation::LessOrEqual),
        Opcode::Cge => Shape::Compare(Domain::Character, Relation::GreaterOrEqual),
        Opcode::Char2int => Shape::CharToInt,
        Opcode::Int2char => Shape::IntToChar,
        Opcode::Call => Shape::Call,
        Opcode::Print => Shape::Print,
        Opcode::Nop => Shape::Nop,
        Opcode::Jmp => Shape::Jump,
        Opcode::Br => Shape::Branch,
        Opcode::Ret => Shape::Return,
        Opcode::Alloc => Shape::Allocate,
        Opcode::Free => Shape::Release,
        Opcode::Load => Shape::Load,
        Opcode::Store => Shape::Store,
        Opcode::PtrAdd => Shape::PointerAdd,
    }
}

/// Why a function cannot be lowered.
#[derive(Clone, Copy, Debug, PartialEq, Eq, Structural)]
pub enum LowerErrorKind {
    /// A call names a function that is not in the table of declarations.
    UndefinedFunction,
    /// A jump or branch names a label that no block of the function carries.
    UndefinedLabel,
    /// An instruction names a variable that the function never defines.
    UndefinedVariable,
    /// An instruction lacks a destination, a literal, an operand, a label or
    /// a callee that its operation needs, or a call disagrees with the
    /// signature of its callee.
    Malformed,
    /// A jump, branch or return stands before the end of its block.
    MisplacedTerminator,
}

/// A lowering failure and the instruction at which it was found.
#[derive(Clone, Copy, Debug, PartialEq, Eq, Structural)]
pub struct LowerError {
    pub kind: LowerErrorKind,
    /// The position of the block in the function.
    pub block: usize,
    /// The position of the instruction in the block.
    pub instr: usize,
}

/// Everything that the names of a function are resolved against.
pub struct Scope {
    pub vars: BindingsView,
    pub labels: Seq<Option<Seq<char>>>,
    pub callees: Seq<(DeclKind, Seq<char>)>,
    pub signatures: Seq<SignatureView>,
    /// The declared return type of the function being lowered.
    pub ret: Option<NativeType>,
    /// The width of an address on the target, in bytes.
    pub pointer_bytes: u8,
}

impl Scope {
    /// The native block that a label stands for.
    pub open spec fn label_target(self, label: Seq<char>) -> Option<usize> {
        match first_index(self.labels, Some(label)) {
            Some(i) => Some((i + 1) as usize),
            None => None,
        }
    }

    /// The position of a callee in the table of declarations.
    pub open spec fn callee(self, name: Seq<char>) -> Option<usize> {
        match first_index(self.callees, (DeclKind::Function, name)) {
            Some(i) => Some(i as usize),
            None => None,
        }
    }

    /// The sizes of the scope's tables fit the machine.
    pub open spec fn wf(self) -> bool {
        &&& self.vars.names.len() == self.vars.types.len()
        &&& self.vars.names.len() <= usize::MAX
        &&& self.labels.len() <= usize::MAX
        &&& self.callees.len() <= usize::MAX
        &&& self.callees.len() == self.signatures.len()
    }
}

/// The slot of a name, or slot 0 for a name without one.
pub open spec fn slot_or_zero(vars: BindingsView, name: Seq<char>) -> usize {
    match vars.slot(name) {
        Some(s) => s,
        None => 0,
    }
}

/// The slots of a list of operand names.
pub open spec fn arg_slots(vars: BindingsView, args: Seq<Seq<char>>) -> Seq<usize> {
    Seq::new(args.len(), |i: int| slot_or_zero(vars, args[i]))
}

/// Whether every operand name of a list has a slot.
pub open spec fn args_bound(vars: BindingsView, args: Seq<Seq<char>>) -> bool {
    forall|i: int| 0 <= i < args.len() ==> (#[trigger] vars.slot(args[i])) is Some
}

/// Whether the destination of an instruction, if it has one, has a slot.
pub open spec fn dest_bound(vars: BindingsView, dest: Option<ParamView>) -> bool {
    match dest {
        Some(d) => vars.slot(d.name) is Some,
        None => true,
    }
}

/// The slot of the destination of an instruction.
pub open spec fn dest_slot(vars: BindingsView, dest: Option<ParamView>) -> usize {
    match dest {
        Some(d) => slot_or_zero(vars, d.name),
        None => 0,
    }
}

/// Whether an instruction has the parts that its operation needs.
pub open spec fn well_shaped(instr: InstrView) -> bool {
    match shape_of(instr.op) {
        Shape::Constant => instr.dest is Some && instr.value is Some,
        Shape::Binary(_) => instr.dest is Some && instr.args.len() == 2,
        Shape::Compare(_, _) => instr.dest is Some && instr.args.len() == 2,
        Shape::Not => instr.dest is Some && instr.args.len() == 1,
        Shape::Copy => instr.dest is Some && instr.args.len() == 1,
        Shape::CharToInt => instr.dest is Some && instr.args.len() == 1,
        Shape::IntToChar => instr.dest is Some && instr.args.len() == 1,
        Shape::Load => instr.dest is Some && instr.args.len() == 1,
        Shape::Allocate => instr.dest is Some && instr.args.len() == 1
            && instr.dest.unwrap().ty.pointee_type() is Some,
        Shape::PointerAdd => instr.dest is Some && instr.args.len() == 2
            && instr.dest.unwrap().ty.pointee_type() is Some,
        Shape::Call => instr.funcs.len() == 1,
        Shape::Print => true,
        Shape::Nop => true,
        Shape::Jump => instr.labels.len() == 1,
        Shape::Branch => instr.args.len() == 1 && instr.labels.len() == 2,
        Shape::Return => instr.args.len() <= 1,
        Shape::Release => instr.args.len() == 1,
        Shape::Store => instr.args.len() == 2,
    }
}

/// The runtime routine that prints a value of a machine type.
pub open spec fn print_routine(ty: NativeType) -> RuntimeFn {
    match ty {
        NativeType::I64 => RuntimeFn::PrintInt,
        NativeType::I8 => RuntimeFn::PrintBool,
        NativeType::F64 => RuntimeFn::PrintFloat,
        NativeType::I32 => RuntimeFn::PrintChar,
        NativeType::Ptr => RuntimeFn::PrintPointer,
    }
}

/// The type of a slot, or of slot 0 where the slot does not exist.
pub open spec fn slot_type(vars: BindingsView, slot: usize) -> NativeType {
    if slot < vars.types.len() {
        vars.types[slot as int]
    } else {
        NativeType::I64
    }
}

/// The instructions that queue the values of `slots` as call arguments.
pub open spec fn argument_ops(slots: Seq<usize>) -> Seq<NativeOp> {
    Seq::new(slots.len(), |i: int| NativeOp::Argument { src: slots[i] })
}

/// The instructions that print the first `n` of `slots`: each value by the
/// routine of its type, with a separator before every value but the first.
pub open spec fn print_ops(vars: BindingsView, slots: Seq<usize>, n: int) -> Seq<NativeOp>
    decreases n,
{
    if n <= 0 {
        Seq::empty()
    } else {
        let before = print_ops(vars, slots, n - 1);
        let separated = if n > 1 {
            before.push(NativeOp::CallRuntime { routine: RuntimeFn::PrintSeparator, dst: None })
        } else {
            before
        };
        separated.push(NativeOp::Argument { src: slots[n - 1] }).push(
            NativeOp::CallRuntime {
                routine: print_routine(slot_type(vars, slots[n - 1])),
                dst: None,
            },
        )
    }
}

/// The size in bytes of what the destination of an instruction points to.
pub open spec fn element_size(scope: Scope, dest: Option<ParamView>) -> u8 {
    match dest {
        Some(d) => match d.ty.pointee_type() {
            Some(t) => t.size(scope.pointer_bytes),
            None => 0,
        },
        None => 0,
    }
}

/// The native type of the destination of an instruction.
pub open spec fn dest_type(dest: Option<ParamView>) -> NativeType {
    match dest {
        Some(d) => d.ty.native_type(),
        None => NativeType::I64,
    }
}

/// The native block of a label, or block 0 for a label without one.
pub open spec fn target_or_zero(scope: Scope, label: Seq<char>) -> usize {
    match scope.label_target(label) {
        Some(t) => t,
        None => 0,
    }
}

/// The native instructions of a well-shaped instruction whose names all
/// resolve.
pub open spec fn instr_ops(scope: Scope, instr: InstrView) -> Seq<NativeOp> {
    let a = arg_slots(scope.vars, instr.args);
    let d = dest_slot(scope.vars, instr.dest);
    match shape_of(instr.op) {
        Shape::Constant => seq![
            NativeOp::Constant { dst: d, ty: dest_type(instr.dest), value: instr.value.unwrap() },
        ],
        Shape::Binary(op) => seq![NativeOp::Binary { op, dst: d, lhs: a[0], rhs: a[1] }],
        Shape::Compare(domain, relation) => seq![
            NativeOp::Compare { domain, relation, dst: d, lhs: a[0], rhs: a[1] },
        ],
        Shape::Not => seq![NativeOp::Not { dst: d, src: a[0] }],
        Shape::Copy => seq![NativeOp::Copy { dst: d, src: a[0] }],
        Shape::CharToInt => seq![NativeOp::CharToInt { dst: d, src: a[0] }],
        Shape::IntToChar => seq![NativeOp::IntToChar { dst: d, src: a[0] }],
        Shape::Load => seq![NativeOp::Load { dst: d, ptr: a[0], ty: dest_type(instr.dest) }],
        Shape::Store => seq![
            NativeOp::Store { ptr: a[0], src: a[1], ty: slot_type(scope.vars, a[1]) },
        ],
        Shape::PointerAdd => seq![
            NativeOp::PointerAdd {
                dst: d,
                ptr: a[0],
                offset: a[1],
                scale: element_size(scope, instr.dest),
            },
        ],
        Shape::Allocate => seq![
            NativeOp::Argument { src: a[0] },
            NativeOp::Immediate { value: element_size(scope, instr.dest) as i64 },
            NativeOp::CallRuntime { routine: RuntimeFn::Allocate, dst: Some(d) },
        ],
        Shape::Release => seq![
            NativeOp::Argument { src: a[0] },
            NativeOp::CallRuntime { routine: RuntimeFn::Release, dst: None },
        ],
        Shape::Call => argument_ops(a).push(
            NativeOp::Call {
                callee: scope.callee(instr.funcs[0]).unwrap(),
                dst: if instr.dest is Some {
                    Some(d)
                } else {
                    None
                },
            },
        ),
        Shape::Print => print_ops(scope.vars, a, a.len() as int).push(
            NativeOp::CallRuntime { routine: RuntimeFn::PrintEnd, dst: None },
        ),
        Shape::Nop => Seq::empty(),
        Shape::Jump => seq![NativeOp::Jump { target: target_or_zero(scope, instr.labels[0]) }],
        Shape::Branch => seq![
            NativeOp::Branch {
                cond: a[0],
                if_true: target_or_zero(scope, instr.labels[0]),
                if_false: target_or_zero(scope, instr.labels[1]),
            },
        ],
        Shape::Return => seq![
            NativeOp::Return {
                src: if a.len() == 1 {
                    Some(a[0])
                } else {
                    None
                },
                ty: scope.ret,
            },
        ],
    }
}

/// Whether a call agrees with the signature of its callee: it passes as many
/// arguments as the callee has parameters, and has a destination only if the
/// callee returns a value.
pub open spec fn call_fits(scope: Scope, instr: InstrView, callee: usize) -> bool {
    &&& callee < scope.signatures.len()
    &&& instr.args.len() == scope.signatures[callee as int].params.len()
    &&& instr.dest is Some ==> scope.signatures[callee as int].ret is Some
}

/// Whether every label that an instruction names is carried by a block.
pub open spec fn labels_resolve(scope: Scope, instr: InstrView) -> bool {
    forall|i: int|
        0 <= i < instr.labels.len() ==> (#[trigger] scope.label_target(instr.labels[i])) is Some
}

/// What lowering one instruction gives: its native instructions, or the
/// first reason why it has none. Its shape is tested first, then its callee,
/// then its labels, then its variables.
pub open spec fn lower_instr_spec(scope: Scope, instr: InstrView) -> Result<
    Seq<NativeOp>,
    LowerErrorKind,
> {
    if !well_shaped(instr) {
        Err(LowerErrorKind::Malformed)
    } else if shape_of(instr.op) == Shape::Call && scope.callee(instr.funcs[0]) is None {
        Err(LowerErrorKind::UndefinedFunction)
    } else if shape_of(instr.op) == Shape::Call && !call_fits(
        scope,
        instr,
        scope.callee(instr.funcs[0]).unwrap(),
    ) {
        Err(LowerErrorKind::Malformed)
    } else if (shape_of(instr.op) == Shape::Jump || shape_of(instr.op) == Shape::Branch)
        && !labels_resolve(scope, instr) {
        Err(LowerErrorKind::UndefinedLabel)
    } else if !dest_bound(scope.vars, instr.dest) || !args_bound(scope.vars, instr.args) {
        Err(LowerErrorKind::UndefinedVariable)
    } else {
        Ok(instr_ops(scope, instr))
    }
}

/// The block that a well-shaped prefix of a block's instructions lowers to:
/// the native instructions of the first `n` instructions of block `block`, or
/// the first failure among them. A jump, branch or return may only be the last
/// instruction of its block.
pub open spec fn lower_prefix(scope: Scope, instrs: Seq<InstrView>, block: usize, n: int) -> Result<
    Seq<NativeOp>,
    LowerError,
>
    decreases n,
{
    if n <= 0 {
        Ok(Seq::empty())
    } else {
        match lower_prefix(scope, instrs, block, n - 1) {
            Err(e) => Err(e),
            Ok(ops) => if instrs[n - 1].op.is_terminator() && n < instrs.len() {
                Err(
                    LowerError {
                        kind: LowerErrorKind::MisplacedTerminator,
                        block,
                        instr: (n - 1) as usize,
                    },
                )
            } else {
                match lower_instr_spec(scope, instrs[n - 1]) {
                    Err(kind) => Err(LowerError { kind, block, instr: (n - 1) as usize }),
                    Ok(more) => Ok(ops + more),
                }
            },
        }
    }
}

/// A failure among the first instructions of a block is the failure of every
/// longer prefix.
pub proof fn lemma_prefix_failure_stays(
    scope: Scope,
    instrs: Seq<InstrView>,
    block: usize,
    n: int,
    m: int,
)
    requires
        n <= m,
        lower_prefix(scope, instrs, block, n) is Err,
    ensures
        lower_prefix(scope, instrs, block, m) == lower_prefix(scope, instrs, block, n),
    decreases m - n,
{
    if n < m {
        lemma_prefix_failure_stays(scope, instrs, block, n, m - 1);
    }
}

/// What closes a block whose instructions do not end in a jump, branch or
/// return: control falls through to the next block, and the last block of a
/// function returns.
pub open spec fn block_end(
    instrs: Seq<InstrView>,
    block: usize,
    blocks: int,
    ret: Option<NativeType>,
) -> Seq<NativeOp> {
    if instrs.len() > 0 && instrs.last().op.is_terminator() {
        Seq::empty()
    } else if block + 1 < blocks {
        seq![NativeOp::Jump { target: (block + 2) as usize }]
    } else {
        seq![NativeOp::Return { src: None, ty: ret }]
    }
}

/// The native block of the Bril block at position `block`.
pub open spec fn lower_block_spec(scope: Scope, blocks: Seq<BlockView>, block: usize) -> Result<
    Seq<NativeOp>,
    LowerError,
> {
    let instrs = blocks[block as int].instrs;
    match lower_prefix(scope, instrs, block, instrs.len() as int) {
        Err(e) => Err(e),
        Ok(ops) => Ok(ops + block_end(instrs, block, blocks.len() as int, scope.ret)),
    }
}

/// The native blocks of the first `n` Bril blocks, or the first failure in
/// program order.
pub open spec fn lower_blocks_spec(scope: Scope, blocks: Seq<BlockView>, n: int) -> Result<
    Seq<Seq<NativeOp>>,
    LowerError,
>
    decreases n,
{
    if n <= 0 {
        Ok(Seq::empty())
    } else {
        match lower_blocks_spec(scope, blocks, n - 1) {
            Err(e) => Err(e),
            Ok(done) => match lower_block_spec(scope, blocks, (n - 1) as usize) {
                Err(e) => Err(e),
                Ok(b) => Ok(done.push(b)),
            },
        }
    }
}

/// A failure among the first blocks of a function is the failure of every
/// longer prefix.
pub proof fn lemma_blocks_failure_stays(scope: Scope, blocks: Seq<BlockView>, n: int, m: int)
    requires
        n <= m,
        lower_blocks_spec(scope, blocks, n) is Err,
    ensures
        lower_blocks_spec(scope, blocks, m) == lower_blocks_spec(scope, blocks, n),
    decreases m - n,
{
    if n < m {
        lemma_blocks_failure_stays(scope, blocks, n, m - 1);
    }
}

/// The entry block: it binds each formal parameter to its slot, then passes
/// control to the first Bril block. A function without blocks returns at once.
pub open spec fn entry_block(
    vars: BindingsView,
    params: Seq<ParamView>,
    blocks: int,
    ret: Option<NativeType>,
) -> Seq<NativeOp> {
    Seq::new(
        params.len(),
        |i: int| NativeOp::Parameter { dst: slot_or_zero(vars, params[i].name), index: i as usize },
    ).push(
        if blocks > 0 {
            NativeOp::Jump { target: 1 }
        } else {
            NativeOp::Return { src: None, ty: ret }
        },
    )
}

/// The machine type of an optional Bril type.
pub open spec fn native_ret(ret: Option<BrilType>) -> Option<NativeType> {
    match ret {
        Some(t) => Some(t.native_type()),
        None => None,
    }
}

/// The native signature that a function is declared with.
pub open spec fn signature_of(func: FunctionView) -> SignatureView {
    SignatureView {
        params: Seq::new(func.params.len(), |i: int| func.params[i].ty.native_type()),
        ret: native_ret(func.ret),
    }
}

/// The scope in which the body of a function is lowered.
pub open spec fn scope_of(func: FunctionView, table: Seq<DeclView>, pointer_bytes: u8) -> Scope {
    Scope {
        vars: BindingsView::of_function(func),
        labels: block_labels(func.blocks),
        callees: decl_keys(table),
        signatures: decl_signatures(table),
        ret: native_ret(func.ret),
        pointer_bytes,
    }
}

/// The plan of a function, or the first failure in program order.
pub open spec fn lower_function_spec(func: FunctionView, table: Seq<DeclView>, pointer_bytes: u8) -> Result<
    PlanView,
    LowerError,
> {
    let scope = scope_of(func, table, pointer_bytes);
    match lower_blocks_spec(scope, func.blocks, func.blocks.len() as int) {
        Err(e) => Err(e),
        Ok(blocks) => Ok(
            PlanView {
                signature: signature_of(func),
                slots: scope.vars.types,
                blocks: seq![
                    entry_block(scope.vars, func.params, func.blocks.len() as int, scope.ret),
                ] + blocks,
            },
        ),
    }
}

/// The tables that the instructions of one function are lowered against.
pub struct Context<'a> {
    pub vars: &'a Bindings,
    pub blocks: &'a Vec<BasicBlock>,
    pub table: &'a Vec<FuncDecl>,
    pub ret: Option<NativeType>,
    pub pointer_bytes: u8,
}

impl<'a> View for Context<'a> {
    type V = Scope;

    open spec fn view(&self) -> Scope {
        Scope {
            vars: self.vars@,
            labels: block_labels(block_views(self.blocks@)),
            callees: decl_keys(decl_views(self.table@)),
            signatures: decl_signatures(decl_views(self.table@)),
            ret: self.ret,
            pointer_bytes: self.pointer_bytes,
        }
    }
}

/// The position of the first declaration of a kind under a name.
pub open spec fn find_decl_spec(table: Seq<DeclView>, kind: DeclKind, name: Seq<char>) -> Option<
    usize,
> {
    match first_index(decl_keys(table), (kind, name)) {
        Some(i) => Some(i as usize),
        None => None,
    }
}

/// Finds the first declaration of a kind under a name.
pub fn find_decl(table: &Vec<FuncDecl>, kind: DeclKind, name: &String) -> (r: Option<usize>)
    ensures
        r == find_decl_spec(decl_views(table@), kind, name@),
        r matches Some(c) ==> c < table@.len() && table@[c as int].kind == kind && table@[c as int].name@
            == name@,
        r is None ==> forall|i: int|
            0 <= i < table@.len() ==> !(table@[i].kind == kind && table@[i].name@ == name@),
{
    let ghost keys = decl_keys(decl_views(table@));
    let mut i: usize = 0;
    while i < table.len()
        invariant
            i <= table.len(),
            keys == decl_keys(decl_views(table@)),
            first_index(keys, (kind, name@)) == first_index_from(keys, (kind, name@), i as int),
            forall|k: int| 0 <= k < i ==> keys[k] != (kind, name@),
        decreases table.len() - i,
    {
        if table[i].kind == kind && table[i].name == *name {
            return Some(i);
        }
        i += 1;
    }
    assert forall|k: int| 0 <= k < table@.len() implies !(table@[k].kind == kind && table@[k].name@
        == name@) by {
        assert(keys[k] != (kind, name@));
    }
    None
}

/// The routine that prints a value of a machine type.
pub fn print_routine_for(ty: NativeType) -> (r: RuntimeFn)
    ensures
        r == print_routine(ty),
{
    match ty {
        NativeType::I64 => RuntimeFn::PrintInt,
        NativeType::I8 => RuntimeFn::PrintBool,
        NativeType::F64 => RuntimeFn::PrintFloat,
        NativeType::I32 => RuntimeFn::PrintChar,
        NativeType::Ptr => RuntimeFn::PrintPointer,
    }
}

/// Whether an instruction has the parts that its operation needs.
pub fn is_well_shaped(instr: &Instruction) -> (r: bool)
    ensures
        r == well_shaped(instr@),
{
    let with_dest: bool = instr.dest.is_some();
    let pointer_dest: bool = match &instr.dest {
        Some(d) => d.ty.pointee().is_some(),
        None => false,
    };
    let args: usize = instr.args.len();
    match classify(instr.op) {
        Shape::Constant => with_dest && instr.value.is_some(),
        Shape::Binary(_) => with_dest && args == 2,
        Shape::Compare(_, _) => with_dest && args == 2,
        Shape::Not => with_dest && args == 1,
        Shape::Copy => with_dest && args == 1,
        Shape::CharToInt => with_dest && args == 1,
        Shape::IntToChar => with_dest && args == 1,
        Shape::Load => with_dest && args == 1,
        Shape::Allocate => with_dest && args == 1 && pointer_dest,
        Shape::PointerAdd => with_dest && args == 2 && pointer_dest,
        Shape::Call => instr.funcs.len() == 1,
        Shape::Print => true,
        Shape::Nop => true,
        Shape::Jump => instr.labels.len() == 1,
        Shape::Branch => args == 1 && instr.labels.len() == 2,
        Shape::Return => args <= 1,
        Shape::Release => args == 1,
        Shape::Store => args == 2,
    }
}

impl<'a> Context<'a> {
    /// The native block that a label stands for.
    pub fn label_target(&self, label: &String) -> (r: Option<usize>)
        ensures
            r == self@.label_target(label@),
            r matches Some(t) ==> 1 <= t <= self.blocks@.len(),
    {
        let ghost labels = block_labels(block_views(self.blocks@));
        let mut i: usize = 0;
        while i < self.blocks.len()
            invariant
                i <= self.blocks.len(),
                labels == block_labels(block_views(self.blocks@)),
                first_index(labels, Some(label@)) == first_index_from(
                    labels,
                    Some(label@),
                    i as int,
                ),
            decreases self.blocks.len() - i,
        {
            let found: bool = match &self.blocks[i].label {
                Some(l) => *l == *label,
                None => false,
            };
            assert(found == (labels[i as int] == Some(label@)));
            if found {
                return Some(i + 1);
            }
            i += 1;
        }
        None
    }

    /// The position of a callee in the table of declarations.
    pub fn callee(&self, name: &String) -> (r: Option<usize>)
        ensures
            r == self@.callee(name@),
            r matches Some(c) ==> c < self.table@.len(),
    {
        find_decl(self.table, DeclKind::Function, name)
    }

    /// The slots of a list of operand names, if every name has one.
    pub fn resolve_args(&self, args: &Vec<String>) -> (r: Option<Vec<usize>>)
        ensures
            match r {
                Some(slots) => args_bound(self@.vars, views(args@)) && slots@ == arg_slots(
                    self@.vars,
                    views(args@),
                ) && forall|i: int| 0 <= i < slots@.len() ==> slots@[i] < self@.vars.types.len(),
                None => !args_bound(self@.vars, views(args@)),
            },
    {
        let mut slots: Vec<usize> = Vec::new();
        let mut i: usize = 0;
        while i < args.len()
            invariant
                i <= args.len(),
                slots@.len() == i,
                forall|k: int|
                    0 <= k < i ==> (#[trigger] self@.vars.slot(views(args@)[k])) is Some,
                forall|k: int|
                    0 <= k < i ==> slots@[k] == slot_or_zero(self@.vars, views(args@)[k]),
                forall|k: int| 0 <= k < i ==> slots@[k] < self@.vars.types.len(),
            decreases args.len() - i,
        {
            match self.vars.slot(&args[i]) {
                Some(s) => {
                    slots.push(s);
                },
                None => {
                    assert(self@.vars.slot(views(args@)[i as int]) is None);
                    return None;
                },
            }
            i += 1;
        }
        assert(slots@ =~= arg_slots(self@.vars, views(args@)));
        Some(slots)
    }

    /// The size in bytes of what the destination of an instruction points to.
    pub fn element_bytes(&self, instr: &Instruction) -> (r: u8)
        ensures
            r == element_size(self@, instr@.dest),
    {
        match &instr.dest {
            Some(d) => match d.ty.pointee() {
                Some(t) => t.bytes(self.pointer_bytes),
                None => 0,
            },
            None => 0,
        }
    }

    /// Queues the values of `slots` as call arguments.
    fn push_arguments(slots: &Vec<usize>, out: &mut Vec<NativeOp>)
        ensures
            final(out)@ == old(out)@ + argument_ops(slots@),
    {
        let ghost base = out@;
        let mut i: usize = 0;
        while i < slots.len()
            invariant
                i <= slots.len(),
                out@ == base + argument_ops(slots@.take(i as int)),
            decreases slots.len() - i,
        {
            out.push(NativeOp::Argument { src: slots[i] });
            assert(out@ =~= base + argument_ops(slots@.take(i + 1)));
            i += 1;
        }
        assert(slots@.take(slots@.len() as int) =~= slots@);
    }

    /// Prints the values of `slots`, separated, without the end of the line.
    fn push_prints(&self, slots: &Vec<usize>, out: &mut Vec<NativeOp>)
        requires
            forall|i: int| 0 <= i < slots@.len() ==> slots@[i] < self@.vars.types.len(),
        ensures
            final(out)@ == old(out)@ + print_ops(self@.vars, slots@, slots@.len() as int),
    {
        let ghost base = out@;
        let mut i: usize = 0;
        while i < slots.len()
            invariant
                i <= slots.len(),
                forall|k: int| 0 <= k < slots@.len() ==> slots@[k] < self@.vars.types.len(),
                out@ == base + print_ops(self@.vars, slots@, i as int),
            decreases slots.len() - i,
        {
            if i > 0 {
                out.push(NativeOp::CallRuntime { routine: RuntimeFn::PrintSeparator, dst: None });
            }
            out.push(NativeOp::Argument { src: slots[i] });
            let routine = print_routine_for(self.vars.slot_type(slots[i]));
            out.push(NativeOp::CallRuntime { routine, dst: None });
            assert(out@ =~= base + print_ops(self@.vars, slots@, i + 1));
            i += 1;
        }
    }

    /// Lowers one instruction and appends its native instructions to `out`.
    /// On a failure `out` is left as it was.
    pub fn lower_instr(&self, instr: &Instruction, out: &mut Vec<NativeOp>) -> (r: Result<
        (),
        LowerErrorKind,
    >)
        ensures
            match lower_instr_spec(self@, instr@) {
                Ok(ops) => r is Ok && final(out)@ == old(out)@ + ops,
                Err(kind) => r == Err::<(), LowerErrorKind>(kind) && final(out)@ == old(out)@,
            },
    {
        let shape = classify(instr.op);
        if !is_well_shaped(instr) {
            return Err(LowerErrorKind::Malformed);
        }
        let mut callee: usize = 0;
        let mut if_true: usize = 0;
        let mut if_false: usize = 0;
        match shape {
            Shape::Call => {
                match self.callee(&instr.funcs[0]) {
                    None => {
                        return Err(LowerErrorKind::UndefinedFunction);
                    },
                    Some(c) => {
                        let signature = &self.table[c].signature;
                        if instr.args.len() != signature.params.len() || (instr.dest.is_some()
                            && signature.ret.is_none()) {
                            return Err(LowerErrorKind::Malformed);
                        }
                        callee = c;
                    },
                }
            },
            Shape::Jump => {
                match self.label_target(&instr.labels[0]) {
                    None => {
                        return Err(LowerErrorKind::UndefinedLabel);
                    },
                    Some(t) => {
                        if_true = t;
                    },
                }
            },
            Shape::Branch => {
                match self.label_target(&instr.labels[0]) {
                    None => {
                        return Err(LowerErrorKind::UndefinedLabel);
                    },
                    Some(t) => {
                        if_true = t;
                    },
                }
                match self.label_target(&instr.labels[1]) {
                    None => {
                        return Err(LowerErrorKind::UndefinedLabel);
                    },
                    Some(t) => {
                        if_false = t;
                    },
                }
            },
            _ => {},
        }
        let d: usize = match &instr.dest {
            Some(p) => match self.vars.slot(&p.name) {
                Some(s) => s,
                None => {
                    return Err(LowerErrorKind::UndefinedVariable);
                },
            },
            None => 0,
        };
        let a = match self.resolve_args(&instr.args) {
            Some(a) => a,
            None => {
                return Err(LowerErrorKind::UndefinedVariable);
            },
        };
        let ty: NativeType = match &instr.dest {
            Some(p) => p.ty.native(),
            None => NativeType::I64,
        };
        let ghost base = out@;
        match shape {
            Shape::Constant => {
                match instr.value {
                    Some(value) => {
                        out.push(NativeOp::Constant { dst: d, ty, value });
                    },
                    None => {},
                }
            },
            Shape::Binary(op) => {
                out.push(NativeOp::Binary { op, dst: d, lhs: a[0], rhs: a[1] });
            },
            Shape::Compare(domain, relation) => {
                out.push(NativeOp::Compare { domain, relation, dst: d, lhs: a[0], rhs: a[1] });
            },
            Shape::Not => {
                out.push(NativeOp::Not { dst: d, src: a[0] });
            },
            Shape::Copy => {
                out.push(NativeOp::Copy { dst: d, src: a[0] });
            },
            Shape::CharToInt => {
                out.push(NativeOp::CharToInt { dst: d, src: a[0] });
            },
            Shape::IntToChar => {
                out.push(NativeOp::IntToChar { dst: d, src: a[0] });
            },
            Shape::Load => {
                out.push(NativeOp::Load { dst: d, ptr: a[0], ty });
            },
            Shape::Store => {
                let stored = self.vars.slot_type(a[1]);
                out.push(NativeOp::Store { ptr: a[0], src: a[1], ty: stored });
            },
            Shape::PointerAdd => {
                let scale = self.element_bytes(instr);
                out.push(NativeOp::PointerAdd { dst: d, ptr: a[0], offset: a[1], scale });
            },
            Shape::Allocate => {
                let scale = self.element_bytes(instr);
                out.push(NativeOp::Argument { src: a[0] });
                out.push(NativeOp::Immediate { value: scale as i64 });
                out.push(NativeOp::CallRuntime { routine: RuntimeFn::Allocate, dst: Some(d) });
            },
            Shape::Release => {
                out.push(NativeOp::Argument { src: a[0] });
                out.push(NativeOp::CallRuntime { routine: RuntimeFn::Release, dst: None });
            },
            Shape::Call => {
                Self::push_arguments(&a, out);
                let dst = if instr.dest.is_some() {
                    Some(d)
                } else {
                    None
                };
                out.push(NativeOp::Call { callee, dst });
            },
            Shape::Print => {
                self.push_prints(&a, out);
                out.push(NativeOp::CallRuntime { routine: RuntimeFn::PrintEnd, dst: None });
            },
            Shape::Nop => {},
            Shape::Jump => {
                out.push(NativeOp::Jump { target: if_true });
            },
            Shape::Branch => {
                out.push(NativeOp::Branch { cond: a[0], if_true, if_false });
            },
            Shape::Return => {
                let src = if a.len() == 1 {
                    Some(a[0])
                } else {
                    None
                };
                out.push(NativeOp::Return { src, ty: self.ret });
            },
        }
        assert(out@ =~= base + instr_ops(self@, instr@));
        Ok(())
    }
}

impl<'a> Context<'a> {
    /// Lowers the Bril block at position `block` into one native block.
    pub fn lower_block(&self, block: usize) -> (r: Result<Vec<NativeOp>, LowerError>)
        requires
            block < self.blocks@.len(),
        ensures
            match lower_block_spec(self@, block_views(self.blocks@), block) {
                Ok(ops) => r is Ok && r.unwrap()@ == ops,
                Err(e) => r == Err::<Vec<NativeOp>, LowerError>(e),
            },
            block_views(self.blocks@)[block as int].instrs.len() <= usize::MAX,
    {
        let instrs = &self.blocks[block].instrs;
        assert(block_views(self.blocks@)[block as int].instrs.len() == instrs@.len());
        let mut out: Vec<NativeOp> = Vec::new();
        let mut closed: bool = false;
        let mut i: usize = 0;
        while i < instrs.len()
            invariant
                i <= instrs.len(),
                block < self.blocks@.len(),
                instrs == &self.blocks@[block as int].instrs,
                lower_prefix(self@, instr_views(instrs@), block, i as int) == Ok::<
                    Seq<NativeOp>,
                    LowerError,
                >(out@),
                closed == (i > 0 && instrs@[i - 1].op.is_terminator()),
            decreases instrs.len() - i,
        {
            let last: bool = instrs[i].op.ends_block();
            if last && i + 1 < instrs.len() {
                proof {
                    lemma_prefix_failure_stays(
                        self@,
                        instr_views(instrs@),
                        block,
                        i + 1,
                        instrs@.len() as int,
                    );
                }
                return Err(
                    LowerError { kind: LowerErrorKind::MisplacedTerminator, block, instr: i },
                );
            }
            match self.lower_instr(&instrs[i], &mut out) {
                Ok(()) => {},
                Err(kind) => {
                    proof {
                        lemma_prefix_failure_stays(
                            self@,
                            instr_views(instrs@),
                            block,
                            i + 1,
                            instrs@.len() as int,
                        );
                    }
                    return Err(LowerError { kind, block, instr: i });
                },
            }
            closed = last;
            i += 1;
        }
        if !closed {
            let count: usize = self.blocks.len();
            if block < count - 1 {
                out.push(NativeOp::Jump { target: block + 2 });
            } else {
                out.push(NativeOp::Return { src: None, ty: self.ret });
            }
        }
        assert(out@ =~= lower_prefix(
            self@,
            instr_views(instrs@),
            block,
            instrs@.len() as int,
        ).unwrap() + block_end(instr_views(instrs@), block, self.blocks@.len() as int, self.ret));
        Ok(out)
    }
}

/// The machine type of an optional Bril type.
pub fn native_of(ret: &Option<BrilType>) -> (r: Option<NativeType>)
    ensures
        r == native_ret(*ret),
{
    match ret {
        Some(t) => Some(t.native()),
        None => None,
    }
}

/// The native signature that a function is declared with.
pub fn signature(func: &Function) -> (r: Signature)
    ensures
        r@ == signature_of(func@),
{
    let mut params: Vec<NativeType> = Vec::new();
    let mut i: usize = 0;
    while i < func.params.len()
        invariant
            i <= func.params.len(),
            params@.len() == i,
            forall|k: int| 0 <= k < i ==> params@[k] == func.params@[k].ty.native_type(),
        decreases func.params.len() - i,
    {
        params.push(func.params[i].ty.native());
        i += 1;
    }
    let r = Signature { params, ret: native_of(&func.ret) };
    assert(r@.params =~= signature_of(func@).params);
    r
}

/// Lowers one function against the table of declared functions, for a target
/// whose addresses take `pointer_bytes` bytes.
///
/// The plan has one native block for each Bril block, after the entry block,
/// and one slot for each distinct name that the function declares. Lowering
/// fails at the first instruction, in program order, that is malformed, that
/// ends a block before the block's end, or that names a function, a label or a
/// variable that nothing defines.
pub fn lower_function(func: &Function, table: &Vec<FuncDecl>, pointer_bytes: u8) -> (r: Result<
    FunctionPlan,
    LowerError,
>)
    ensures
        match lower_function_spec(func@, decl_views(table@), pointer_bytes) {
            Ok(plan) => r is Ok && r.unwrap()@ == plan,
            Err(e) => r == Err::<FunctionPlan, LowerError>(e),
        },
        r is Ok ==> function_fits(func@),
{
    let vars = Bindings::of_function(func);
    let names: usize = vars.len();
    assert(BindingsView::of_function(func@).names.len() == names);
    let ret = native_of(&func.ret);
    let ctx = Context { vars: &vars, blocks: &func.blocks, table, ret, pointer_bytes };
    assert(ctx@ == scope_of(func@, decl_views(table@), pointer_bytes));
    let mut entry: Vec<NativeOp> = Vec::new();
    let mut i: usize = 0;
    while i < func.params.len()
        invariant
            i <= func.params.len(),
            entry@.len() == i,
            forall|k: int|
                0 <= k < i ==> entry@[k] == (NativeOp::Parameter {
                    dst: slot_or_zero(vars@, func@.params[k].name),
                    index: k as usize,
                }),
        decreases func.params.len() - i,
    {
        let dst: usize = match vars.slot(&func.params[i].name) {
            Some(s) => s,
            None => 0,
        };
        entry.push(NativeOp::Parameter { dst, index: i });
        i += 1;
    }
    if func.blocks.len() > 0 {
        entry.push(NativeOp::Jump { target: 1 });
    } else {
        entry.push(NativeOp::Return { src: None, ty: ret });
    }
    assert(entry@ =~= entry_block(vars@, func@.params, func@.blocks.len() as int, ret));
    let mut blocks: Vec<Vec<NativeOp>> = Vec::new();
    blocks.push(entry);
    let mut k: usize = 0;
    while k < func.blocks.len()
        invariant
            k <= func.blocks.len(),
            ctx@ == scope_of(func@, decl_views(table@), pointer_bytes),
            ctx.blocks@ == func.blocks@,
            ctx.ret == ret,
            forall|b: int| 0 <= b < k ==> (#[trigger] func@.blocks[b]).instrs.len() <= usize::MAX,
            match lower_blocks_spec(ctx@, func@.blocks, k as int) {
                Ok(done) => blocks_view(blocks@) == seq![
                    entry_block(vars@, func@.params, func@.blocks.len() as int, ret),
                ] + done,
                Err(_) => false,
            },
        decreases func.blocks.len() - k,
    {
        match ctx.lower_block(k) {
            Ok(ops) => {
                let ghost before = blocks_view(blocks@);
                let ghost lowered = ops@;
                blocks.push(ops);
                assert(blocks_view(blocks@) =~= before.push(lowered));
                assert(before.push(lowered) =~= seq![
                    entry_block(vars@, func@.params, func@.blocks.len() as int, ret),
                ] + lower_blocks_spec(ctx@, func@.blocks, k as int).unwrap().push(lowered));
            },
            Err(e) => {
                proof {
                    lemma_blocks_failure_stays(
                        ctx@,
                        func@.blocks,
                        k + 1,
                        func@.blocks.len() as int,
                    );
                }
                return Err(e);
            },
        }
        k += 1;
    }
    let mut slots: Vec<NativeType> = Vec::new();
    let mut j: usize = 0;
    while j < vars.len()
        invariant
            j <= vars@.types.len(),
            slots@.len() == j,
            forall|n: int| 0 <= n < j ==> slots@[n] == vars@.types[n],
        decreases vars@.types.len() - j,
    {
        slots.push(vars.slot_type(j));
        j += 1;
    }
    assert(slots@ =~= vars@.types);
    Ok(FunctionPlan { signature: signature(func), slots, blocks })
}

} // verus!
