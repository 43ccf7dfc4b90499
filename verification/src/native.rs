//! The native instruction plan: what a function looks like once every Bril
//! name has been resolved to a slot, a block or a declared function.
//!
//! A plan is plain data. Its instructions name variables by slot index,
//! blocks by block index and callees by their index in the table of declared
//! functions, so a backend can replay it without looking anything up.

use vstd::prelude::*;

verus! {

/// The machine types that values of a plan have.
#[derive(Clone, Copy, Debug, PartialEq, Eq, Structural)]
pub enum NativeType {
    /// An 8-bit flag.
    I8,
    /// A 32-bit code point.
    I32,
    /// A 64-bit integer.
    I64,
    /// A 64-bit floating-point number.
    F64,
    /// An address of the target's pointer width.
    Ptr,
}

impl NativeType {
    /// The number of bytes a value of the type takes in memory on a target
    /// whose addresses take `pointer_bytes` bytes.
    pub open spec fn size(self, pointer_bytes: u8) -> u8 {
        match self {
            NativeType::I8 => 1,
            NativeType::I32 => 4,
            NativeType::I64 => 8,
            NativeType::F64 => 8,
            NativeType::Ptr => pointer_bytes,
        }
    }

    pub fn bytes(self, pointer_bytes: u8) -> (r: u8)
        ensures
            r == self.size(pointer_bytes),
    {
        match self {
            NativeType::I8 => 1,
            NativeType::I32 => 4,
            NativeType::I64 => 8,
            NativeType::F64 => 8,
            NativeType::Ptr => pointer_bytes,
        }
    }
}

/// A typed constant. A floating-point constant is held as the 64 bits of its
/// IEEE 754 binary64 encoding.
#[derive(Clone, Copy, Debug, PartialEq, Eq, Structural)]
pub enum Literal {
    Int(i64),
    Bool(bool),
    Float(u64),
    Char(char),
}

/// Two-operand instructions that compute a value of their operands' type.
#[derive(Clone, Copy, Debug, PartialEq, Eq, Structural)]
pub enum BinaryOp {
    /// Wrapping 64-bit addition.
    Iadd,
    /// Wrapping 64-bit subtraction.
    Isub,
    /// Wrapping 64-bit multiplication.
    Imul,
    /// Signed 64-bit division.
    Sdiv,
    /// Conjunction of two flags.
    Band,
    /// Disjunction of two flags.
    Bor,
    Fadd,
    Fsub,
    Fmul,
    Fdiv,
}

/// The relation that a comparison tests.
#[derive(Clone, Copy, Debug, PartialEq, Eq, Structural)]
pub enum Relation {
    Equal,
    Less,
    Greater,
    LessOrEqual,
    GreaterOrEqual,
}

/// What kind of values a comparison is made on.
#[derive(Clone, Copy, Debug, PartialEq, Eq, Structural)]
pub enum Domain {
    /// Signed 64-bit integers.
    Integer,
    /// Floating-point numbers.
    Floating,
    /// Code points, ordered as unsigned 32-bit integers.
    Character,
}

/// The routines of the runtime support library that compiled code calls.
#[derive(Clone, Copy, Debug, PartialEq, Eq, Structural)]
pub enum RuntimeFn {
    PrintInt,
    PrintBool,
    PrintFloat,
    PrintChar,
    PrintPointer,
    /// Prints the space between two printed values.
    PrintSeparator,
    /// Prints the newline that ends a printed line.
    PrintEnd,
    /// Takes a count and an element size, returns the address of fresh memory.
    Allocate,
    /// Takes an address that `Allocate` returned.
    Release,
    /// Takes the process's argument count and the expected number of
    /// arguments; ends the process with a diagnostic unless they agree.
    CheckArgumentCount,
    /// Each parser takes the argument vector and a position in it.
    ParseInt,
    ParseBool,
    ParseFloat,
    ParseChar,
}

/// One native instruction. Operands and results are slots; the arguments of
/// a call are queued by `Argument` and `Immediate` instructions and consumed,
/// in the order queued, by the next `Call` or `CallRuntime`.
#[derive(Clone, Copy, Debug, PartialEq, Eq, Structural)]
#[allow(inconsistent_fields)]
pub enum NativeOp {
    /// Binds the slot to the function's parameter at `index`.
    Parameter { dst: usize, index: usize },
    /// Binds the slot to `value` materialized as a value of type `ty`.
    Constant { dst: usize, ty: NativeType, value: Literal },
    Binary { op: BinaryOp, dst: usize, lhs: usize, rhs: usize },
    Compare { domain: Domain, relation: Relation, dst: usize, lhs: usize, rhs: usize },
    /// Negates a flag.
    Not { dst: usize, src: usize },
    /// Binds the slot to the value of another.
    Copy { dst: usize, src: usize },
    /// Extends a code point to a 64-bit integer.
    CharToInt { dst: usize, src: usize },
    /// Narrows a 64-bit integer to a code point.
    IntToChar { dst: usize, src: usize },
    /// Reads a value of type `ty` from the address in `ptr`.
    Load { dst: usize, ptr: usize, ty: NativeType },
    /// Writes the value in `src`, of type `ty`, to the address in `ptr`.
    Store { ptr: usize, src: usize, ty: NativeType },
    /// Advances the address in `ptr` by `offset` elements of `scale` bytes.
    PointerAdd { dst: usize, ptr: usize, offset: usize, scale: u8 },
    /// Reads the value of record `record` of the argument block whose address
    /// is in the slot `block`, as a value of type `ty`: the 64-bit word at
    /// byte offset `16 * record + 8`, narrowed to the width of `ty`.
    Unpack { dst: usize, block: usize, record: usize, ty: NativeType },
    /// Queues the value of a slot as the next call argument.
    Argument { src: usize },
    /// Queues a 64-bit integer constant as the next call argument.
    Immediate { value: i64 },
    /// Calls the declared function at `callee` in the table.
    Call { callee: usize, dst: Option<usize> },
    CallRuntime { routine: RuntimeFn, dst: Option<usize> },
    Jump { target: usize },
    Branch { cond: usize, if_true: usize, if_false: usize },
    /// Returns the value of `src`, converted to `ty`, or nothing.
    Return { src: Option<usize>, ty: Option<NativeType> },
    /// Returns the 32-bit exit status of a process entry point.
    Exit { status: i32 },
}

impl NativeOp {
    /// Whether the instruction ends a block.
    pub open spec fn is_terminator(self) -> bool {
        self is Jump || self is Branch || self is Return || self is Exit
    }
}

/// The native signature of a function.
#[derive(Debug)]
pub struct Signature {
    pub params: Vec<NativeType>,
    pub ret: Option<NativeType>,
}

/// `Signature` as a mathematical value.
pub struct SignatureView {
    pub params: Seq<NativeType>,
    pub ret: Option<NativeType>,
}

impl View for Signature {
    type V = SignatureView;

    open spec fn view(&self) -> SignatureView {
        SignatureView { params: self.params@, ret: self.ret }
    }
}

/// A lowered function: its signature, the type of each slot, and its blocks.
/// Block 0 is the entry block.
#[derive(Debug)]
pub struct FunctionPlan {
    pub signature: Signature,
    pub slots: Vec<NativeType>,
    pub blocks: Vec<Vec<NativeOp>>,
}

/// `FunctionPlan` as a mathematical value.
pub struct PlanView {
    pub signature: SignatureView,
    pub slots: Seq<NativeType>,
    pub blocks: Seq<Seq<NativeOp>>,
}

/// The blocks of a plan, each as a sequence.
pub open spec fn blocks_view(blocks: Seq<Vec<NativeOp>>) -> Seq<Seq<NativeOp>> {
    Seq::new(blocks.len(), |i: int| blocks[i]@)
}

impl View for FunctionPlan {
    type V = PlanView;

    open spec fn view(&self) -> PlanView {
        PlanView {
            signature: self.signature@,
            slots: self.slots@,
            blocks: blocks_view(self.blocks@),
        }
    }
}

/// A copy of a list of plain values.
pub fn copy_of<T: Copy>(items: &Vec<T>) -> (r: Vec<T>)
    ensures
        r@ == items@,
{
    let mut r: Vec<T> = Vec::new();
    let mut i: usize = 0;
    while i < items.len()
        invariant
            i <= items.len(),
            r@ == items@.take(i as int),
        decreases items.len() - i,
    {
        r.push(items[i]);
        assert(r@ =~= items@.take(i + 1));
        i += 1;
    }
    assert(items@.take(items@.len() as int) =~= items@);
    r
}

impl Signature {
    /// A copy of the signature.
    pub fn duplicate(&self) -> (r: Signature)
        ensures
            r@ == self@,
    {
        Signature { params: copy_of(&self.params), ret: self.ret }
    }
}

impl FunctionPlan {
    /// A copy of the plan.
    pub fn duplicate(&self) -> (r: FunctionPlan)
        ensures
            r@ == self@,
    {
        let mut blocks: Vec<Vec<NativeOp>> = Vec::new();
        let mut i: usize = 0;
        while i < self.blocks.len()
            invariant
                i <= self.blocks.len(),
                blocks_view(blocks@) == blocks_view(self.blocks@).take(i as int),
            decreases self.blocks.len() - i,
        {
            let ghost before = blocks_view(blocks@);
            let block = copy_of(&self.blocks[i]);
            blocks.push(block);
            assert(blocks_view(blocks@) =~= before.push(self.blocks@[i as int]@));
            assert(blocks_view(blocks@) =~= blocks_view(self.blocks@).take(i + 1));
            i += 1;
        }
        assert(blocks_view(self.blocks@).take(self.blocks@.len() as int) =~= blocks_view(
            self.blocks@,
        ));
        FunctionPlan {
            signature: self.signature.duplicate(),
            slots: copy_of(&self.slots),
            blocks,
        }
    }
}

} // verus!
