//! The program model: Bril functions as typed, labelled basic blocks.

use crate::native::{Literal, NativeType};
use vstd::prelude::*;
use vstd::std_specs::cmp::PartialEqSpecImpl;

verus! {

/// The types of Bril values.
#[derive(Debug)]
pub enum BrilType {
    Int,
    Bool,
    Float,
    Char,
    /// An address, tagged with the type it points to. The tag only says how
    /// large the pointed-to elements are.
    Pointer(Box<BrilType>),
}

impl BrilType {
    /// The machine type that holds a value of this type.
    pub open spec fn native_type(self) -> NativeType {
        match self {
            BrilType::Int => NativeType::I64,
            BrilType::Bool => NativeType::I8,
            BrilType::Float => NativeType::F64,
            BrilType::Char => NativeType::I32,
            BrilType::Pointer(_) => NativeType::Ptr,
        }
    }

    /// The machine type of what a pointer of this type points to.
    pub open spec fn pointee_type(self) -> Option<NativeType> {
        match self {
            BrilType::Pointer(inner) => Some(inner.native_type()),
            _ => None,
        }
    }

    pub fn native(&self) -> (r: NativeType)
        ensures
            r == self.native_type(),
    {
        match self {
            BrilType::Int => NativeType::I64,
            BrilType::Bool => NativeType::I8,
            BrilType::Float => NativeType::F64,
            BrilType::Char => NativeType::I32,
            BrilType::Pointer(_) => NativeType::Ptr,
        }
    }

    pub fn pointee(&self) -> (r: Option<NativeType>)
        ensures
            r == self.pointee_type(),
    {
        match self {
            BrilType::Pointer(inner) => Some(inner.native()),
            _ => None,
        }
    }

    /// A copy of the type.
    pub fn duplicate(&self) -> (r: BrilType)
        ensures
            r == *self,
        decreases *self,
    {
        match self {
            BrilType::Int => BrilType::Int,
            BrilType::Bool => BrilType::Bool,
            BrilType::Float => BrilType::Float,
            BrilType::Char => BrilType::Char,
            BrilType::Pointer(inner) => BrilType::Pointer(Box::new(inner.duplicate())),
        }
    }

    /// Whether two types are the same.
    pub fn same(&self, other: &BrilType) -> (r: bool)
        ensures
            r == (*self == *other),
        decreases *self,
    {
        match (self, other) {
            (BrilType::Int, BrilType::Int) => true,
            (BrilType::Bool, BrilType::Bool) => true,
            (BrilType::Float, BrilType::Float) => true,
            (BrilType::Char, BrilType::Char) => true,
            (BrilType::Pointer(a), BrilType::Pointer(b)) => a.same(b),
            _ => false,
        }
    }
}

impl Clone for BrilType {
    fn clone(&self) -> (r: BrilType)
        ensures
            r == *self,
    {
        self.duplicate()
    }
}

impl PartialEq for BrilType {
    fn eq(&self, other: &BrilType) -> (r: bool) {
        self.same(other)
    }
}

impl Eq for BrilType {

}

impl PartialEqSpecImpl for BrilType {
    open spec fn obeys_eq_spec() -> bool {
        true
    }

    open spec fn eq_spec(&self, other: &BrilType) -> bool {
        *self == *other
    }
}

/// A name with its declared type: a formal parameter, or the destination of
/// an instruction.
#[derive(Clone, Debug)]
pub struct Param {
    pub name: String,
    pub ty: BrilType,
}

/// `Param` as a mathematical value.
pub struct ParamView {
    pub name: Seq<char>,
    pub ty: BrilType,
}

impl View for Param {
    type V = ParamView;

    open spec fn view(&self) -> ParamView {
        ParamView { name: self.name@, ty: self.ty }
    }
}

/// The view of an optional parameter or destination.
pub open spec fn dest_view(dest: Option<Param>) -> Option<ParamView> {
    match dest {
        Some(d) => Some(d@),
        None => None,
    }
}

/// The views of a list of parameters.
pub open spec fn param_views(params: Seq<Param>) -> Seq<ParamView> {
    Seq::new(params.len(), |i: int| params[i]@)
}

/// The operations of Bril.
#[derive(Clone, Copy, Debug, PartialEq, Eq, Structural)]
pub enum Opcode {
    Const,
    Add,
    Sub,
    Mul,
    Div,
    Eq,
    Lt,
    Gt,
    Le,
    Ge,
    Not,
    And,
    Or,
    Id,
    Fadd,
    Fsub,
    Fmul,
    Fdiv,
    Feq,
    Flt,
    Fgt,
    Fle,
    Fge,
    Ceq,
    Clt,
    Cgt,
    Cle,
    Cge,
    Char2int,
    Int2char,
    Call,
    Print,
    Nop,
    Jmp,
    Br,
    Ret,
    Alloc,
    Free,
    Load,
    Store,
    PtrAdd,
}

impl Opcode {
    /// Whether the operation ends a basic block.
    pub open spec fn is_terminator(self) -> bool {
        self == Opcode::Jmp || self == Opcode::Br || self == Opcode::Ret
    }

    pub fn ends_block(self) -> (r: bool)
        ensures
            r == self.is_terminator(),
    {
        match self {
            Opcode::Jmp => true,
            Opcode::Br => true,
            Opcode::Ret => true,
            _ => false,
        }
    }
}

/// One instruction: an operation, an optional destination, operand names, an
/// optional literal, and the functions and labels it refers to.
#[derive(Clone, Debug)]
pub struct Instruction {
    pub op: Opcode,
    pub dest: Option<Param>,
    pub args: Vec<String>,
    pub funcs: Vec<String>,
    pub labels: Vec<String>,
    pub value: Option<Literal>,
}

/// `Instruction` as a mathematical value.
pub struct InstrView {
    pub op: Opcode,
    pub dest: Option<ParamView>,
    pub args: Seq<Seq<char>>,
    pub funcs: Seq<Seq<char>>,
    pub labels: Seq<Seq<char>>,
    pub value: Option<Literal>,
}

impl View for Instruction {
    type V = InstrView;

    open spec fn view(&self) -> InstrView {
        InstrView {
            op: self.op,
            dest: dest_view(self.dest),
            args: views(self.args@),
            funcs: views(self.funcs@),
            labels: views(self.labels@),
            value: self.value,
        }
    }
}

/// The views of a list of instructions.
pub open spec fn instr_views(instrs: Seq<Instruction>) -> Seq<InstrView> {
    Seq::new(instrs.len(), |i: int| instrs[i]@)
}

/// A basic block. The first block of a function may be unlabelled.
#[derive(Clone, Debug)]
pub struct BasicBlock {
    pub label: Option<String>,
    pub instrs: Vec<Instruction>,
}

/// `BasicBlock` as a mathematical value.
pub struct BlockView {
    pub label: Option<Seq<char>>,
    pub instrs: Seq<InstrView>,
}

/// The characters of an optional label.
pub open spec fn label_view(label: Option<String>) -> Option<Seq<char>> {
    match label {
        Some(l) => Some(l@),
        None => None,
    }
}

impl View for BasicBlock {
    type V = BlockView;

    open spec fn view(&self) -> BlockView {
        BlockView { label: label_view(self.label), instrs: instr_views(self.instrs@) }
    }
}

/// The views of a list of blocks.
pub open spec fn block_views(blocks: Seq<BasicBlock>) -> Seq<BlockView> {
    Seq::new(blocks.len(), |i: int| blocks[i]@)
}

/// A function: its name, its formal parameters, the type it returns if it
/// returns a value, and its blocks in program order.
#[derive(Clone, Debug)]
pub struct Function {
    pub name: String,
    pub params: Vec<Param>,
    pub ret: Option<BrilType>,
    pub blocks: Vec<BasicBlock>,
}

/// `Function` as a mathematical value.
pub struct FunctionView {
    pub name: Seq<char>,
    pub params: Seq<ParamView>,
    pub ret: Option<BrilType>,
    pub blocks: Seq<BlockView>,
}

impl View for Function {
    type V = FunctionView;

    open spec fn view(&self) -> FunctionView {
        FunctionView {
            name: self.name@,
            params: param_views(self.params@),
            ret: self.ret,
            blocks: block_views(self.blocks@),
        }
    }
}

/// A program: its functions in program order.
#[derive(Clone, Debug)]
pub struct Program {
    pub functions: Vec<Function>,
}

/// `Program` as a mathematical value.
pub struct ProgramView {
    pub functions: Seq<FunctionView>,
}

impl View for Program {
    type V = ProgramView;

    open spec fn view(&self) -> ProgramView {
        ProgramView { functions: Seq::new(self.functions@.len(), |i: int| self.functions@[i]@) }
    }
}

/// The characters of each string of a sequence.
pub open spec fn views(names: Seq<String>) -> Seq<Seq<char>> {
    Seq::new(names.len(), |i: int| names[i]@)
}

/// The first position at or after `start` at which `items` holds `item`.
pub open spec fn first_index_from<T>(items: Seq<T>, item: T, start: int) -> Option<int>
    decreases items.len() - start,
{
    if start < 0 || start >= items.len() {
        None
    } else if items[start] == item {
        Some(start)
    } else {
        first_index_from(items, item, start + 1)
    }
}

/// The first position at which `items` holds `item`.
pub open spec fn first_index<T>(items: Seq<T>, item: T) -> Option<int> {
    first_index_from(items, item, 0)
}

/// `first_index_from` finds the least position that holds the item, and
/// finds none exactly when no position does.
pub proof fn lemma_first_index_from<T>(items: Seq<T>, item: T, start: int)
    requires
        0 <= start <= items.len(),
    ensures
        match first_index_from(items, item, start) {
            Some(i) => start <= i < items.len() && items[i] == item && forall|j: int|
                start <= j < i ==> items[j] != item,
            None => forall|j: int| start <= j < items.len() ==> items[j] != item,
        },
    decreases items.len() - start,
{
    if start < items.len() && items[start] != item {
        lemma_first_index_from(items, item, start + 1);
    }
}

} // verus!
