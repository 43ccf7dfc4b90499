//! What programs and plans mean, and that lowering keeps the meaning.
//!
//! Two reference interpreters are given as specifications. One runs a Bril
//! function directly: it keeps a value for each name and walks the blocks of
//! the function. The other runs a plan: it keeps a value for each slot and
//! walks the native blocks. Both cover constants, integer arithmetic,
//! comparisons, logic, copies, character operations, printing and control
//! flow, and both keep what was printed. Calls, memory and floating-point
//! arithmetic are beyond both: a run that reaches one of them is stuck, in
//! either interpreter.

use crate::bindings::BindingsView;
use crate::lower::slot_type;
use crate::model::{first_index, BlockView, BrilType, FunctionView, InstrView, Opcode, ParamView};
use crate::native::{BinaryOp, Domain, Literal, NativeOp, NativeType, PlanView, Relation};
use crate::native::RuntimeFn;
use crate::translator::literal_type;
use vstd::prelude::*;

verus! {

/// How a run ends.
pub enum Halt {
    /// The function returned, with a value or without one.
    Returned(Option<Literal>),
    /// The run reached something that has no meaning: a name without a
    /// value, an operand of the wrong type, a division that has no result, or
    /// an operation that the interpreters do not cover.
    Stuck,
    /// The run was cut off after the given number of blocks.
    OutOfFuel,
}

/// One thing that a run prints: a value, the space between two values, or
/// the end of a line.
pub enum Printed {
    Value(Literal),
    Separator,
    End,
}

/// How a run ends, and what it has printed until then.
pub struct Run {
    pub halt: Halt,
    pub printed: Seq<Printed>,
}

/// Where control goes at the end of a block.
pub enum Flow {
    /// To the block at this position.
    Goto(int),
    Return(Option<Literal>),
    Stuck,
}

/// A number as a 64-bit integer in two's complement, wrapping around.
pub open spec fn wrap(v: int) -> i64 {
    ((v + 0x8000_0000_0000_0000) % 0x1_0000_0000_0000_0000 - 0x8000_0000_0000_0000) as i64
}

/// The quotient of two integers, rounded toward zero.
pub open spec fn quotient(a: int, b: int) -> int {
    if b == 0 {
        0
    } else if a >= 0 && b > 0 {
        a / b
    } else if a < 0 && b > 0 {
        -((-a) / b)
    } else if a >= 0 && b < 0 {
        -(a / (-b))
    } else {
        (-a) / (-b)
    }
}

/// Whether a relation holds between two numbers.
pub open spec fn holds(relation: Relation, a: int, b: int) -> bool {
    match relation {
        Relation::Equal => a == b,
        Relation::Less => a < b,
        Relation::Greater => a > b,
        Relation::LessOrEqual => a <= b,
        Relation::GreaterOrEqual => a >= b,
    }
}

/// Whether a number is a code point that a character can hold.
pub open spec fn is_code_point(v: int) -> bool {
    0 <= v <= 0xD7FF || 0xE000 <= v <= 0x10FFFF
}

/// What a Bril operation with two operands computes.
pub open spec fn bril_binary(op: Opcode, a: Literal, b: Literal) -> Option<Literal> {
    match (op, a, b) {
        (Opcode::Add, Literal::Int(x), Literal::Int(y)) => Some(Literal::Int(wrap(x + y))),
        (Opcode::Sub, Literal::Int(x), Literal::Int(y)) => Some(Literal::Int(wrap(x - y))),
        (Opcode::Mul, Literal::Int(x), Literal::Int(y)) => Some(Literal::Int(wrap(x * y))),
        (Opcode::Div, Literal::Int(x), Literal::Int(y)) => if y == 0 || (x == i64::MIN && y == -1) {
            None
        } else {
            Some(Literal::Int(quotient(x as int, y as int) as i64))
        },
        (Opcode::Eq, Literal::Int(x), Literal::Int(y)) => Some(Literal::Bool(x == y)),
        (Opcode::Lt, Literal::Int(x), Literal::Int(y)) => Some(Literal::Bool(x < y)),
        (Opcode::Gt, Literal::Int(x), Literal::Int(y)) => Some(Literal::Bool(x > y)),
        (Opcode::Le, Literal::Int(x), Literal::Int(y)) => Some(Literal::Bool(x <= y)),
        (Opcode::Ge, Literal::Int(x), Literal::Int(y)) => Some(Literal::Bool(x >= y)),
        (Opcode::And, Literal::Bool(x), Literal::Bool(y)) => Some(Literal::Bool(x && y)),
        (Opcode::Or, Literal::Bool(x), Literal::Bool(y)) => Some(Literal::Bool(x || y)),
        (Opcode::Ceq, Literal::Char(x), Literal::Char(y)) => Some(Literal::Bool(x == y)),
        (Opcode::Clt, Literal::Char(x), Literal::Char(y)) => Some(Literal::Bool((x as int) < (y as int))),
        (Opcode::Cgt, Literal::Char(x), Literal::Char(y)) => Some(Literal::Bool((x as int) > (y as int))),
        (Opcode::Cle, Literal::Char(x), Literal::Char(y)) => Some(Literal::Bool((x as int) <= (y as int))),
        (Opcode::Cge, Literal::Char(x), Literal::Char(y)) => Some(Literal::Bool((x as int) >= (y as int))),
        _ => None,
    }
}

/// What a Bril operation with one operand computes.
pub open spec fn bril_unary(op: Opcode, a: Literal) -> Option<Literal> {
    match (op, a) {
        (Opcode::Not, Literal::Bool(x)) => Some(Literal::Bool(!x)),
        (Opcode::Id, v) => Some(v),
        (Opcode::Char2int, Literal::Char(c)) => Some(Literal::Int(c as i64)),
        (Opcode::Int2char, Literal::Int(v)) => if is_code_point(v as int) {
            Some(Literal::Char(v as char))
        } else {
            None
        },
        _ => None,
    }
}

/// The value of a literal as a constant of a Bril type. The two must agree;
/// an integer written for a floating-point constant is beyond the
/// interpreters.
pub open spec fn bril_constant(ty: BrilType, value: Literal) -> Option<Literal> {
    if literal_type(value) == ty.native_type() {
        Some(value)
    } else {
        None
    }
}

/// The values of the names of a function.
pub type Env = Map<Seq<char>, Literal>;

/// The values after one instruction that is no jump, branch or return.
pub open spec fn bril_step(env: Env, instr: InstrView) -> Option<Env> {
    match instr.op {
        Opcode::Nop => Some(env),
        Opcode::Const => if instr.dest is Some && instr.value is Some {
            match bril_constant(instr.dest.unwrap().ty, instr.value.unwrap()) {
                Some(v) => Some(env.insert(instr.dest.unwrap().name, v)),
                None => None,
            }
        } else {
            None
        },
        Opcode::Not | Opcode::Id | Opcode::Char2int | Opcode::Int2char => if instr.dest is Some
            && instr.args.len() == 1 && env.contains_key(instr.args[0]) {
            match bril_unary(instr.op, env[instr.args[0]]) {
                Some(v) => Some(env.insert(instr.dest.unwrap().name, v)),
                None => None,
            }
        } else {
            None
        },
        Opcode::Add | Opcode::Sub | Opcode::Mul | Opcode::Div | Opcode::Eq | Opcode::Lt | Opcode::Gt | Opcode::Le | Opcode::Ge | Opcode::And | Opcode::Or | Opcode::Ceq | Opcode::Clt | Opcode::Cgt | Opcode::Cle | Opcode::Cge => if instr.dest
            is Some && instr.args.len() == 2 && env.contains_key(instr.args[0])
            && env.contains_key(instr.args[1]) {
            match bril_binary(instr.op, env[instr.args[0]], env[instr.args[1]]) {
                Some(v) => Some(env.insert(instr.dest.unwrap().name, v)),
                None => None,
            }
        } else {
            None
        },
        _ => None,
    }
}

/// The values of the names of a function, and what has been printed.
pub struct Scene {
    pub env: Env,
    pub out: Seq<Printed>,
}

/// What printing the first `n` of a list of names prints, without the end of
/// the line: each value, with a separator before every value but the first.
/// Every name must have a value of its declared type.
pub open spec fn printed_values(vars: BindingsView, env: Env, names: Seq<Seq<char>>, n: int) -> Option<
    Seq<Printed>,
>
    decreases n,
{
    if n <= 0 {
        Some(Seq::empty())
    } else {
        match printed_values(vars, env, names, n - 1) {
            Some(before) => if env.contains_key(names[n - 1]) && vars.slot(names[n - 1]) is Some
                && slot_type(vars, vars.slot(names[n - 1]).unwrap()) == literal_type(
                env[names[n - 1]],
            ) {
                let separated = if n > 1 {
                    before.push(Printed::Separator)
                } else {
                    before
                };
                Some(separated.push(Printed::Value(env[names[n - 1]])))
            } else {
                None
            },
            None => None,
        }
    }
}

/// The scene after one instruction that is no jump, branch or return. The
/// declared types of the names are those of `vars`.
pub open spec fn bril_act(vars: BindingsView, scene: Scene, instr: InstrView) -> Option<Scene> {
    if instr.op == Opcode::Print {
        match printed_values(vars, scene.env, instr.args, instr.args.len() as int) {
            Some(line) => Some(Scene { env: scene.env, out: scene.out + line.push(Printed::End) }),
            None => None,
        }
    } else {
        match bril_step(scene.env, instr) {
            Some(env) => Some(Scene { env, out: scene.out }),
            None => None,
        }
    }
}

/// The scene after the first `n` instructions of a block.
pub open spec fn bril_steps(vars: BindingsView, scene: Scene, instrs: Seq<InstrView>, n: int) -> Option<
    Scene,
>
    decreases n,
{
    if n <= 0 {
        Some(scene)
    } else {
        match bril_steps(vars, scene, instrs, n - 1) {
            Some(before) => bril_act(vars, before, instrs[n - 1]),
            None => None,
        }
    }
}

/// The position of the block that carries a label.
pub open spec fn block_of(blocks: Seq<BlockView>, label: Seq<char>) -> Option<int> {
    first_index(Seq::new(blocks.len(), |i: int| blocks[i].label), Some(label))
}

/// What a returned value is, for a function that returns the given type: a
/// value of that type, or nothing where the function returns nothing.
pub open spec fn returned(value: Option<Literal>, ret: Option<NativeType>) -> Flow {
    match (value, ret) {
        (Some(v), Some(t)) => if literal_type(v) == t {
            Flow::Return(Some(v))
        } else {
            Flow::Stuck
        },
        _ => Flow::Return(None),
    }
}

/// Where control goes after a jump, branch or return.
pub open spec fn bril_exit(func: FunctionView, env: Env, instr: InstrView) -> Flow {
    match instr.op {
        Opcode::Jmp => if instr.labels.len() == 1 {
            match block_of(func.blocks, instr.labels[0]) {
                Some(b) => Flow::Goto(b),
                None => Flow::Stuck,
            }
        } else {
            Flow::Stuck
        },
        Opcode::Br => if instr.labels.len() == 2 && instr.args.len() == 1 && env.contains_key(
            instr.args[0],
        ) {
            match (
                env[instr.args[0]],
                block_of(func.blocks, instr.labels[0]),
                block_of(func.blocks, instr.labels[1]),
            ) {
                (Literal::Bool(c), Some(yes), Some(no)) => Flow::Goto(
                    if c {
                        yes
                    } else {
                        no
                    },
                ),
                _ => Flow::Stuck,
            }
        } else {
            Flow::Stuck
        },
        Opcode::Ret => if instr.args.len() == 0 {
            Flow::Return(None)
        } else if instr.args.len() == 1 && env.contains_key(instr.args[0]) {
            returned(
                Some(env[instr.args[0]]),
                match func.ret {
                    Some(t) => Some(t.native_type()),
                    None => None,
                },
            )
        } else {
            Flow::Stuck
        },
        _ => Flow::Stuck,
    }
}

/// The scene after the block at position `block`, and where control goes
/// then: where its last instruction sends it, or on to the next block, or out
/// of the function after the last block.
pub open spec fn bril_block(func: FunctionView, scene: Scene, block: int) -> (Option<Scene>, Flow) {
    let vars = BindingsView::of_function(func);
    let instrs = func.blocks[block].instrs;
    if instrs.len() > 0 && instrs.last().op.is_terminator() {
        match bril_steps(vars, scene, instrs, instrs.len() - 1) {
            Some(after) => (Some(after), bril_exit(func, after.env, instrs.last())),
            None => (None, Flow::Stuck),
        }
    } else {
        match bril_steps(vars, scene, instrs, instrs.len() as int) {
            Some(after) => (
                Some(after),
                if block + 1 < func.blocks.len() {
                    Flow::Goto(block + 1)
                } else {
                    Flow::Return(None)
                },
            ),
            None => (None, Flow::Stuck),
        }
    }
}

/// How a run goes on after a block: on to the next block, or to its end.
/// A run that is stuck within a block has printed what it had printed before
/// the block.
pub open spec fn after_block(printed: Seq<Printed>, out: Option<Seq<Printed>>, flow: Flow) -> Option<
    Run,
> {
    match (out, flow) {
        (Some(after), Flow::Goto(next)) => None,
        (Some(after), Flow::Return(v)) => Some(Run { halt: Halt::Returned(v), printed: after }),
        (Some(after), Flow::Stuck) => Some(Run { halt: Halt::Stuck, printed: after }),
        (None, _) => Some(Run { halt: Halt::Stuck, printed }),
    }
}

/// A run of a function from the block at position `block`, for at most
/// `fuel` blocks.
pub open spec fn bril_run_from(func: FunctionView, scene: Scene, block: int, fuel: nat) -> Run
    decreases fuel,
{
    if fuel == 0 {
        Run { halt: Halt::OutOfFuel, printed: scene.out }
    } else if block < 0 || block >= func.blocks.len() {
        Run { halt: Halt::Stuck, printed: scene.out }
    } else {
        let done = bril_block(func, scene, block);
        match (done.0, done.1) {
            (Some(after), Flow::Goto(next)) => bril_run_from(func, after, next, (fuel - 1) as nat),
            (Some(after), flow) => after_block(scene.out, Some(after.out), flow).unwrap(),
            (None, flow) => after_block(scene.out, None, flow).unwrap(),
        }
    }
}

/// The values of the first `n` parameters of a function, given its
/// arguments.
pub open spec fn bind_arguments(params: Seq<ParamView>, args: Seq<Literal>, n: int) -> Env
    decreases n,
{
    if n <= 0 {
        Map::empty()
    } else {
        bind_arguments(params, args, n - 1).insert(params[n - 1].name, args[n - 1])
    }
}

/// A run of a function on arguments, as many as it has parameters, for at
/// most `fuel` blocks. A function without blocks returns at once.
pub open spec fn bril_run(func: FunctionView, args: Seq<Literal>, fuel: nat) -> Run {
    if args.len() != func.params.len() {
        Run { halt: Halt::Stuck, printed: Seq::empty() }
    } else if func.blocks.len() == 0 {
        Run { halt: Halt::Returned(None), printed: Seq::empty() }
    } else {
        bril_run_from(
            func,
            Scene {
                env: bind_arguments(func.params, args, func.params.len() as int),
                out: Seq::empty(),
            },
            0,
            fuel,
        )
    }
}

/// What a native instruction with two operands computes.
pub open spec fn native_binary(op: BinaryOp, a: Literal, b: Literal) -> Option<Literal> {
    match (op, a, b) {
        (BinaryOp::Iadd, Literal::Int(x), Literal::Int(y)) => Some(Literal::Int(wrap(x + y))),
        (BinaryOp::Isub, Literal::Int(x), Literal::Int(y)) => Some(Literal::Int(wrap(x - y))),
        (BinaryOp::Imul, Literal::Int(x), Literal::Int(y)) => Some(Literal::Int(wrap(x * y))),
        (BinaryOp::Sdiv, Literal::Int(x), Literal::Int(y)) => if y == 0 || (x == i64::MIN && y
            == -1) {
            None
        } else {
            Some(Literal::Int(quotient(x as int, y as int) as i64))
        },
        (BinaryOp::Band, Literal::Bool(x), Literal::Bool(y)) => Some(Literal::Bool(x && y)),
        (BinaryOp::Bor, Literal::Bool(x), Literal::Bool(y)) => Some(Literal::Bool(x || y)),
        _ => None,
    }
}

/// What a native comparison computes.
pub open spec fn native_compare(domain: Domain, relation: Relation, a: Literal, b: Literal) -> Option<
    Literal,
> {
    match (domain, a, b) {
        (Domain::Integer, Literal::Int(x), Literal::Int(y)) => Some(
            Literal::Bool(holds(relation, x as int, y as int)),
        ),
        (Domain::Character, Literal::Char(x), Literal::Char(y)) => Some(
            Literal::Bool(holds(relation, x as int, y as int)),
        ),
        _ => None,
    }
}

/// The values of the slots of a plan. A slot has no value until it is bound.
pub type Store = Seq<Option<Literal>>;

/// The state of a run of a plan: the values of the slots, the arguments
/// that are queued for the next call, and what has been printed.
pub struct Machine {
    pub store: Store,
    pub queue: Seq<Literal>,
    pub out: Seq<Printed>,
}

/// The value of a slot, if the slot exists and is bound.
pub open spec fn load(store: Store, slot: usize) -> Option<Literal> {
    if slot < store.len() {
        store[slot as int]
    } else {
        None
    }
}

/// The store after a slot is bound, if the slot exists and there is a value.
pub open spec fn bind(store: Store, slot: usize, value: Option<Literal>) -> Option<Store> {
    if slot < store.len() && value is Some {
        Some(store.update(slot as int, value))
    } else {
        None
    }
}

/// The value that a native instruction with one operand computes.
pub open spec fn native_unary(op: NativeOp, a: Literal) -> Option<Literal> {
    match (op, a) {
        (NativeOp::Not { dst, src }, Literal::Bool(x)) => Some(Literal::Bool(!x)),
        (NativeOp::Copy { dst, src }, v) => Some(v),
        (NativeOp::CharToInt { dst, src }, Literal::Char(c)) => Some(Literal::Int(c as i64)),
        (NativeOp::IntToChar { dst, src }, Literal::Int(v)) => if is_code_point(v as int) {
            Some(Literal::Char(v as char))
        } else {
            None
        },
        _ => None,
    }
}

/// The store after one native instruction that computes a value.
pub open spec fn native_step(store: Store, args: Seq<Literal>, op: NativeOp) -> Option<Store> {
    match op {
        NativeOp::Parameter { dst, index } => if index < args.len() {
            bind(store, dst, Some(args[index as int]))
        } else {
            None
        },
        NativeOp::Constant { dst, ty, value } => if literal_type(value) == ty {
            bind(store, dst, Some(value))
        } else {
            None
        },
        NativeOp::Binary { op, dst, lhs, rhs } => match (load(store, lhs), load(store, rhs)) {
            (Some(a), Some(b)) => bind(store, dst, native_binary(op, a, b)),
            _ => None,
        },
        NativeOp::Compare { domain, relation, dst, lhs, rhs } => match (
            load(store, lhs),
            load(store, rhs),
        ) {
            (Some(a), Some(b)) => bind(store, dst, native_compare(domain, relation, a, b)),
            _ => None,
        },
        NativeOp::Not { dst, src } => match load(store, src) {
            Some(a) => bind(store, dst, native_unary(op, a)),
            None => None,
        },
        NativeOp::Copy { dst, src } => match load(store, src) {
            Some(a) => bind(store, dst, native_unary(op, a)),
            None => None,
        },
        NativeOp::CharToInt { dst, src } => match load(store, src) {
            Some(a) => bind(store, dst, native_unary(op, a)),
            None => None,
        },
        NativeOp::IntToChar { dst, src } => match load(store, src) {
            Some(a) => bind(store, dst, native_unary(op, a)),
            None => None,
        },
        _ => None,
    }
}

/// The machine type of the values that a printing routine prints.
pub open spec fn printed_type(routine: RuntimeFn) -> Option<NativeType> {
    match routine {
        RuntimeFn::PrintInt => Some(NativeType::I64),
        RuntimeFn::PrintBool => Some(NativeType::I8),
        RuntimeFn::PrintFloat => Some(NativeType::F64),
        RuntimeFn::PrintChar => Some(NativeType::I32),
        RuntimeFn::PrintPointer => Some(NativeType::Ptr),
        _ => None,
    }
}

/// The machine after a call of a runtime routine. A printing routine prints
/// the one value that is queued, which must be of the type it prints; the
/// separator and the end of a line are printed with nothing queued. Every
/// other routine is beyond the interpreter.
pub open spec fn routine_step(m: Machine, routine: RuntimeFn) -> Option<Machine> {
    match routine {
        RuntimeFn::PrintSeparator => if m.queue.len() == 0 {
            Some(Machine { out: m.out.push(Printed::Separator), ..m })
        } else {
            None
        },
        RuntimeFn::PrintEnd => if m.queue.len() == 0 {
            Some(Machine { out: m.out.push(Printed::End), ..m })
        } else {
            None
        },
        _ => if m.queue.len() == 1 && printed_type(routine) == Some(literal_type(m.queue[0])) {
            Some(
                Machine {
                    queue: Seq::empty(),
                    out: m.out.push(Printed::Value(m.queue[0])),
                    ..m
                },
            )
        } else {
            None
        },
    }
}

/// The machine after one native instruction that ends no block.
pub open spec fn machine_step(m: Machine, args: Seq<Literal>, op: NativeOp) -> Option<Machine> {
    match op {
        NativeOp::Argument { src } => match load(m.store, src) {
            Some(v) => Some(Machine { queue: m.queue.push(v), ..m }),
            None => None,
        },
        NativeOp::CallRuntime { routine, dst } => if dst is None {
            routine_step(m, routine)
        } else {
            None
        },
        _ => match native_step(m.store, args, op) {
            Some(store) => Some(Machine { store, ..m }),
            None => None,
        },
    }
}

/// The machine after the first `n` native instructions of a sequence.
pub open spec fn native_steps(m: Machine, args: Seq<Literal>, ops: Seq<NativeOp>, n: int) -> Option<
    Machine,
>
    decreases n,
{
    if n <= 0 {
        Some(m)
    } else {
        match native_steps(m, args, ops, n - 1) {
            Some(before) => machine_step(before, args, ops[n - 1]),
            None => None,
        }
    }
}

/// Where control goes after a native jump, branch or return. Native block
/// `b + 1` stands for the Bril block at position `b`.
pub open spec fn native_exit(store: Store, op: NativeOp) -> Flow {
    match op {
        NativeOp::Jump { target } => Flow::Goto(target as int),
        NativeOp::Branch { cond, if_true, if_false } => match load(store, cond) {
            Some(Literal::Bool(c)) => Flow::Goto(
                if c {
                    if_true as int
                } else {
                    if_false as int
                },
            ),
            _ => Flow::Stuck,
        },
        NativeOp::Return { src, ty } => match src {
            Some(s) => match load(store, s) {
                Some(v) => returned(Some(v), ty),
                None => Flow::Stuck,
            },
            None => Flow::Return(None),
        },
        _ => Flow::Stuck,
    }
}

/// The machine and the way on after a native block.
pub open spec fn native_block(m: Machine, args: Seq<Literal>, ops: Seq<NativeOp>) -> (
    Option<Machine>,
    Flow,
) {
    if ops.len() == 0 {
        (None, Flow::Stuck)
    } else {
        match native_steps(m, args, ops, ops.len() - 1) {
            Some(after) => (Some(after), native_exit(after.store, ops.last())),
            None => (None, Flow::Stuck),
        }
    }
}

/// A run of a plan from the native block at position `block`, for at most
/// `fuel` blocks.
pub open spec fn native_run_from(
    plan: PlanView,
    m: Machine,
    args: Seq<Literal>,
    block: int,
    fuel: nat,
) -> Run
    decreases fuel,
{
    if fuel == 0 {
        Run { halt: Halt::OutOfFuel, printed: m.out }
    } else if block < 0 || block >= plan.blocks.len() {
        Run { halt: Halt::Stuck, printed: m.out }
    } else {
        let done = native_block(m, args, plan.blocks[block]);
        match (done.0, done.1) {
            (Some(after), Flow::Goto(next)) => native_run_from(
                plan,
                after,
                args,
                next,
                (fuel - 1) as nat,
            ),
            (Some(after), flow) => after_block(m.out, Some(after.out), flow).unwrap(),
            (None, flow) => after_block(m.out, None, flow).unwrap(),
        }
    }
}

/// A machine in which no slot is bound, nothing is queued and nothing has
/// been printed.
pub open spec fn unbound(slots: nat) -> Machine {
    Machine {
        store: Seq::new(slots, |i: int| None::<Literal>),
        queue: Seq::empty(),
        out: Seq::empty(),
    }
}

/// A run of a plan on arguments, as many as it has parameters, for at most
/// `fuel` blocks after the entry block.
pub open spec fn native_run(plan: PlanView, args: Seq<Literal>, fuel: nat) -> Run {
    if args.len() != plan.signature.params.len() || plan.blocks.len() == 0 {
        Run { halt: Halt::Stuck, printed: Seq::empty() }
    } else {
        let done = native_block(unbound(plan.slots.len()), args, plan.blocks[0]);
        match (done.0, done.1) {
            (Some(after), Flow::Goto(next)) => native_run_from(plan, after, args, next, fuel),
            (Some(after), flow) => after_block(Seq::empty(), Some(after.out), flow).unwrap(),
            (None, flow) => after_block(Seq::empty(), None, flow).unwrap(),
        }
    }
}

/// Whether a store holds, in the slot of each name, the value that the name
/// has, and nothing in the slot of a name without a value.
pub open spec fn mirrors(vars: BindingsView, env: Env, store: Store) -> bool {
    &&& store.len() == vars.names.len()
    &&& forall|i: int|
        0 <= i < vars.names.len() ==> #[trigger] store[i] == if env.contains_key(vars.names[i]) {
            Some(env[vars.names[i]])
        } else {
            None
        }
}

/// Whether a machine stands where a scene stands: the slots hold the values
/// of the names, nothing is queued, and the same has been printed.
pub open spec fn stands(vars: BindingsView, scene: Scene, m: Machine) -> bool {
    &&& mirrors(vars, scene.env, m.store)
    &&& m.queue.len() == 0
    &&& m.out == scene.out
}

} // verus!
