//! Lowering keeps the meaning of a function: a run of the plan prints what
//! the direct run of the function prints, and ends as it ends.

use crate::bindings::{lemma_slot, BindingsView};
use crate::lower::{arg_slots, block_end, block_labels, entry_block, instr_ops, lower_block_spec};
use crate::lower::{lower_blocks_spec, lower_function_spec, lower_instr_spec, lower_prefix};
use crate::lower::{native_ret, print_ops, scope_of, shape_of, slot_or_zero};
use crate::lower::{DeclView, Scope, Shape};
use crate::lower_laws::{declares, function_fits, lemma_bindings, params_declare};
use crate::meaning::{bind_arguments, bril_act, bril_binary, bril_block, bril_exit, bril_run};
use crate::meaning::{bril_run_from, bril_step, bril_steps, bril_unary, machine_step, mirrors};
use crate::meaning::{native_binary, native_block, native_compare, native_exit, native_run};
use crate::meaning::{native_run_from, native_step, printed_type, printed_values, routine_step};
use crate::meaning::{block_of, native_steps, native_unary, stands, unbound, Env, Flow, Halt};
use crate::meaning::{Machine, Printed, Run, Scene, Store};
use crate::model::{lemma_first_index_from, FunctionView, InstrView, Opcode};
use crate::native::{Literal, NativeOp};
use vstd::prelude::*;

verus! {

/// The native instruction that a two-operand operation is lowered to
/// computes what the operation computes.
proof fn lemma_binary_agrees(op: Opcode, a: Literal, b: Literal)
    ensures
        match shape_of(op) {
            Shape::Binary(native) => bril_binary(op, a, b) == native_binary(native, a, b),
            Shape::Compare(domain, relation) => bril_binary(op, a, b) == native_compare(
                domain,
                relation,
                a,
                b,
            ),
            _ => true,
        },
{
}

/// A run of native instructions depends only on the instructions it runs.
proof fn lemma_steps_agree(store: Machine, args: Seq<Literal>, one: Seq<NativeOp>, two: Seq<NativeOp>, n: int)
    requires
        0 <= n <= one.len(),
        n <= two.len(),
        forall|i: int| 0 <= i < n ==> one[i] == two[i],
    ensures
        native_steps(store, args, one, n) == native_steps(store, args, two, n),
    decreases n,
{
    if n > 0 {
        lemma_steps_agree(store, args, one, two, n - 1);
    }
}

/// Running one sequence of native instructions after another is running
/// their concatenation.
proof fn lemma_steps_append(store: Machine, args: Seq<Literal>, a: Seq<NativeOp>, b: Seq<NativeOp>, n: int)
    requires
        0 <= n <= b.len(),
    ensures
        native_steps(store, args, a + b, a.len() + n) == match native_steps(
            store,
            args,
            a,
            a.len() as int,
        ) {
            Some(mid) => native_steps(mid, args, b, n),
            None => None,
        },
    decreases n,
{
    if n == 0 {
        lemma_steps_agree(store, args, a + b, a, a.len() as int);
    } else {
        lemma_steps_append(store, args, a, b, n - 1);
        assert((a + b)[a.len() + n - 1] == b[n - 1]);
    }
}

/// A run of native instructions is stuck once a prefix of it is.
proof fn lemma_stuck_stays(store: Machine, args: Seq<Literal>, ops: Seq<NativeOp>, n: int, m: int)
    requires
        0 <= n <= m,
        native_steps(store, args, ops, n) is None,
    ensures
        native_steps(store, args, ops, m) is None,
    decreases m - n,
{
    if n < m {
        lemma_stuck_stays(store, args, ops, n, m - 1);
    }
}

/// Binding the slot of a name mirrors giving the name a value.
proof fn lemma_bind_mirrors(vars: BindingsView, env: Env, store: Store, name: Seq<char>, value: Literal)
    requires
        vars.wf(),
        vars.names.len() <= usize::MAX,
        mirrors(vars, env, store),
        vars.slot(name) is Some,
    ensures
        vars.slot(name).unwrap() < store.len(),
        mirrors(
            vars,
            env.insert(name, value),
            store.update(vars.slot(name).unwrap() as int, Some(value)),
        ),
{
    lemma_slot(vars, name);
}

/// The value in the slot of a name is the value of the name.
proof fn lemma_load_mirrors(vars: BindingsView, env: Env, store: Store, name: Seq<char>)
    requires
        vars.names.len() <= usize::MAX,
        mirrors(vars, env, store),
        vars.slot(name) is Some,
    ensures
        crate::meaning::load(store, vars.slot(name).unwrap()) == if env.contains_key(name) {
            Some(env[name])
        } else {
            None
        },
{
    lemma_slot(vars, name);
}

/// The routine that prints the values of a type prints that type.
proof fn lemma_print_routine(ty: crate::native::NativeType)
    ensures
        printed_type(crate::lower::print_routine(ty)) == Some(ty),
{
}

/// Printing the first names of a list and the native instructions for it
/// print the same; where one is stuck, so is the other.
proof fn lemma_print_mirrors(
    vars: BindingsView,
    env: Env,
    m: Machine,
    args: Seq<Literal>,
    names: Seq<Seq<char>>,
    n: int,
)
    requires
        vars.names.len() <= usize::MAX,
        mirrors(vars, env, m.store),
        m.queue.len() == 0,
        0 <= n <= names.len(),
        forall|k: int| 0 <= k < names.len() ==> (#[trigger] vars.slot(names[k])) is Some,
    ensures
        ({
            let ops = print_ops(vars, arg_slots(vars, names), n);
            match printed_values(vars, env, names, n) {
                Some(line) => native_steps(m, args, ops, ops.len() as int) == Some(
                    Machine { out: m.out + line, ..m },
                ),
                None => native_steps(m, args, ops, ops.len() as int) is None,
            }
        }),
    decreases n,
{
    let slots = arg_slots(vars, names);
    if n == 0 {
        assert(m.out + Seq::<Printed>::empty() =~= m.out);
    } else {
        lemma_print_mirrors(vars, env, m, args, names, n - 1);
        let before = print_ops(vars, slots, n - 1);
        let ops = print_ops(vars, slots, n);
        let name = names[n - 1];
        assert(vars.slot(name) is Some);
        let slot = vars.slot(name).unwrap();
        assert(slots[n - 1] == slot);
        lemma_load_mirrors(vars, env, m.store, name);
        lemma_print_routine(crate::lower::slot_type(vars, slot));
        let k = before.len() as int;
        lemma_steps_agree(m, args, ops, before, k);
        match printed_values(vars, env, names, n - 1) {
            None => {
                lemma_stuck_stays(m, args, ops, k, ops.len() as int);
            },
            Some(line) => {
                let held = Machine { out: m.out + line, ..m };
                assert(native_steps(m, args, ops, k) == Some(held));
                let separator = NativeOp::CallRuntime {
                    routine: crate::native::RuntimeFn::PrintSeparator,
                    dst: None,
                };
                let first = if n > 1 {
                    k + 1
                } else {
                    k
                };
                let separated = if n > 1 {
                    Machine { out: held.out.push(Printed::Separator), ..held }
                } else {
                    held
                };
                if n > 1 {
                    assert(ops[k] == separator);
                    assert(machine_step(held, args, separator) == Some(separated));
                    assert(native_steps(m, args, ops, k + 1) == Some(separated));
                }
                assert(native_steps(m, args, ops, first) == Some(separated));
                assert(ops[first] == NativeOp::Argument { src: slot });
                assert(ops.len() == first + 2);
                if env.contains_key(name) {
                    let v = env[name];
                    let queued = Machine { queue: separated.queue.push(v), ..separated };
                    assert(machine_step(separated, args, ops[first]) == Some(queued));
                    assert(native_steps(m, args, ops, first + 1) == Some(queued));
                    assert(queued.queue.len() == 1 && queued.queue[0] == v);
                    if crate::lower::slot_type(vars, slot) == crate::translator::literal_type(v) {
                        let done = Machine {
                            queue: Seq::empty(),
                            out: queued.out.push(Printed::Value(v)),
                            ..queued
                        };
                        assert(machine_step(queued, args, ops[first + 1]) == Some(done));
                        assert(done.queue =~= m.queue);
                        assert(done.out =~= m.out + printed_values(vars, env, names, n).unwrap());
                    } else {
                        assert(machine_step(queued, args, ops[first + 1]) is None);
                    }
                } else {
                    assert(machine_step(separated, args, ops[first]) is None);
                    assert(native_steps(m, args, ops, first + 1) is None);
                    lemma_stuck_stays(m, args, ops, first + 1, ops.len() as int);
                }
            },
        }
    }
}

/// An instruction that computes a value, or none, and the native instruction
/// it is lowered to do the same to the values of the names and to the slots
/// of the names; where one is stuck, so is the other.
proof fn lemma_step_computes(scope: Scope, instr: InstrView, scene: Scene, m: Machine, args: Seq<Literal>)
    requires
        scope.wf(),
        scope.vars.wf(),
        stands(scope.vars, scene, m),
        !instr.op.is_terminator(),
        lower_instr_spec(scope, instr) is Ok,
        shape_of(instr.op) is Nop || shape_of(instr.op) is Constant || shape_of(instr.op) is Binary
            || shape_of(instr.op) is Compare || shape_of(instr.op) is Not || shape_of(instr.op)
            is Copy || shape_of(instr.op) is CharToInt || shape_of(instr.op) is IntToChar,
    ensures
        ({
            let ops = lower_instr_spec(scope, instr)->Ok_0;
            match bril_act(scope.vars, scene, instr) {
                Some(after) => {
                    &&& native_steps(m, args, ops, ops.len() as int) is Some
                    &&& stands(
                        scope.vars,
                        after,
                        native_steps(m, args, ops, ops.len() as int).unwrap(),
                    )
                },
                None => native_steps(m, args, ops, ops.len() as int) is None,
            }
        }),
{
    let ops = instr_ops(scope, instr);
    let vars = scope.vars;
    let env = scene.env;
    let store = m.store;
    let a = arg_slots(vars, instr.args);
    reveal_with_fuel(native_steps, 3);
    assert forall|k: int| 0 <= k < instr.args.len() implies a[k] == vars.slot(instr.args[k]).unwrap()
        && crate::meaning::load(store, a[k]) == if env.contains_key(instr.args[k]) {
        Some(env[instr.args[k]])
    } else {
        None
    } by {
        assert(vars.slot(instr.args[k]) is Some);
        lemma_load_mirrors(vars, env, store, instr.args[k]);
    }
    match shape_of(instr.op) {
        Shape::Nop => {},
        Shape::Constant => {
            let d = instr.dest.unwrap();
            if literal_fits(instr) {
                lemma_bind_mirrors(vars, env, store, d.name, instr.value.unwrap());
            }
        },
        Shape::Binary(native) => {
            let d = instr.dest.unwrap();
            assert(a[0] == vars.slot(instr.args[0]).unwrap());
            assert(a[1] == vars.slot(instr.args[1]).unwrap());
            if env.contains_key(instr.args[0]) && env.contains_key(instr.args[1]) {
                lemma_binary_agrees(instr.op, env[instr.args[0]], env[instr.args[1]]);
                match bril_binary(instr.op, env[instr.args[0]], env[instr.args[1]]) {
                    Some(v) => {
                        lemma_bind_mirrors(vars, env, store, d.name, v);
                    },
                    None => {},
                }
            }
        },
        Shape::Compare(domain, relation) => {
            let d = instr.dest.unwrap();
            assert(a[0] == vars.slot(instr.args[0]).unwrap());
            assert(a[1] == vars.slot(instr.args[1]).unwrap());
            if env.contains_key(instr.args[0]) && env.contains_key(instr.args[1]) {
                lemma_binary_agrees(instr.op, env[instr.args[0]], env[instr.args[1]]);
                match bril_binary(instr.op, env[instr.args[0]], env[instr.args[1]]) {
                    Some(v) => {
                        lemma_bind_mirrors(vars, env, store, d.name, v);
                    },
                    None => {},
                }
            }
        },
        Shape::Not | Shape::Copy | Shape::CharToInt | Shape::IntToChar => {
            let d = instr.dest.unwrap();
            assert(a[0] == vars.slot(instr.args[0]).unwrap());
            if env.contains_key(instr.args[0]) {
                match bril_unary(instr.op, env[instr.args[0]]) {
                    Some(v) => {
                        lemma_bind_mirrors(vars, env, store, d.name, v);
                    },
                    None => {},
                }
            }
        },
        _ => {},
    }
}

/// Printing and the native instructions it is lowered to print the same;
/// where one is stuck, so is the other.
proof fn lemma_step_prints(scope: Scope, instr: InstrView, scene: Scene, m: Machine, args: Seq<Literal>)
    requires
        scope.wf(),
        scope.vars.wf(),
        stands(scope.vars, scene, m),
        !instr.op.is_terminator(),
        lower_instr_spec(scope, instr) is Ok,
        shape_of(instr.op) is Print,
    ensures
        ({
            let ops = lower_instr_spec(scope, instr)->Ok_0;
            match bril_act(scope.vars, scene, instr) {
                Some(after) => {
                    &&& native_steps(m, args, ops, ops.len() as int) is Some
                    &&& stands(
                        scope.vars,
                        after,
                        native_steps(m, args, ops, ops.len() as int).unwrap(),
                    )
                },
                None => native_steps(m, args, ops, ops.len() as int) is None,
            }
        }),
{
    let ops = instr_ops(scope, instr);
    let vars = scope.vars;
    let env = scene.env;
    let a = arg_slots(vars, instr.args);
    assert forall|k: int| 0 <= k < instr.args.len() implies (#[trigger] vars.slot(instr.args[k]))
        is Some by {}
    assert(instr.op == Opcode::Print);
    let body = print_ops(vars, a, a.len() as int);
    lemma_print_mirrors(vars, env, m, args, instr.args, instr.args.len() as int);
    lemma_steps_agree(m, args, ops, body, body.len() as int);
    assert(ops.len() == body.len() + 1);
    match printed_values(vars, env, instr.args, instr.args.len() as int) {
        Some(line) => {
            let held = Machine { out: m.out + line, ..m };
            let done = Machine { out: held.out.push(Printed::End), ..held };
            assert(machine_step(held, args, ops[body.len() as int]) == Some(done));
            assert(done.out =~= scene.out + line.push(Printed::End));
        },
        None => {},
    }
}

/// An instruction that the interpreters do not cover is stuck in both.
proof fn lemma_step_stuck(scope: Scope, instr: InstrView, scene: Scene, m: Machine, args: Seq<Literal>)
    requires
        scope.wf(),
        scope.vars.wf(),
        stands(scope.vars, scene, m),
        !instr.op.is_terminator(),
        lower_instr_spec(scope, instr) is Ok,
        shape_of(instr.op) is Call || shape_of(instr.op) is Allocate || shape_of(instr.op)
            is Release || shape_of(instr.op) is Load || shape_of(instr.op) is Store || shape_of(
            instr.op,
        ) is PointerAdd,
    ensures
        ({
            let ops = lower_instr_spec(scope, instr)->Ok_0;
            match bril_act(scope.vars, scene, instr) {
                Some(after) => {
                    &&& native_steps(m, args, ops, ops.len() as int) is Some
                    &&& stands(
                        scope.vars,
                        after,
                        native_steps(m, args, ops, ops.len() as int).unwrap(),
                    )
                },
                None => native_steps(m, args, ops, ops.len() as int) is None,
            }
        }),
{
    let ops = instr_ops(scope, instr);
    assert(ops.len() > 0);
    assert(instr.op != Opcode::Print);
    match native_steps(m, args, ops, ops.len() - 1) {
        Some(held) => {
            assert(machine_step(held, args, ops.last()) is None);
        },
        None => {},
    }
}

/// One instruction and the native instructions it is lowered to do the same
/// to the values of the names and to the slots of the names, and print the
/// same; where one is stuck, so is the other.
proof fn lemma_step_mirrors(scope: Scope, instr: InstrView, scene: Scene, m: Machine, args: Seq<Literal>)
    requires
        scope.wf(),
        scope.vars.wf(),
        stands(scope.vars, scene, m),
        !instr.op.is_terminator(),
        lower_instr_spec(scope, instr) is Ok,
    ensures
        ({
            let ops = lower_instr_spec(scope, instr)->Ok_0;
            match bril_act(scope.vars, scene, instr) {
                Some(after) => {
                    &&& native_steps(m, args, ops, ops.len() as int) is Some
                    &&& stands(
                        scope.vars,
                        after,
                        native_steps(m, args, ops, ops.len() as int).unwrap(),
                    )
                },
                None => native_steps(m, args, ops, ops.len() as int) is None,
            }
        }),
{
    match shape_of(instr.op) {
        Shape::Print => {
            lemma_step_prints(scope, instr, scene, m, args);
        },
        Shape::Call | Shape::Allocate | Shape::Release | Shape::Load | Shape::Store | Shape::PointerAdd => {
            lemma_step_stuck(scope, instr, scene, m, args);
        },
        Shape::Jump | Shape::Branch | Shape::Return => {},
        _ => {
            lemma_step_computes(scope, instr, scene, m, args);
        },
    }
}

/// Whether the literal of a constant has the type of its destination.
pub open spec fn literal_fits(instr: InstrView) -> bool {
    instr.dest is Some && instr.value is Some && crate::translator::literal_type(
        instr.value.unwrap(),
    ) == instr.dest.unwrap().ty.native_type()
}

/// The first instructions of a block and the native instructions they are
/// lowered to do the same; where one run is stuck, so is the other.
proof fn lemma_steps_mirror(
    scope: Scope,
    instrs: Seq<InstrView>,
    block: usize,
    n: int,
    env: Scene,
    store: Machine,
    args: Seq<Literal>,
)
    requires
        scope.wf(),
        scope.vars.wf(),
        stands(scope.vars, env, store),
        0 <= n <= instrs.len(),
        forall|i: int| 0 <= i < n ==> !(#[trigger] instrs[i]).op.is_terminator(),
        lower_prefix(scope, instrs, block, n) is Ok,
    ensures
        ({
            let ops = lower_prefix(scope, instrs, block, n)->Ok_0;
            match bril_steps(scope.vars, env, instrs, n) {
                Some(after) => {
                    &&& native_steps(store, args, ops, ops.len() as int) is Some
                    &&& stands(
                        scope.vars,
                        after,
                        native_steps(store, args, ops, ops.len() as int).unwrap(),
                    )
                },
                None => native_steps(store, args, ops, ops.len() as int) is None,
            }
        }),
    decreases n,
{
    if n > 0 {
        lemma_steps_mirror(scope, instrs, block, n - 1, env, store, args);
        let before = lower_prefix(scope, instrs, block, n - 1)->Ok_0;
        let more = lower_instr_spec(scope, instrs[n - 1])->Ok_0;
        lemma_steps_append(store, args, before, more, more.len() as int);
        match bril_steps(scope.vars, env, instrs, n - 1) {
            Some(mid) => {
                let held = native_steps(store, args, before, before.len() as int).unwrap();
                lemma_step_mirrors(scope, instrs[n - 1], mid, held, args);
            },
            None => {},
        }
    }
}

/// Whether the way on from a Bril block and the way on from its native block
/// are the same: native block `b + 1` stands for the Bril block at `b`.
pub open spec fn same_way(bril: Flow, native: Flow) -> bool {
    match (bril, native) {
        (Flow::Goto(b), Flow::Goto(n)) => b >= 0 && n == b + 1,
        (Flow::Return(v), Flow::Return(w)) => v == w,
        (Flow::Stuck, Flow::Stuck) => true,
        _ => false,
    }
}

/// A Bril block and its native block do the same and pass control on the
/// same way.
proof fn lemma_block_mirrors(
    func: FunctionView,
    table: Seq<DeclView>,
    pointer_bytes: u8,
    block: usize,
    env: Scene,
    store: Machine,
    args: Seq<Literal>,
)
    requires
        function_fits(func),
        table.len() <= usize::MAX,
        block < func.blocks.len(),
        stands(BindingsView::of_function(func), env, store),
        lower_block_spec(scope_of(func, table, pointer_bytes), func.blocks, block) is Ok,
    ensures
        ({
            let ops = lower_block_spec(scope_of(func, table, pointer_bytes), func.blocks, block)->Ok_0;
            let bril = bril_block(func, env, block as int);
            let native = native_block(store, args, ops);
            &&& same_way(bril.1, native.1)
            &&& bril.0 is Some == native.0 is Some
            &&& bril.0 is Some ==> stands(
                BindingsView::of_function(func),
                bril.0.unwrap(),
                native.0.unwrap(),
            )
        }),
{
    let scope = scope_of(func, table, pointer_bytes);
    let vars = scope.vars;
    lemma_bindings(func);
    let instrs = func.blocks[block as int].instrs;
    let len = instrs.len() as int;
    let body = lower_prefix(scope, instrs, block, len)->Ok_0;
    let end = block_end(instrs, block, func.blocks.len() as int, scope.ret);
    let ops = lower_block_spec(scope, func.blocks, block)->Ok_0;
    assert(ops == body + end);
    lemma_no_early_terminator(scope, instrs, block, len);
    if len > 0 && instrs.last().op.is_terminator() {
        let last = instrs.last();
        let before = lower_prefix(scope, instrs, block, len - 1)->Ok_0;
        let term = lower_instr_spec(scope, last)->Ok_0;
        assert(body == before + term);
        assert(term =~= instr_ops(scope, last));
        assert(term.len() == 1);
        assert(ops =~= before + term);
        lemma_steps_mirror(scope, instrs, block, len - 1, env, store, args);
        lemma_steps_agree(store, args, ops, before, before.len() as int);
        assert(ops.last() == term[0]);
        match bril_steps(vars, env, instrs, len - 1) {
            Some(scene) => {
                let after = scene.env;
                let held = native_steps(store, args, before, before.len() as int).unwrap().store;
                let a = arg_slots(vars, last.args);
                assert forall|k: int| 0 <= k < last.args.len() implies crate::meaning::load(
                    held,
                    a[k],
                ) == if after.contains_key(last.args[k]) {
                    Some(after[last.args[k]])
                } else {
                    None
                } by {
                    assert(vars.slot(last.args[k]) is Some);
                    lemma_load_mirrors(vars, after, held, last.args[k]);
                }
                if last.labels.len() > 0 {
                    lemma_label_corresponds(func, table, pointer_bytes, last.labels[0]);
                }
                if last.labels.len() > 1 {
                    lemma_label_corresponds(func, table, pointer_bytes, last.labels[1]);
                }
                if last.op == Opcode::Jmp {
                    assert(scope.label_target(last.labels[0]) is Some);
                } else if last.op == Opcode::Br {
                    assert(scope.label_target(last.labels[0]) is Some);
                    assert(scope.label_target(last.labels[1]) is Some);
                    assert(a[0] == vars.slot(last.args[0]).unwrap());
                } else {
                    if last.args.len() == 1 {
                        assert(a[0] == vars.slot(last.args[0]).unwrap());
                    }
                }
            },
            None => {},
        }
    } else {
        lemma_steps_mirror(scope, instrs, block, len, env, store, args);
        assert(end.len() == 1);
        lemma_steps_agree(store, args, ops, body, body.len() as int);
        assert(ops.last() == end[0]);
    }
}

/// A label stands for the native block after the position of the Bril block
/// that carries it.
proof fn lemma_label_corresponds(
    func: FunctionView,
    table: Seq<DeclView>,
    pointer_bytes: u8,
    label: Seq<char>,
)
    requires
        func.blocks.len() <= usize::MAX,
    ensures
        match block_of(func.blocks, label) {
            Some(b) => 0 <= b < func.blocks.len() && scope_of(
                func,
                table,
                pointer_bytes,
            ).label_target(label) == Some((b + 1) as usize) && b + 1 <= usize::MAX,
            None => scope_of(func, table, pointer_bytes).label_target(label) is None,
        },
{
    let scope = scope_of(func, table, pointer_bytes);
    assert(scope.labels =~= Seq::new(func.blocks.len(), |i: int| func.blocks[i].label));
    lemma_first_index_from(scope.labels, Some(label), 0);
}

/// In a block that can be lowered, no instruction before the last is a jump,
/// branch or return.
proof fn lemma_no_early_terminator(scope: Scope, instrs: Seq<InstrView>, block: usize, n: int)
    requires
        0 <= n <= instrs.len(),
        lower_prefix(scope, instrs, block, n) is Ok,
    ensures
        forall|i: int| 0 <= i < n && i + 1 < instrs.len() ==> !(#[trigger] instrs[i]).op.is_terminator(),
        n > 0 ==> lower_prefix(scope, instrs, block, n - 1) is Ok && lower_instr_spec(
            scope,
            instrs[n - 1],
        ) is Ok,
    decreases n,
{
    if n > 0 {
        lemma_no_early_terminator(scope, instrs, block, n - 1);
    }
}

/// The native blocks of a function are those of its Bril blocks, one after
/// the other.
proof fn lemma_lowered_block(scope: Scope, func: FunctionView, n: int, b: int)
    requires
        0 <= b < n <= func.blocks.len() <= usize::MAX,
        lower_blocks_spec(scope, func.blocks, n) is Ok,
    ensures
        lower_block_spec(scope, func.blocks, b as usize) is Ok,
        lower_blocks_spec(scope, func.blocks, n)->Ok_0.len() == n,
        lower_blocks_spec(scope, func.blocks, n)->Ok_0[b] == lower_block_spec(
            scope,
            func.blocks,
            b as usize,
        )->Ok_0,
    decreases n,
{
    if b < n - 1 {
        lemma_lowered_block(scope, func, n - 1, b);
    } else if n > 1 {
        lemma_lowered_block(scope, func, n - 1, n - 2);
    }
}

/// From corresponding blocks, with corresponding values, the direct run and
/// the run of the plan end the same way.
proof fn lemma_run_mirrors(
    func: FunctionView,
    table: Seq<DeclView>,
    pointer_bytes: u8,
    block: int,
    env: Scene,
    store: Machine,
    args: Seq<Literal>,
    fuel: nat,
)
    requires
        function_fits(func),
        table.len() <= usize::MAX,
        0 <= block,
        stands(BindingsView::of_function(func), env, store),
        lower_function_spec(func, table, pointer_bytes) is Ok,
    ensures
        native_run_from(
            lower_function_spec(func, table, pointer_bytes)->Ok_0,
            store,
            args,
            block + 1,
            fuel,
        ) == bril_run_from(func, env, block, fuel),
    decreases fuel,
{
    let scope = scope_of(func, table, pointer_bytes);
    let plan = lower_function_spec(func, table, pointer_bytes)->Ok_0;
    let n = func.blocks.len() as int;
    if fuel > 0 && block < n {
        lemma_lowered_block(scope, func, n, block);
        lemma_block_mirrors(func, table, pointer_bytes, block as usize, env, store, args);
        let lowered = lower_blocks_spec(scope, func.blocks, n)->Ok_0;
        assert(plan.blocks[block + 1] == lowered[block]);
        let bril = bril_block(func, env, block);
        let native = native_block(store, args, plan.blocks[block + 1]);
        match (bril.0, bril.1) {
            (Some(after), Flow::Goto(next)) => {
                lemma_run_mirrors(
                    func,
                    table,
                    pointer_bytes,
                    next,
                    after,
                    native.0.unwrap(),
                    args,
                    (fuel - 1) as nat,
                );
            },
            _ => {},
        }
    } else if fuel > 0 {
        assert(plan.blocks.len() == n + 1) by {
            if n > 0 {
                lemma_lowered_block(scope, func, n, 0);
            }
        }
    }
}

/// The entry block binds the parameters as the direct run does.
proof fn lemma_entry_mirrors(func: FunctionView, args: Seq<Literal>, n: int)
    requires
        function_fits(func),
        args.len() == func.params.len(),
        0 <= n <= func.params.len(),
    ensures
        ({
            let vars = BindingsView::of_function(func);
            let entry = entry_block(
                vars,
                func.params,
                func.blocks.len() as int,
                native_ret(func.ret),
            );
            &&& native_steps(unbound(vars.types.len()), args, entry, n) is Some
            &&& stands(
                vars,
                Scene { env: bind_arguments(func.params, args, n), out: Seq::empty() },
                native_steps(unbound(vars.types.len()), args, entry, n).unwrap(),
            )
        }),
    decreases n,
{
    let vars = BindingsView::of_function(func);
    lemma_bindings(func);
    if n > 0 {
        lemma_entry_mirrors(func, args, n - 1);
        let name = func.params[n - 1].name;
        assert(params_declare(func.params, func.params.len() as int, name));
        assert(declares(func, name));
        assert(vars.names.contains(name));
        lemma_slot(vars, name);
        let entry = entry_block(vars, func.params, func.blocks.len() as int, native_ret(func.ret));
        let before = native_steps(unbound(vars.types.len()), args, entry, n - 1).unwrap();
        lemma_bind_mirrors(
            vars,
            bind_arguments(func.params, args, n - 1),
            before.store,
            name,
            args[n - 1],
        );
        assert(entry[n - 1] == NativeOp::Parameter {
            dst: slot_or_zero(vars, name),
            index: (n - 1) as usize,
        });
    } else {
        assert(bind_arguments(func.params, args, 0) =~= Map::empty());
    }
}

/// Lowering keeps the meaning of a function. For every function that can be
/// lowered, every list of arguments and every bound on the length of the
/// run, the run of the plan prints what the direct run of the function
/// prints, value for value, and ends as it ends: with the same returned
/// value, or stuck where the direct run is stuck, or cut off where the direct
/// run is.
pub proof fn lemma_lowering_keeps_meaning(
    func: FunctionView,
    table: Seq<DeclView>,
    pointer_bytes: u8,
    args: Seq<Literal>,
    fuel: nat,
)
    requires
        function_fits(func),
        table.len() <= usize::MAX,
        lower_function_spec(func, table, pointer_bytes) is Ok,
    ensures
        native_run(lower_function_spec(func, table, pointer_bytes)->Ok_0, args, fuel) == bril_run(
            func,
            args,
            fuel,
        ),
{
    let scope = scope_of(func, table, pointer_bytes);
    let vars = BindingsView::of_function(func);
    let plan = lower_function_spec(func, table, pointer_bytes)->Ok_0;
    let n = func.params.len() as int;
    if args.len() == func.params.len() {
        lemma_entry_mirrors(func, args, n);
        let entry = entry_block(vars, func.params, func.blocks.len() as int, native_ret(func.ret));
        assert(plan.blocks[0] == entry);
        assert(entry.len() == n + 1);
        let bound = native_steps(unbound(vars.types.len()), args, entry, n).unwrap();
        if func.blocks.len() > 0 {
            lemma_run_mirrors(
                func,
                table,
                pointer_bytes,
                0,
                Scene { env: bind_arguments(func.params, args, n), out: Seq::empty() },
                bound,
                args,
                fuel,
            );
        }
    }
}

} // verus!
