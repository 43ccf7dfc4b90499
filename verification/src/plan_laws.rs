//! Every plan that the library builds can be replayed as it stands: its
//! instructions name only slots, blocks, parameters and declarations that
//! exist, and each of its blocks ends in exactly one jump, branch, return or
//! exit.

use crate::bindings::{lemma_slot, BindingsView};
use crate::lower::{arg_slots, args_bound, argument_ops, dest_bound, entry_block, instr_ops};
use crate::lower::{block_end, lower_block_spec, lower_blocks_spec, lower_function_spec};
use crate::lower::{lower_instr_spec, lower_prefix, print_ops, scope_of, shape_of, slot_or_zero};
use crate::lower::{DeclView, Scope, Shape};
use crate::lower_laws::{declares, function_fits, lemma_bindings, params_declare};
use crate::model::{lemma_first_index_from, FunctionView, InstrView};
use crate::native::{NativeOp, NativeType, PlanView, SignatureView};
use crate::runtime::params_of;
use crate::wrapper::{memory_entry_ops, memory_entry_plan, parse_ops, process_entry_ops};
use crate::wrapper::{process_entry_plan, slot_run, unpack_ops, MAX_ENTRY_PARAMS};
use vstd::prelude::*;

verus! {

/// Whether an optional slot, if there is one, is among the first `slots`.
pub open spec fn slot_fits(slot: Option<usize>, slots: int) -> bool {
    match slot {
        Some(s) => s < slots,
        None => true,
    }
}

/// Whether an instruction names only what exists in a function with `slots`
/// slots, `blocks` blocks and `params` parameters, in a session with
/// `callees` declarations.
pub open spec fn op_fits(op: NativeOp, slots: int, blocks: int, params: int, callees: int) -> bool {
    match op {
        NativeOp::Parameter { dst, index } => dst < slots && index < params,
        NativeOp::Constant { dst, ty, value } => dst < slots,
        NativeOp::Binary { op, dst, lhs, rhs } => dst < slots && lhs < slots && rhs < slots,
        NativeOp::Compare { domain, relation, dst, lhs, rhs } => dst < slots && lhs < slots && rhs
            < slots,
        NativeOp::Not { dst, src } => dst < slots && src < slots,
        NativeOp::Copy { dst, src } => dst < slots && src < slots,
        NativeOp::CharToInt { dst, src } => dst < slots && src < slots,
        NativeOp::IntToChar { dst, src } => dst < slots && src < slots,
        NativeOp::Load { dst, ptr, ty } => dst < slots && ptr < slots,
        NativeOp::Store { ptr, src, ty } => ptr < slots && src < slots,
        NativeOp::PointerAdd { dst, ptr, offset, scale } => dst < slots && ptr < slots && offset
            < slots,
        NativeOp::Unpack { dst, block, record, ty } => dst < slots && block < slots,
        NativeOp::Argument { src } => src < slots,
        NativeOp::Immediate { value } => true,
        NativeOp::Call { callee, dst } => callee < callees && slot_fits(dst, slots),
        NativeOp::CallRuntime { routine, dst } => slot_fits(dst, slots),
        NativeOp::Jump { target } => target < blocks,
        NativeOp::Branch { cond, if_true, if_false } => cond < slots && if_true < blocks
            && if_false < blocks,
        NativeOp::Return { src, ty } => slot_fits(src, slots),
        NativeOp::Exit { status } => true,
    }
}

/// Whether every instruction of a sequence names only what exists.
pub open spec fn ops_fit(ops: Seq<NativeOp>, slots: int, blocks: int, params: int, callees: int) -> bool {
    forall|k: int| 0 <= k < ops.len() ==> op_fits(#[trigger] ops[k], slots, blocks, params, callees)
}

/// Whether no instruction of a sequence ends a block.
pub open spec fn ops_straight(ops: Seq<NativeOp>) -> bool {
    forall|k: int| 0 <= k < ops.len() ==> !(#[trigger] ops[k]).is_terminator()
}

/// Whether a block ends in exactly one jump, branch, return or exit.
pub open spec fn block_closed(ops: Seq<NativeOp>) -> bool {
    &&& ops.len() > 0
    &&& ops.last().is_terminator()
    &&& forall|k: int| 0 <= k < ops.len() - 1 ==> !(#[trigger] ops[k]).is_terminator()
}

/// Whether a plan can be replayed in a session with `callees` declarations.
pub open spec fn plan_wf(plan: PlanView, callees: int) -> bool {
    &&& plan.blocks.len() > 0
    &&& forall|b: int|
        0 <= b < plan.blocks.len() ==> {
            &&& block_closed(#[trigger] plan.blocks[b])
            &&& ops_fit(
                plan.blocks[b],
                plan.slots.len() as int,
                plan.blocks.len() as int,
                plan.signature.params.len() as int,
                callees,
            )
        }
}

/// The instructions that print the first values of a list of slots name only
/// those slots, and none of them ends a block.
proof fn lemma_print_ops(vars: BindingsView, slots: Seq<usize>, n: int, blocks: int, params: int, callees: int)
    requires
        0 <= n <= slots.len(),
        forall|k: int| 0 <= k < slots.len() ==> slots[k] < vars.names.len(),
        vars.names.len() == vars.types.len(),
    ensures
        ops_fit(print_ops(vars, slots, n), vars.types.len() as int, blocks, params, callees),
        ops_straight(print_ops(vars, slots, n)),
    decreases n,
{
    if n > 0 {
        lemma_print_ops(vars, slots, n - 1, blocks, params, callees);
    }
}

/// The native instructions of an instruction that can be lowered name only
/// what exists. They end a block exactly if the instruction does, and then
/// they are a single instruction.
pub proof fn lemma_instr_ops_fit(scope: Scope, instr: InstrView, params: int)
    requires
        scope.wf(),
        lower_instr_spec(scope, instr) is Ok,
    ensures
        ops_fit(
            lower_instr_spec(scope, instr)->Ok_0,
            scope.vars.types.len() as int,
            (scope.labels.len() + 1) as int,
            params,
            scope.callees.len() as int,
        ),
        instr.op.is_terminator() ==> lower_instr_spec(scope, instr)->Ok_0.len() == 1
            && lower_instr_spec(scope, instr)->Ok_0[0].is_terminator(),
        !instr.op.is_terminator() ==> ops_straight(lower_instr_spec(scope, instr)->Ok_0),
{
    let ops = instr_ops(scope, instr);
    let a = arg_slots(scope.vars, instr.args);
    let slots = scope.vars.types.len() as int;
    assert forall|k: int| 0 <= k < a.len() implies a[k] < slots by {
        assert(scope.vars.slot(instr.args[k]) is Some);
        lemma_slot(scope.vars, instr.args[k]);
    }
    match instr.dest {
        Some(d) => {
            lemma_slot(scope.vars, d.name);
        },
        None => {},
    }
    if shape_of(instr.op) == Shape::Print {
        lemma_print_ops(
            scope.vars,
            a,
            a.len() as int,
            (scope.labels.len() + 1) as int,
            params,
            scope.callees.len() as int,
        );
    }
    if shape_of(instr.op) == Shape::Call {
        lemma_first_index_from(scope.callees, (crate::lower::DeclKind::Function, instr.funcs[0]), 0);
    }
    if shape_of(instr.op) == Shape::Jump || shape_of(instr.op) == Shape::Branch {
        assert forall|i: int| 0 <= i < instr.labels.len() implies 1 <= (
        #[trigger] scope.label_target(instr.labels[i])).unwrap() <= scope.labels.len() by {
            assert(scope.label_target(instr.labels[i]) is Some);
            lemma_first_index_from(scope.labels, Some(instr.labels[i]), 0);
        }
        assert(scope.label_target(instr.labels[0]).unwrap() <= scope.labels.len());
        if shape_of(instr.op) == Shape::Branch {
            assert(scope.label_target(instr.labels[1]).unwrap() <= scope.labels.len());
        }
    }
    assert forall|k: int| 0 <= k < ops.len() implies op_fits(
        #[trigger] ops[k],
        slots,
        (scope.labels.len() + 1) as int,
        params,
        scope.callees.len() as int,
    ) by {}
}

/// The native instructions of a prefix of a block that can be lowered name
/// only what exists, and end a block only with the last of them, exactly if
/// the last instruction of the prefix ends its block.
proof fn lemma_prefix_fits(scope: Scope, instrs: Seq<InstrView>, block: usize, n: int, params: int)
    requires
        scope.wf(),
        0 <= n <= instrs.len(),
        lower_prefix(scope, instrs, block, n) is Ok,
    ensures
        ops_fit(
            lower_prefix(scope, instrs, block, n)->Ok_0,
            scope.vars.types.len() as int,
            (scope.labels.len() + 1) as int,
            params,
            scope.callees.len() as int,
        ),
        n == 0 || !instrs[n - 1].op.is_terminator() ==> ops_straight(
            lower_prefix(scope, instrs, block, n)->Ok_0,
        ),
        n > 0 && instrs[n - 1].op.is_terminator() ==> block_closed(
            lower_prefix(scope, instrs, block, n)->Ok_0,
        ),
    decreases n,
{
    if n > 0 {
        lemma_prefix_fits(scope, instrs, block, n - 1, params);
        lemma_instr_ops_fit(scope, instrs[n - 1], params);
        let before = lower_prefix(scope, instrs, block, n - 1)->Ok_0;
        let more = lower_instr_spec(scope, instrs[n - 1])->Ok_0;
        let all = lower_prefix(scope, instrs, block, n)->Ok_0;
        assert(all == before + more);
        assert(n - 1 == 0 || !instrs[n - 2].op.is_terminator());
        assert forall|k: int| 0 <= k < all.len() implies op_fits(
            #[trigger] all[k],
            scope.vars.types.len() as int,
            (scope.labels.len() + 1) as int,
            params,
            scope.callees.len() as int,
        ) by {
            if k < before.len() {
                assert(all[k] == before[k]);
            } else {
                assert(all[k] == more[k - before.len()]);
            }
        }
        assert forall|k: int| 0 <= k < all.len() - 1 implies !(#[trigger] all[k]).is_terminator() by {
            if k < before.len() {
                assert(all[k] == before[k]);
            } else {
                assert(all[k] == more[k - before.len()]);
            }
        }
        if !instrs[n - 1].op.is_terminator() {
            assert forall|k: int| 0 <= k < all.len() implies !(#[trigger] all[k]).is_terminator() by {
                if k < before.len() {
                    assert(all[k] == before[k]);
                } else {
                    assert(all[k] == more[k - before.len()]);
                }
            }
        } else {
            assert(all.last() == more[0]);
        }
    }
}

/// The native block of a Bril block that can be lowered names only what
/// exists and ends in exactly one jump, branch or return.
proof fn lemma_block_fits(scope: Scope, blocks: Seq<crate::model::BlockView>, block: usize, params: int)
    requires
        scope.wf(),
        scope.labels.len() == blocks.len(),
        block < blocks.len(),
        lower_block_spec(scope, blocks, block) is Ok,
    ensures
        ops_fit(
            lower_block_spec(scope, blocks, block)->Ok_0,
            scope.vars.types.len() as int,
            (scope.labels.len() + 1) as int,
            params,
            scope.callees.len() as int,
        ),
        block_closed(lower_block_spec(scope, blocks, block)->Ok_0),
{
    let instrs = blocks[block as int].instrs;
    lemma_prefix_fits(scope, instrs, block, instrs.len() as int, params);
    let body = lower_prefix(scope, instrs, block, instrs.len() as int)->Ok_0;
    let end = block_end(instrs, block, blocks.len() as int, scope.ret);
    let all = lower_block_spec(scope, blocks, block)->Ok_0;
    assert(all == body + end);
    assert forall|k: int| 0 <= k < all.len() implies op_fits(
        #[trigger] all[k],
        scope.vars.types.len() as int,
        (scope.labels.len() + 1) as int,
        params,
        scope.callees.len() as int,
    ) by {
        if k < body.len() {
            assert(all[k] == body[k]);
        } else {
            assert(all[k] == end[k - body.len()]);
        }
    }
    if end.len() == 0 {
        assert(all =~= body);
    } else {
        assert(all.last() == end[0]);
        assert forall|k: int| 0 <= k < all.len() - 1 implies !(#[trigger] all[k]).is_terminator() by {
            assert(all[k] == body[k]);
        }
    }
}

/// The native blocks of the first blocks of a function that can be lowered
/// each name only what exists and end in exactly one jump, branch or return.
proof fn lemma_blocks_fit(scope: Scope, blocks: Seq<crate::model::BlockView>, n: int, params: int)
    requires
        scope.wf(),
        scope.labels.len() == blocks.len(),
        0 <= n <= blocks.len(),
        lower_blocks_spec(scope, blocks, n) is Ok,
    ensures
        lower_blocks_spec(scope, blocks, n)->Ok_0.len() == n,
        forall|b: int|
            0 <= b < n ==> {
                &&& block_closed(#[trigger] lower_blocks_spec(scope, blocks, n)->Ok_0[b])
                &&& ops_fit(
                    lower_blocks_spec(scope, blocks, n)->Ok_0[b],
                    scope.vars.types.len() as int,
                    (scope.labels.len() + 1) as int,
                    params,
                    scope.callees.len() as int,
                )
            },
    decreases n,
{
    if n > 0 {
        lemma_blocks_fit(scope, blocks, n - 1, params);
        lemma_block_fits(scope, blocks, (n - 1) as usize, params);
        let before = lower_blocks_spec(scope, blocks, n - 1)->Ok_0;
        let all = lower_blocks_spec(scope, blocks, n)->Ok_0;
        assert forall|b: int| 0 <= b < n implies {
            &&& block_closed(#[trigger] all[b])
            &&& ops_fit(
                all[b],
                scope.vars.types.len() as int,
                (scope.labels.len() + 1) as int,
                params,
                scope.callees.len() as int,
            )
        } by {
            if b < n - 1 {
                assert(all[b] == before[b]);
            }
        }
    }
}

/// Every plan that lowering gives can be replayed as it stands. It has one
/// native block for each block of the function, after the entry block, and
/// one slot for each name that the function declares.
pub proof fn lemma_lowered_plan_wf(func: FunctionView, table: Seq<DeclView>, pointer_bytes: u8)
    requires
        function_fits(func),
        table.len() <= usize::MAX,
        lower_function_spec(func, table, pointer_bytes) is Ok,
    ensures
        plan_wf(lower_function_spec(func, table, pointer_bytes)->Ok_0, table.len() as int),
        lower_function_spec(func, table, pointer_bytes)->Ok_0.blocks.len() == func.blocks.len() + 1,
        lower_function_spec(func, table, pointer_bytes)->Ok_0.slots.len()
            == BindingsView::of_function(func).names.len(),
        lower_function_spec(func, table, pointer_bytes)->Ok_0.signature.params.len()
            == func.params.len(),
{
    let scope = scope_of(func, table, pointer_bytes);
    let plan = lower_function_spec(func, table, pointer_bytes)->Ok_0;
    let params = func.params.len() as int;
    lemma_bindings(func);
    lemma_blocks_fit(scope, func.blocks, func.blocks.len() as int, params);
    let lowered = lower_blocks_spec(scope, func.blocks, func.blocks.len() as int)->Ok_0;
    let entry = entry_block(scope.vars, func.params, func.blocks.len() as int, scope.ret);
    assert(plan.blocks == seq![entry] + lowered);
    assert forall|k: int| 0 <= k < entry.len() implies op_fits(
        #[trigger] entry[k],
        plan.slots.len() as int,
        plan.blocks.len() as int,
        params,
        table.len() as int,
    ) by {
        if k < func.params.len() {
            assert(func.params[k].name == func.params[k].name);
            assert(params_declare(func.params, params, func.params[k].name));
            assert(declares(func, func.params[k].name));
            assert(BindingsView::of_function(func).names.contains(func.params[k].name));
            lemma_slot(scope.vars, func.params[k].name);
        }
    }
    assert forall|b: int| 0 <= b < plan.blocks.len() implies {
        &&& block_closed(#[trigger] plan.blocks[b])
        &&& ops_fit(plan.blocks[b], plan.slots.len() as int, plan.blocks.len() as int, params, table.len() as int)
    } by {
        if b > 0 {
            assert(plan.blocks[b] == lowered[b - 1]);
        } else {
            assert(plan.blocks[0] == entry);
        }
    }
}

/// The instructions that read the first `n` command-line words are three
/// for each word, name only slots of the entry, and end no block.
proof fn lemma_parse_ops(types: Seq<NativeType>, n: int, callees: int)
    requires
        0 <= n <= types.len() <= MAX_ENTRY_PARAMS,
    ensures
        parse_ops(types, n).len() == 3 * n,
        ops_fit(parse_ops(types, n), (types.len() + 2) as int, 1, 2, callees),
        ops_straight(parse_ops(types, n)),
        forall|k: int| 0 <= k < 3 * n ==> !((#[trigger] parse_ops(types, n)[k]) is Call),
    decreases n,
{
    if n > 0 {
        lemma_parse_ops(types, n - 1, callees);
        let before = parse_ops(types, n - 1);
        let all = parse_ops(types, n);
        assert forall|k: int| 0 <= k < all.len() implies op_fits(
            #[trigger] all[k],
            (types.len() + 2) as int,
            1,
            2,
            callees,
        ) && !all[k].is_terminator() && !(all[k] is Call) by {
            if k < before.len() {
                assert(all[k] == before[k]);
            }
        }
    }
}

/// The process entry checks the number of command-line words before it does
/// anything else: the first routine it calls is the check, on the argument
/// count it was given and the number of parameters of the wrapped function.
/// The wrapped function is called once, after every word has been read, and
/// the entry then exits with status 0.
pub proof fn lemma_process_entry_checks_first(types: Seq<NativeType>, callee: usize)
    requires
        types.len() <= MAX_ENTRY_PARAMS,
    ensures
        ({
            let ops = process_entry_ops(types, callee);
            &&& ops.len() == 4 * types.len() + 7
            &&& ops[0] == NativeOp::Parameter { dst: 0, index: 0 }
            &&& ops[2] == NativeOp::Argument { src: 0 }
            &&& ops[3] == NativeOp::Immediate { value: types.len() as i64 }
            &&& ops[4] == NativeOp::CallRuntime {
                routine: crate::native::RuntimeFn::CheckArgumentCount,
                dst: None,
            }
            &&& forall|k: int| 0 <= k < 4 ==> !((#[trigger] ops[k]) is Call) && !(ops[k] is CallRuntime)
            &&& forall|k: int| 0 <= k < ops.len() && (#[trigger] ops[k]) is Call ==> k == ops.len() - 2
            &&& ops[ops.len() - 2] == NativeOp::Call { callee, dst: None }
            &&& ops.last() == NativeOp::Exit { status: 0 }
        }),
{
    let n = types.len() as int;
    lemma_parse_ops(types, n, callee + 1);
    let head = seq![
        NativeOp::Parameter { dst: 0, index: 0 },
        NativeOp::Parameter { dst: 1, index: 1 },
        NativeOp::Argument { src: 0 },
        NativeOp::Immediate { value: types.len() as i64 },
        NativeOp::CallRuntime { routine: crate::native::RuntimeFn::CheckArgumentCount, dst: None },
    ];
    let parse = parse_ops(types, n);
    let tail = argument_ops(slot_run(2, n)).push(NativeOp::Call { callee, dst: None }).push(
        NativeOp::Exit { status: 0 },
    );
    let ops = process_entry_ops(types, callee);
    assert(ops == head + parse + tail);
    assert forall|k: int| 0 <= k < ops.len() && (#[trigger] ops[k]) is Call implies k == ops.len()
        - 2 by {
        if k < 5 {
            assert(ops[k] == head[k]);
        } else if k < 5 + 3 * n {
            assert(ops[k] == parse[k - 5]);
        } else {
            assert(ops[k] == tail[k - 5 - 3 * n]);
        }
    }
    assert(ops[0] == head[0] && ops[2] == head[2] && ops[3] == head[3] && ops[4] == head[4]);
    assert(ops[1] == head[1]);
    assert(ops[ops.len() - 2] == tail[n]);
    assert(ops.last() == tail[n + 1]);
}

/// The plan of a process entry can be replayed as it stands.
pub proof fn lemma_process_entry_wf(types: Seq<NativeType>, callee: usize, callees: int)
    requires
        types.len() <= MAX_ENTRY_PARAMS,
        callee < callees,
    ensures
        plan_wf(process_entry_plan(types, callee), callees),
{
    let n = types.len() as int;
    lemma_parse_ops(types, n, callees);
    let head = seq![
        NativeOp::Parameter { dst: 0, index: 0 },
        NativeOp::Parameter { dst: 1, index: 1 },
        NativeOp::Argument { src: 0 },
        NativeOp::Immediate { value: types.len() as i64 },
        NativeOp::CallRuntime { routine: crate::native::RuntimeFn::CheckArgumentCount, dst: None },
    ];
    let parse = parse_ops(types, n);
    let tail = argument_ops(slot_run(2, n)).push(NativeOp::Call { callee, dst: None }).push(
        NativeOp::Exit { status: 0 },
    );
    let ops = process_entry_ops(types, callee);
    let plan = process_entry_plan(types, callee);
    assert(ops == head + parse + tail);
    assert(plan.blocks[0] == ops);
    assert forall|k: int| 0 <= k < ops.len() implies op_fits(
        #[trigger] ops[k],
        n + 2,
        1,
        2,
        callees,
    ) && (k < ops.len() - 1 ==> !ops[k].is_terminator()) by {
        if k < 5 {
            assert(ops[k] == head[k]);
        } else if k < 5 + 3 * n {
            assert(ops[k] == parse[k - 5]);
        } else {
            assert(ops[k] == tail[k - 5 - 3 * n]);
        }
    }
    assert(ops.last() == tail[n + 1]);
}

/// The plan of a memory entry can be replayed as it stands.
pub proof fn lemma_memory_entry_wf(types: Seq<NativeType>, callee: usize, callees: int)
    requires
        types.len() <= MAX_ENTRY_PARAMS,
        callee < callees,
    ensures
        plan_wf(memory_entry_plan(types, callee), callees),
{
    let n = types.len() as int;
    let head = seq![NativeOp::Parameter { dst: 0, index: 0 }];
    let unpack = unpack_ops(types, n);
    let tail = argument_ops(slot_run(1, n)).push(NativeOp::Call { callee, dst: None }).push(
        NativeOp::Return { src: None, ty: None },
    );
    let ops = memory_entry_ops(types, callee);
    let plan = memory_entry_plan(types, callee);
    assert(ops == head + unpack + tail);
    assert(plan.blocks[0] == ops);
    assert forall|k: int| 0 <= k < ops.len() implies op_fits(
        #[trigger] ops[k],
        n + 1,
        1,
        1,
        callees,
    ) && (k < ops.len() - 1 ==> !ops[k].is_terminator()) by {
        if k < 1 {
            assert(ops[k] == head[k]);
        } else if k < 1 + n {
            assert(ops[k] == unpack[k - 1]);
        } else {
            assert(ops[k] == tail[k - 1 - n]);
        }
    }
    assert(ops.last() == tail[n + 1]);
}

/// How many call arguments are queued after the first `n` instructions of a
/// sequence.
pub open spec fn queued_after(ops: Seq<NativeOp>, n: int) -> int
    decreases n,
{
    if n <= 0 {
        0
    } else {
        match ops[n - 1] {
            NativeOp::Argument { src } => queued_after(ops, n - 1) + 1,
            NativeOp::Immediate { value } => queued_after(ops, n - 1) + 1,
            NativeOp::Call { callee, dst } => 0,
            NativeOp::CallRuntime { routine, dst } => 0,
            _ => queued_after(ops, n - 1),
        }
    }
}

/// How many queued arguments an instruction must find: a call as many as
/// its callee has parameters, a runtime call as many as the routine has, and
/// an instruction that ends a block none.
pub open spec fn wanted(op: NativeOp, signatures: Seq<SignatureView>) -> int {
    match op {
        NativeOp::Call { callee, dst } => if callee < signatures.len() {
            signatures[callee as int].params.len() as int
        } else {
            -1
        },
        NativeOp::CallRuntime { routine, dst } => params_of(routine).len() as int,
        _ => 0,
    }
}

/// Whether an instruction calls or ends a block.
pub open spec fn takes_stock(op: NativeOp) -> bool {
    op is Call || op is CallRuntime || op.is_terminator()
}

/// Whether every call of a sequence finds as many queued arguments as its
/// callee has parameters, and no argument is left queued where a block ends.
pub open spec fn ops_fed(ops: Seq<NativeOp>, signatures: Seq<SignatureView>) -> bool {
    forall|k: int|
        0 <= k < ops.len() && takes_stock(#[trigger] ops[k]) ==> queued_after(ops, k) == wanted(
            ops[k],
            signatures,
        )
}

/// Whether a sequence feeds its calls and leaves `pending` arguments queued.
pub open spec fn fed_with(ops: Seq<NativeOp>, signatures: Seq<SignatureView>, pending: int) -> bool {
    ops_fed(ops, signatures) && queued_after(ops, ops.len() as int) == pending
}

/// Whether every call of a plan is fed.
pub open spec fn plan_fed(plan: PlanView, signatures: Seq<SignatureView>) -> bool {
    forall|b: int| 0 <= b < plan.blocks.len() ==> ops_fed(#[trigger] plan.blocks[b], signatures)
}

/// What is queued after some instructions depends only on those.
proof fn lemma_queued_agree(one: Seq<NativeOp>, two: Seq<NativeOp>, n: int)
    requires
        0 <= n <= one.len(),
        n <= two.len(),
        forall|i: int| 0 <= i < n ==> one[i] == two[i],
    ensures
        queued_after(one, n) == queued_after(two, n),
    decreases n,
{
    if n > 0 {
        lemma_queued_agree(one, two, n - 1);
    }
}

/// What one more instruction does to a sequence that feeds its calls.
proof fn lemma_fed_push(ops: Seq<NativeOp>, signatures: Seq<SignatureView>, pending: int, op: NativeOp)
    requires
        fed_with(ops, signatures, pending),
        takes_stock(op) ==> wanted(op, signatures) == pending,
    ensures
        fed_with(
            ops.push(op),
            signatures,
            if op is Argument || op is Immediate {
                pending + 1
            } else if op is Call || op is CallRuntime {
                0
            } else {
                pending
            },
        ),
{
    let all = ops.push(op);
    lemma_queued_agree(all, ops, ops.len() as int);
    assert forall|k: int| 0 <= k < all.len() && takes_stock(#[trigger] all[k]) implies queued_after(
        all,
        k,
    ) == wanted(all[k], signatures) by {
        lemma_queued_agree(all, ops, k);
        if k < ops.len() {
            assert(all[k] == ops[k]);
        }
    }
}

/// After a sequence that leaves nothing queued, a second sequence finds what
/// it would find alone.
proof fn lemma_queued_append(a: Seq<NativeOp>, b: Seq<NativeOp>, n: int)
    requires
        queued_after(a, a.len() as int) == 0,
        0 <= n <= b.len(),
    ensures
        queued_after(a + b, a.len() + n) == queued_after(b, n),
    decreases n,
{
    if n == 0 {
        lemma_queued_agree(a + b, a, a.len() as int);
    } else {
        lemma_queued_append(a, b, n - 1);
        assert((a + b)[a.len() + n - 1] == b[n - 1]);
    }
}

/// Two sequences that feed their calls, the first of which leaves nothing
/// queued, feed their calls when one follows the other.
proof fn lemma_fed_append(a: Seq<NativeOp>, b: Seq<NativeOp>, signatures: Seq<SignatureView>, pending: int)
    requires
        fed_with(a, signatures, 0),
        fed_with(b, signatures, pending),
    ensures
        fed_with(a + b, signatures, pending),
{
    let all = a + b;
    lemma_queued_append(a, b, b.len() as int);
    assert forall|k: int| 0 <= k < all.len() && takes_stock(#[trigger] all[k]) implies queued_after(
        all,
        k,
    ) == wanted(all[k], signatures) by {
        if k < a.len() {
            lemma_queued_agree(all, a, k);
            assert(all[k] == a[k]);
        } else {
            lemma_queued_append(a, b, k - a.len());
            assert(all[k] == b[k - a.len()]);
        }
    }
}

/// Queueing the values of some slots leaves as many arguments queued.
proof fn lemma_arguments_queue(slots: Seq<usize>, signatures: Seq<SignatureView>, n: int)
    requires
        0 <= n <= slots.len(),
    ensures
        fed_with(argument_ops(slots.take(n)), signatures, n),
    decreases n,
{
    if n > 0 {
        lemma_arguments_queue(slots, signatures, n - 1);
        let op = NativeOp::Argument { src: slots[n - 1] };
        lemma_fed_push(argument_ops(slots.take(n - 1)), signatures, n - 1, op);
        assert(argument_ops(slots.take(n)) =~= argument_ops(slots.take(n - 1)).push(op));
    }
}

/// Printing feeds every routine it calls and leaves nothing queued.
proof fn lemma_print_fed(vars: BindingsView, slots: Seq<usize>, signatures: Seq<SignatureView>, n: int)
    requires
        0 <= n <= slots.len(),
    ensures
        fed_with(print_ops(vars, slots, n), signatures, 0),
    decreases n,
{
    if n > 0 {
        lemma_print_fed(vars, slots, signatures, n - 1);
        let before = print_ops(vars, slots, n - 1);
        let separator = NativeOp::CallRuntime {
            routine: crate::native::RuntimeFn::PrintSeparator,
            dst: None,
        };
        let separated = if n > 1 {
            before.push(separator)
        } else {
            before
        };
        if n > 1 {
            lemma_fed_push(before, signatures, 0, separator);
        }
        let argument = NativeOp::Argument { src: slots[n - 1] };
        lemma_fed_push(separated, signatures, 0, argument);
        let call = NativeOp::CallRuntime {
            routine: crate::lower::print_routine(crate::lower::slot_type(vars, slots[n - 1])),
            dst: None,
        };
        lemma_fed_push(separated.push(argument), signatures, 1, call);
    }
}

/// No argument is queued anywhere in a sequence that queues none.
proof fn lemma_nothing_queued(ops: Seq<NativeOp>, n: int)
    requires
        0 <= n <= ops.len(),
        forall|k: int|
            0 <= k < ops.len() ==> !((#[trigger] ops[k]) is Argument) && !(ops[k] is Immediate),
    ensures
        queued_after(ops, n) == 0,
    decreases n,
{
    if n > 0 {
        lemma_nothing_queued(ops, n - 1);
    }
}

/// The native instructions of an instruction that can be lowered feed every
/// call they make, and leave nothing queued.
proof fn lemma_instr_fed(scope: Scope, instr: InstrView)
    requires
        scope.wf(),
        lower_instr_spec(scope, instr) is Ok,
    ensures
        fed_with(lower_instr_spec(scope, instr)->Ok_0, scope.signatures, 0),
{
    let ops = instr_ops(scope, instr);
    let sigs = scope.signatures;
    let a = arg_slots(scope.vars, instr.args);
    let none = Seq::<NativeOp>::empty();
    assert(fed_with(none, sigs, 0));
    match shape_of(instr.op) {
        Shape::Nop => {
            assert(ops =~= none);
        },
        Shape::Call => {
            let callee = scope.callee(instr.funcs[0]).unwrap();
            lemma_first_index_from(scope.callees, (crate::lower::DeclKind::Function, instr.funcs[0]), 0);
            lemma_arguments_queue(a, sigs, a.len() as int);
            assert(a.take(a.len() as int) =~= a);
            let call = ops[a.len() as int];
            lemma_fed_push(argument_ops(a), sigs, a.len() as int, call);
            assert(ops =~= argument_ops(a).push(call));
        },
        Shape::Print => {
            lemma_print_fed(scope.vars, a, sigs, a.len() as int);
            let end = NativeOp::CallRuntime { routine: crate::native::RuntimeFn::PrintEnd, dst: None };
            lemma_fed_push(print_ops(scope.vars, a, a.len() as int), sigs, 0, end);
        },
        Shape::Allocate => {
            lemma_fed_push(none, sigs, 0, ops[0]);
            lemma_fed_push(none.push(ops[0]), sigs, 1, ops[1]);
            lemma_fed_push(none.push(ops[0]).push(ops[1]), sigs, 2, ops[2]);
            assert(ops =~= none.push(ops[0]).push(ops[1]).push(ops[2]));
        },
        Shape::Release => {
            lemma_fed_push(none, sigs, 0, ops[0]);
            lemma_fed_push(none.push(ops[0]), sigs, 1, ops[1]);
            assert(ops =~= none.push(ops[0]).push(ops[1]));
        },
        _ => {
            lemma_fed_push(none, sigs, 0, ops[0]);
            assert(ops =~= none.push(ops[0]));
        },
    }
}

/// The native instructions of a prefix of a block that can be lowered feed
/// every call they make, and leave nothing queued.
proof fn lemma_prefix_fed(scope: Scope, instrs: Seq<InstrView>, block: usize, n: int)
    requires
        scope.wf(),
        0 <= n <= instrs.len(),
        lower_prefix(scope, instrs, block, n) is Ok,
    ensures
        fed_with(lower_prefix(scope, instrs, block, n)->Ok_0, scope.signatures, 0),
    decreases n,
{
    if n > 0 {
        lemma_prefix_fed(scope, instrs, block, n - 1);
        lemma_instr_fed(scope, instrs[n - 1]);
        lemma_fed_append(
            lower_prefix(scope, instrs, block, n - 1)->Ok_0,
            lower_instr_spec(scope, instrs[n - 1])->Ok_0,
            scope.signatures,
            0,
        );
    }
}

/// The native blocks of the first blocks of a function that can be lowered
/// feed every call they make.
proof fn lemma_blocks_fed(scope: Scope, blocks: Seq<crate::model::BlockView>, n: int)
    requires
        scope.wf(),
        0 <= n <= blocks.len() <= usize::MAX,
        lower_blocks_spec(scope, blocks, n) is Ok,
    ensures
        lower_blocks_spec(scope, blocks, n)->Ok_0.len() == n,
        forall|b: int|
            0 <= b < n ==> ops_fed(
                #[trigger] lower_blocks_spec(scope, blocks, n)->Ok_0[b],
                scope.signatures,
            ),
    decreases n,
{
    if n > 0 {
        lemma_blocks_fed(scope, blocks, n - 1);
        let block = (n - 1) as usize;
        let instrs = blocks[n - 1].instrs;
        lemma_prefix_fed(scope, instrs, block, instrs.len() as int);
        let body = lower_prefix(scope, instrs, block, instrs.len() as int)->Ok_0;
        let end = block_end(instrs, block, blocks.len() as int, scope.ret);
        let none = Seq::<NativeOp>::empty();
        if end.len() > 0 {
            lemma_fed_push(none, scope.signatures, 0, end[0]);
            assert(end =~= none.push(end[0]));
        } else {
            assert(end =~= none);
        }
        lemma_fed_append(body, end, scope.signatures, 0);
        let before = lower_blocks_spec(scope, blocks, n - 1)->Ok_0;
        let all = lower_blocks_spec(scope, blocks, n)->Ok_0;
        assert(all[n - 1] == body + end);
        assert forall|b: int| 0 <= b < n implies ops_fed(#[trigger] all[b], scope.signatures) by {
            if b < n - 1 {
                assert(all[b] == before[b]);
            }
        }
    }
}

/// Every call of a plan that lowering gives finds as many queued arguments
/// as its callee has parameters, and no argument is left queued where a block
/// ends.
pub proof fn lemma_lowered_plan_fed(func: FunctionView, table: Seq<DeclView>, pointer_bytes: u8)
    requires
        function_fits(func),
        table.len() <= usize::MAX,
        lower_function_spec(func, table, pointer_bytes) is Ok,
    ensures
        plan_fed(
            lower_function_spec(func, table, pointer_bytes)->Ok_0,
            crate::lower::decl_signatures(table),
        ),
{
    let scope = scope_of(func, table, pointer_bytes);
    let plan = lower_function_spec(func, table, pointer_bytes)->Ok_0;
    lemma_bindings(func);
    lemma_blocks_fed(scope, func.blocks, func.blocks.len() as int);
    let lowered = lower_blocks_spec(scope, func.blocks, func.blocks.len() as int)->Ok_0;
    let entry = entry_block(scope.vars, func.params, func.blocks.len() as int, scope.ret);
    assert(plan.blocks == seq![entry] + lowered);
    assert forall|k: int| 0 <= k < entry.len() && takes_stock(#[trigger] entry[k]) implies queued_after(
        entry,
        k,
    ) == wanted(entry[k], scope.signatures) by {
        lemma_nothing_queued(entry, k);
    }
    assert forall|b: int| 0 <= b < plan.blocks.len() implies ops_fed(
        #[trigger] plan.blocks[b],
        scope.signatures,
    ) by {
        if b > 0 {
            assert(plan.blocks[b] == lowered[b - 1]);
        } else {
            assert(plan.blocks[0] == entry);
        }
    }
}

/// Reading the command-line words feeds every routine it calls.
proof fn lemma_parse_fed(types: Seq<NativeType>, signatures: Seq<SignatureView>, n: int)
    requires
        0 <= n <= types.len(),
    ensures
        fed_with(parse_ops(types, n), signatures, 0),
    decreases n,
{
    if n > 0 {
        lemma_parse_fed(types, signatures, n - 1);
        let before = parse_ops(types, n - 1);
        let one = NativeOp::Argument { src: 1 };
        let two = NativeOp::Immediate { value: n as i64 };
        let call = NativeOp::CallRuntime {
            routine: crate::wrapper::parse_routine(types[n - 1]),
            dst: Some((n + 1) as usize),
        };
        lemma_fed_push(before, signatures, 0, one);
        lemma_fed_push(before.push(one), signatures, 1, two);
        lemma_fed_push(before.push(one).push(two), signatures, 2, call);
    }
}

/// An entry shim feeds every call it makes: the routines of the runtime
/// library, and the function it wraps, which gets one argument for each of
/// its parameters.
pub proof fn lemma_entries_fed(types: Seq<NativeType>, callee: usize, signatures: Seq<SignatureView>)
    requires
        callee < signatures.len(),
        signatures[callee as int].params.len() == types.len(),
    ensures
        plan_fed(process_entry_plan(types, callee), signatures),
        plan_fed(memory_entry_plan(types, callee), signatures),
{
    let n = types.len() as int;
    let none = Seq::<NativeOp>::empty();
    let call = NativeOp::Call { callee, dst: None };
    assert(fed_with(none, signatures, 0));
    // The process entry.
    let head = seq![
        NativeOp::Parameter { dst: 0, index: 0 },
        NativeOp::Parameter { dst: 1, index: 1 },
        NativeOp::Argument { src: 0 },
        NativeOp::Immediate { value: types.len() as i64 },
        NativeOp::CallRuntime { routine: crate::native::RuntimeFn::CheckArgumentCount, dst: None },
    ];
    lemma_fed_push(none, signatures, 0, head[0]);
    lemma_fed_push(none.push(head[0]), signatures, 0, head[1]);
    lemma_fed_push(none.push(head[0]).push(head[1]), signatures, 0, head[2]);
    lemma_fed_push(none.push(head[0]).push(head[1]).push(head[2]), signatures, 1, head[3]);
    lemma_fed_push(
        none.push(head[0]).push(head[1]).push(head[2]).push(head[3]),
        signatures,
        2,
        head[4],
    );
    assert(head =~= none.push(head[0]).push(head[1]).push(head[2]).push(head[3]).push(head[4]));
    lemma_parse_fed(types, signatures, n);
    let parse = parse_ops(types, n);
    lemma_fed_append(head, parse, signatures, 0);
    let run = slot_run(2, n);
    lemma_arguments_queue(run, signatures, n);
    assert(run.take(n) =~= run);
    let exit = NativeOp::Exit { status: 0 };
    lemma_fed_push(argument_ops(run), signatures, n, call);
    lemma_fed_push(argument_ops(run).push(call), signatures, 0, exit);
    let tail = argument_ops(run).push(call).push(exit);
    lemma_fed_append(head + parse, tail, signatures, 0);
    assert(process_entry_plan(types, callee).blocks[0] == head + parse + tail);
    // The memory entry.
    let first = seq![NativeOp::Parameter { dst: 0, index: 0 }];
    let unpack = unpack_ops(types, n);
    let front = first + unpack;
    assert forall|k: int| 0 <= k < front.len() implies !((#[trigger] front[k]) is Argument) && !(
    front[k] is Immediate) && !takes_stock(front[k]) by {
        if k >= 1 {
            assert(front[k] == unpack[k - 1]);
        }
    }
    lemma_nothing_queued(front, front.len() as int);
    assert(fed_with(front, signatures, 0));
    let run1 = slot_run(1, n);
    lemma_arguments_queue(run1, signatures, n);
    assert(run1.take(n) =~= run1);
    let ret = NativeOp::Return { src: None, ty: None };
    lemma_fed_push(argument_ops(run1), signatures, n, call);
    lemma_fed_push(argument_ops(run1).push(call), signatures, 0, ret);
    let tail1 = argument_ops(run1).push(call).push(ret);
    lemma_fed_append(front, tail1, signatures, 0);
    assert(memory_entry_plan(types, callee).blocks[0] == first + unpack + tail1);
}

/// A plan that feeds its calls in a session feeds them in every session that
/// has the same declarations in the same slots, and maybe more.
pub proof fn lemma_plan_fed_grows(plan: PlanView, before: Seq<SignatureView>, after: Seq<SignatureView>)
    requires
        plan_fed(plan, before),
        before.len() <= after.len(),
        forall|i: int| 0 <= i < before.len() ==> before[i] == after[i],
    ensures
        plan_fed(plan, after),
{
    assert forall|b: int| 0 <= b < plan.blocks.len() implies ops_fed(
        #[trigger] plan.blocks[b],
        after,
    ) by {
        let ops = plan.blocks[b];
        assert(ops_fed(ops, before));
        assert forall|k: int| 0 <= k < ops.len() && takes_stock(#[trigger] ops[k]) implies queued_after(
            ops,
            k,
        ) == wanted(ops[k], after) by {
            assert(queued_after(ops, k) == wanted(ops[k], before));
            lemma_queued_not_negative(ops, k);
        }
    }
}

/// The number of queued arguments is never negative.
proof fn lemma_queued_not_negative(ops: Seq<NativeOp>, n: int)
    ensures
        queued_after(ops, n) >= 0,
    decreases n,
{
    if n > 0 {
        lemma_queued_not_negative(ops, n - 1);
    }
}

} // verus!
