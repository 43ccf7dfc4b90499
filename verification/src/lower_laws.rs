//! What holds of every lowering: where a failure points, which names have
//! slots, and how every plan is built.

use crate::bindings::{lemma_bind, BindingsView};
use crate::blocks::ends_properly;
use crate::lower::{decl_keys, instr_ops, labels_resolve, shape_of, DeclKind, Shape};
use crate::lower::{lower_block_spec, lower_blocks_spec, lower_function_spec, lower_instr_spec};
use crate::lower::{lower_prefix, scope_of, DeclView, LowerError, LowerErrorKind, Scope};
use crate::model::{first_index, lemma_first_index_from};
use crate::model::{BlockView, FunctionView, InstrView, ParamView};
use vstd::prelude::*;

verus! {

/// The sizes of a function fit the machine.
pub open spec fn function_fits(func: FunctionView) -> bool {
    &&& func.params.len() <= usize::MAX
    &&& func.blocks.len() <= usize::MAX
    &&& BindingsView::of_function(func).names.len() <= usize::MAX
    &&& forall|b: int| 0 <= b < func.blocks.len() ==> (#[trigger] func.blocks[b]).instrs.len() <= usize::MAX
}

/// Whether a failure points at an instruction of the function that has the
/// defect it names: a jump, branch or return before the end of its block, or
/// an instruction that cannot be lowered for the reason given.
pub open spec fn failure_located(scope: Scope, blocks: Seq<BlockView>, e: LowerError) -> bool {
    &&& e.block < blocks.len()
    &&& e.instr < blocks[e.block as int].instrs.len()
    &&& if e.kind == LowerErrorKind::MisplacedTerminator {
        &&& blocks[e.block as int].instrs[e.instr as int].op.is_terminator()
        &&& e.instr + 1 < blocks[e.block as int].instrs.len()
    } else {
        lower_instr_spec(scope, blocks[e.block as int].instrs[e.instr as int]) == Err::<
            Seq<crate::native::NativeOp>,
            LowerErrorKind,
        >(e.kind)
    }
}

/// A failure among the first `n` instructions of a block points at one of
/// them.
pub proof fn lemma_prefix_failure(scope: Scope, instrs: Seq<InstrView>, block: usize, n: int)
    requires
        0 <= n <= instrs.len() <= usize::MAX,
        lower_prefix(scope, instrs, block, n) is Err,
    ensures
        ({
            let e = lower_prefix(scope, instrs, block, n)->Err_0;
            &&& e.block == block
            &&& e.instr < n
            &&& if e.kind == LowerErrorKind::MisplacedTerminator {
                instrs[e.instr as int].op.is_terminator() && e.instr + 1 < instrs.len()
            } else {
                lower_instr_spec(scope, instrs[e.instr as int]) == Err::<
                    Seq<crate::native::NativeOp>,
                    LowerErrorKind,
                >(e.kind)
            }
        }),
    decreases n,
{
    if n > 0 && lower_prefix(scope, instrs, block, n - 1) is Err {
        lemma_prefix_failure(scope, instrs, block, n - 1);
    }
}

/// A failure among the first `n` blocks of a function points at an
/// instruction of the function.
pub proof fn lemma_blocks_failure(scope: Scope, blocks: Seq<BlockView>, n: int)
    requires
        0 <= n <= blocks.len() <= usize::MAX,
        forall|b: int| 0 <= b < blocks.len() ==> (#[trigger] blocks[b]).instrs.len() <= usize::MAX,
        lower_blocks_spec(scope, blocks, n) is Err,
    ensures
        failure_located(scope, blocks, lower_blocks_spec(scope, blocks, n)->Err_0),
    decreases n,
{
    if n > 0 {
        if lower_blocks_spec(scope, blocks, n - 1) is Err {
            lemma_blocks_failure(scope, blocks, n - 1);
        } else {
            let instrs = blocks[n - 1].instrs;
            lemma_prefix_failure(scope, instrs, (n - 1) as usize, instrs.len() as int);
        }
    }
}

/// Where a function cannot be lowered, the failure points at an instruction
/// of the function that has the defect it names.
pub proof fn lemma_failure_located(func: FunctionView, table: Seq<DeclView>, pointer_bytes: u8)
    requires
        function_fits(func),
        lower_function_spec(func, table, pointer_bytes) is Err,
    ensures
        failure_located(
            scope_of(func, table, pointer_bytes),
            func.blocks,
            lower_function_spec(func, table, pointer_bytes)->Err_0,
        ),
{
    lemma_blocks_failure(scope_of(func, table, pointer_bytes), func.blocks, func.blocks.len() as int);
}

/// Whether one of the first `n` parameters has the name.
pub open spec fn params_declare(params: Seq<ParamView>, n: int, name: Seq<char>) -> bool {
    exists|i: int| 0 <= i < n && (#[trigger] params[i]).name == name
}

/// Whether one of the first `n` instructions has the name as destination.
pub open spec fn instrs_declare(instrs: Seq<InstrView>, n: int, name: Seq<char>) -> bool {
    exists|i: int|
        0 <= i < n && (#[trigger] instrs[i]).dest is Some && instrs[i].dest.unwrap().name == name
}

/// Whether an instruction of one of the first `n` blocks has the name as
/// destination.
pub open spec fn blocks_declare(blocks: Seq<BlockView>, n: int, name: Seq<char>) -> bool {
    exists|k: int| 0 <= k < n && instrs_declare(
        (#[trigger] blocks[k]).instrs,
        blocks[k].instrs.len() as int,
        name,
    )
}

/// The bindings after the first `n` parameters hold what was bound before
/// and the names of those parameters.
proof fn lemma_bind_params(b: BindingsView, params: Seq<ParamView>, n: int)
    requires
        b.wf(),
        0 <= n <= params.len(),
    ensures
        b.bind_params(params, n).wf(),
        forall|name: Seq<char>|
            b.bind_params(params, n).names.contains(name) <==> (b.names.contains(name)
                || params_declare(params, n, name)),
    decreases n,
{
    if n > 0 {
        lemma_bind_params(b, params, n - 1);
        let before = b.bind_params(params, n - 1);
        let last = params[n - 1];
        lemma_bind(before, last.name, last.ty.native_type());
        let after = b.bind_params(params, n);
        assert forall|name: Seq<char>| after.names.contains(name) <==> (b.names.contains(name)
            || params_declare(params, n, name)) by {
            if after.names.contains(name) {
                if name == last.name {
                    assert(params[n - 1].name == name);
                } else {
                    assert(before.names.contains(name));
                    if !b.names.contains(name) {
                        let i = choose|i: int| 0 <= i < n - 1 && (#[trigger] params[i]).name == name;
                        assert(0 <= i < n && params[i].name == name);
                    }
                }
            }
            if params_declare(params, n, name) {
                let i = choose|i: int| 0 <= i < n && (#[trigger] params[i]).name == name;
                if i < n - 1 {
                    assert(params_declare(params, n - 1, name));
                    assert(before.names.contains(name));
                }
            }
            if b.names.contains(name) {
                assert(before.names.contains(name));
            }
        }
    }
}

/// The bindings after the first `n` instructions hold what was bound before
/// and the destinations of those instructions.
proof fn lemma_bind_instrs(b: BindingsView, instrs: Seq<InstrView>, n: int)
    requires
        b.wf(),
        0 <= n <= instrs.len(),
    ensures
        b.bind_instrs(instrs, n).wf(),
        forall|name: Seq<char>|
            b.bind_instrs(instrs, n).names.contains(name) <==> (b.names.contains(name)
                || instrs_declare(instrs, n, name)),
    decreases n,
{
    if n > 0 {
        lemma_bind_instrs(b, instrs, n - 1);
        let before = b.bind_instrs(instrs, n - 1);
        let after = b.bind_instrs(instrs, n);
        match instrs[n - 1].dest {
            Some(d) => {
                lemma_bind(before, d.name, d.ty.native_type());
            },
            None => {},
        }
        assert forall|name: Seq<char>| after.names.contains(name) <==> (b.names.contains(name)
            || instrs_declare(instrs, n, name)) by {
            if after.names.contains(name) {
                if instrs[n - 1].dest is Some && name == instrs[n - 1].dest.unwrap().name {
                    assert(instrs[n - 1].dest is Some);
                } else {
                    assert(before.names.contains(name));
                    if !b.names.contains(name) {
                        let i = choose|i: int|
                            0 <= i < n - 1 && (#[trigger] instrs[i]).dest is Some
                                && instrs[i].dest.unwrap().name == name;
                        assert(0 <= i < n && instrs[i].dest is Some);
                    }
                }
            }
            if instrs_declare(instrs, n, name) {
                let i = choose|i: int|
                    0 <= i < n && (#[trigger] instrs[i]).dest is Some
                        && instrs[i].dest.unwrap().name == name;
                if i < n - 1 {
                    assert(instrs_declare(instrs, n - 1, name));
                    assert(before.names.contains(name));
                }
            }
            if b.names.contains(name) {
                assert(before.names.contains(name));
            }
        }
    }
}

/// The bindings after the first `n` blocks hold what was bound before and
/// the destinations of the instructions of those blocks.
proof fn lemma_bind_blocks(b: BindingsView, blocks: Seq<BlockView>, n: int)
    requires
        b.wf(),
        0 <= n <= blocks.len(),
    ensures
        b.bind_blocks(blocks, n).wf(),
        forall|name: Seq<char>|
            b.bind_blocks(blocks, n).names.contains(name) <==> (b.names.contains(name)
                || blocks_declare(blocks, n, name)),
    decreases n,
{
    if n > 0 {
        lemma_bind_blocks(b, blocks, n - 1);
        let before = b.bind_blocks(blocks, n - 1);
        let instrs = blocks[n - 1].instrs;
        lemma_bind_instrs(before, instrs, instrs.len() as int);
        let after = b.bind_blocks(blocks, n);
        assert forall|name: Seq<char>| after.names.contains(name) <==> (b.names.contains(name)
            || blocks_declare(blocks, n, name)) by {
            if after.names.contains(name) {
                if before.names.contains(name) {
                    if !b.names.contains(name) {
                        let k = choose|k: int|
                            0 <= k < n - 1 && instrs_declare(
                                (#[trigger] blocks[k]).instrs,
                                blocks[k].instrs.len() as int,
                                name,
                            );
                        assert(0 <= k < n && instrs_declare(
                            blocks[k].instrs,
                            blocks[k].instrs.len() as int,
                            name,
                        ));
                    }
                } else {
                    assert(instrs_declare(blocks[n - 1].instrs, instrs.len() as int, name));
                }
            }
            if blocks_declare(blocks, n, name) {
                let k = choose|k: int|
                    0 <= k < n && instrs_declare(
                        (#[trigger] blocks[k]).instrs,
                        blocks[k].instrs.len() as int,
                        name,
                    );
                if k < n - 1 {
                    assert(blocks_declare(blocks, n - 1, name));
                    assert(before.names.contains(name));
                }
            }
            if b.names.contains(name) {
                assert(before.names.contains(name));
            }
        }
    }
}

/// Whether a function declares a name: as a formal parameter, or as the
/// destination of one of its instructions.
pub open spec fn declares(func: FunctionView, name: Seq<char>) -> bool {
    params_declare(func.params, func.params.len() as int, name) || blocks_declare(
        func.blocks,
        func.blocks.len() as int,
        name,
    )
}

/// The bindings of a function give one slot to each name that the function
/// declares, and to no other name: a variable that an instruction uses has a
/// slot exactly if the function defines it somewhere.
pub proof fn lemma_bindings(func: FunctionView)
    ensures
        BindingsView::of_function(func).wf(),
        forall|name: Seq<char>|
            BindingsView::of_function(func).names.contains(name) <==> declares(func, name),
{
    let empty = BindingsView::empty();
    lemma_bind_params(empty, func.params, func.params.len() as int);
    let bound = empty.bind_params(func.params, func.params.len() as int);
    lemma_bind_blocks(bound, func.blocks, func.blocks.len() as int);
    let all = BindingsView::of_function(func);
    assert forall|name: Seq<char>| all.names.contains(name) <==> declares(func, name) by {
        assert(!empty.names.contains(name));
    }
}

/// Whether a table of declarations holds everything that an earlier table
/// held, in the same slots, with the same names, kinds and signatures.
pub open spec fn table_extends(before: Seq<DeclView>, after: Seq<DeclView>) -> bool {
    &&& before.len() <= after.len()
    &&& forall|i: int|
        0 <= i < before.len() ==> {
            &&& (#[trigger] after[i]).name == before[i].name
            &&& after[i].kind == before[i].kind
            &&& after[i].signature == before[i].signature
        }
}

/// A callee that is found in a table is found in the same slot, with the
/// same signature, in every table that extends it.
pub proof fn lemma_callee_stays(
    func: FunctionView,
    before: Seq<DeclView>,
    after: Seq<DeclView>,
    pointer_bytes: u8,
    name: Seq<char>,
)
    requires
        table_extends(before, after),
        after.len() <= usize::MAX,
        scope_of(func, before, pointer_bytes).callee(name) is Some,
    ensures
        scope_of(func, after, pointer_bytes).callee(name) == scope_of(
            func,
            before,
            pointer_bytes,
        ).callee(name),
        scope_of(func, before, pointer_bytes).callee(name).unwrap() < before.len(),
        scope_of(func, after, pointer_bytes).signatures[scope_of(func, before, pointer_bytes).callee(
            name,
        ).unwrap() as int] == scope_of(func, before, pointer_bytes).signatures[scope_of(
            func,
            before,
            pointer_bytes,
        ).callee(name).unwrap() as int],
{
    let key = (DeclKind::Function, name);
    lemma_first_index_from(decl_keys(before), key, 0);
    lemma_first_index_from(decl_keys(after), key, 0);
    let s = first_index(decl_keys(before), key).unwrap();
    assert(after[s].name == before[s].name);
    assert(decl_keys(after)[s] == key);
    match first_index(decl_keys(after), key) {
        Some(j) => {
            if j < s {
                assert(after[j].name == before[j].name);
                assert(decl_keys(before)[j] == decl_keys(after)[j]);
            }
        },
        None => {},
    }
}

/// An instruction that can be lowered against a table is lowered to the
/// same native instructions against every table that extends it.
pub proof fn lemma_instr_stable(
    func: FunctionView,
    before: Seq<DeclView>,
    after: Seq<DeclView>,
    pointer_bytes: u8,
    instr: InstrView,
)
    requires
        table_extends(before, after),
        after.len() <= usize::MAX,
        lower_instr_spec(scope_of(func, before, pointer_bytes), instr) is Ok,
    ensures
        lower_instr_spec(scope_of(func, after, pointer_bytes), instr) == lower_instr_spec(
            scope_of(func, before, pointer_bytes),
            instr,
        ),
{
    let one = scope_of(func, before, pointer_bytes);
    let two = scope_of(func, after, pointer_bytes);
    if shape_of(instr.op) == Shape::Call {
        lemma_callee_stays(func, before, after, pointer_bytes, instr.funcs[0]);
    }
    assert(one.labels == two.labels);
    if labels_resolve(one, instr) {
        assert forall|i: int| 0 <= i < instr.labels.len() implies (#[trigger] two.label_target(
            instr.labels[i],
        )) is Some by {
            assert(one.label_target(instr.labels[i]) is Some);
        }
    }
    if labels_resolve(two, instr) {
        assert forall|i: int| 0 <= i < instr.labels.len() implies (#[trigger] one.label_target(
            instr.labels[i],
        )) is Some by {
            assert(two.label_target(instr.labels[i]) is Some);
        }
    }
    assert(instr_ops(one, instr) =~= instr_ops(two, instr));
}

/// A prefix of a block that can be lowered against a table is lowered to
/// the same native instructions against every table that extends it.
pub proof fn lemma_prefix_stable(
    func: FunctionView,
    before: Seq<DeclView>,
    after: Seq<DeclView>,
    pointer_bytes: u8,
    instrs: Seq<InstrView>,
    block: usize,
    n: int,
)
    requires
        table_extends(before, after),
        after.len() <= usize::MAX,
        0 <= n <= instrs.len(),
        lower_prefix(scope_of(func, before, pointer_bytes), instrs, block, n) is Ok,
    ensures
        lower_prefix(scope_of(func, after, pointer_bytes), instrs, block, n) == lower_prefix(
            scope_of(func, before, pointer_bytes),
            instrs,
            block,
            n,
        ),
    decreases n,
{
    if n > 0 {
        lemma_prefix_stable(func, before, after, pointer_bytes, instrs, block, n - 1);
        lemma_instr_stable(func, before, after, pointer_bytes, instrs[n - 1]);
    }
}

/// The first blocks of a function, if they can be lowered against a table,
/// are lowered to the same native blocks against every table that extends it.
pub proof fn lemma_blocks_stable(
    func: FunctionView,
    before: Seq<DeclView>,
    after: Seq<DeclView>,
    pointer_bytes: u8,
    n: int,
)
    requires
        table_extends(before, after),
        after.len() <= usize::MAX,
        0 <= n <= func.blocks.len() <= usize::MAX,
        lower_blocks_spec(scope_of(func, before, pointer_bytes), func.blocks, n) is Ok,
    ensures
        lower_blocks_spec(scope_of(func, after, pointer_bytes), func.blocks, n)
            == lower_blocks_spec(scope_of(func, before, pointer_bytes), func.blocks, n),
    decreases n,
{
    if n > 0 {
        let one = scope_of(func, before, pointer_bytes);
        let two = scope_of(func, after, pointer_bytes);
        assert(lower_blocks_spec(one, func.blocks, n - 1) is Ok);
        lemma_blocks_stable(func, before, after, pointer_bytes, n - 1);
        let block = (n - 1) as usize;
        let instrs = func.blocks[n - 1].instrs;
        assert(lower_block_spec(one, func.blocks, block) is Ok);
        assert(lower_prefix(one, instrs, block, instrs.len() as int) is Ok);
        lemma_prefix_stable(func, before, after, pointer_bytes, instrs, block, instrs.len() as int);
        assert(lower_block_spec(two, func.blocks, block) == lower_block_spec(
            one,
            func.blocks,
            block,
        ));
    }
}

/// Declaring more never changes what a function is lowered to: a function
/// that can be lowered against a table has the same plan against every table
/// that extends it.
pub proof fn lemma_lowering_stable(
    func: FunctionView,
    before: Seq<DeclView>,
    after: Seq<DeclView>,
    pointer_bytes: u8,
)
    requires
        table_extends(before, after),
        after.len() <= usize::MAX,
        func.blocks.len() <= usize::MAX,
        lower_function_spec(func, before, pointer_bytes) is Ok,
    ensures
        lower_function_spec(func, after, pointer_bytes) == lower_function_spec(
            func,
            before,
            pointer_bytes,
        ),
{
    lemma_blocks_stable(func, before, after, pointer_bytes, func.blocks.len() as int);
}

/// Blocks in which a jump, branch or return stands only at the end are never
/// refused for a misplaced one. The blocks that are formed from a function
/// body are such blocks.
pub proof fn lemma_proper_blocks_lower(func: FunctionView, table: Seq<DeclView>, pointer_bytes: u8)
    requires
        function_fits(func),
        forall|b: int| 0 <= b < func.blocks.len() ==> ends_properly(#[trigger] func.blocks[b]),
    ensures
        match lower_function_spec(func, table, pointer_bytes) {
            Err(e) => e.kind != LowerErrorKind::MisplacedTerminator,
            Ok(_) => true,
        },
{
    match lower_function_spec(func, table, pointer_bytes) {
        Err(e) => {
            lemma_failure_located(func, table, pointer_bytes);
            if e.kind == LowerErrorKind::MisplacedTerminator {
                assert(ends_properly(func.blocks[e.block as int]));
                assert(!func.blocks[e.block as int].instrs[e.instr as int].op.is_terminator());
            }
        },
        Ok(_) => {},
    }
}

} // verus!
