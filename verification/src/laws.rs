//! What holds of every session: how its operations change the table of
//! declarations and the log, and what follows for whole runs.

use crate::args::{main_args_of, ArgError, MainArgView};
use crate::facade::{compile_onto, compile_spec, jit_run_spec, main_index};
use crate::lower::{decl_keys, decl_signatures, lower_function_spec, lower_instr_spec};
use crate::lower::{scope_of, shape_of, signature_of, LowerErrorKind, Shape};
use crate::lower::{BodyState, DeclKind, DeclView};
use crate::lower_laws::{function_fits, lemma_failure_located, lemma_lowering_stable};
use crate::lower_laws::table_extends;
use crate::native::NativeType;
use crate::plan_laws::{block_closed, lemma_lowered_plan_wf, lemma_memory_entry_wf};
use crate::plan_laws::{lemma_entries_fed, lemma_lowered_plan_fed, lemma_plan_fed_grows};
use crate::plan_laws::{lemma_process_entry_wf, op_fits, ops_fit, plan_fed, plan_wf};
use crate::wrapper::memory_entry_plan;
use crate::model::{first_index, first_index_from, lemma_first_index_from};
use crate::model::{FunctionView, ProgramView};
use crate::native::{Literal, NativeOp, PlanView, SignatureView};
use crate::translator::{entry_plan, entry_signature};
use crate::wrapper::entry_check;
use crate::opt_level::OptLevel;
use crate::translator::{function_names, lemma_first_index_push};
use crate::translator::{BackendAction, Handle, Outcome, TranslateError, TranslatorView};
use vstd::prelude::*;

verus! {

/// The table of a session fits the machine: every slot is a `usize`.
pub open spec fn fits(session: TranslatorView) -> bool {
    session.table.len() <= usize::MAX
}

/// Whether `after` is a later state of the session `before`: the target is
/// the same, everything that was declared is still declared in its slot, with
/// its name, kind and signature, no epoch went back, and the log only grew.
pub open spec fn extends(before: TranslatorView, after: TranslatorView) -> bool {
    &&& after.pointer_bytes == before.pointer_bytes
    &&& after.opt_level == before.opt_level
    &&& before.table.len() <= after.table.len()
    &&& forall|i: int|
        0 <= i < before.table.len() ==> {
            &&& (#[trigger] after.table[i]).name == before.table[i].name
            &&& after.table[i].kind == before.table[i].kind
            &&& after.table[i].signature == before.table[i].signature
            &&& after.table[i].epoch >= before.table[i].epoch
            &&& after.table[i].epoch == before.table[i].epoch && before.table[i].state
                != BodyState::Declared ==> after.table[i].state != BodyState::Declared
        }
    &&& before.actions.len() <= after.actions.len()
    &&& forall|i: int| 0 <= i < before.actions.len() ==> #[trigger] after.actions[i] == before.actions[i]
}

/// Whether no invocation was recorded between two states of a session.
pub open spec fn no_invocation_since(before: TranslatorView, after: TranslatorView) -> bool {
    forall|i: int|
        before.actions.len() <= i < after.actions.len() ==> !((#[trigger] after.actions[i]) is Invoke)
}

/// Whether nothing was finalized, written or invoked between two states of
/// a session.
pub open spec fn only_built_since(before: TranslatorView, after: TranslatorView) -> bool {
    forall|i: int|
        before.actions.len() <= i < after.actions.len() ==> {
            ||| (#[trigger] after.actions[i]) is Declare
            ||| after.actions[i] is Define
            ||| after.actions[i] is Discard
        }
}

/// Whether every declaration of the table beyond `from` is a function.
pub open spec fn only_functions_since(before: TranslatorView, after: TranslatorView) -> bool {
    forall|i: int|
        before.table.len() <= i < after.table.len() ==> (#[trigger] after.table[i]).kind
            == DeclKind::Function
}

/// The sizes of a program fit the machine.
pub open spec fn program_fits(program: ProgramView) -> bool {
    &&& program.functions.len() <= usize::MAX
    &&& forall|f: int| 0 <= f < program.functions.len() ==> function_fits(#[trigger] program.functions[f])
}

/// Every state of a session is a later state of itself.
pub proof fn lemma_extends_reflexive(a: TranslatorView)
    ensures
        extends(a, a),
        only_built_since(a, a),
        no_invocation_since(a, a),
        only_functions_since(a, a),
{
}

/// Where nothing but building happened, nothing was invoked.
pub proof fn lemma_built_is_not_invoked(a: TranslatorView, b: TranslatorView)
    requires
        only_built_since(a, b),
    ensures
        no_invocation_since(a, b),
{
    assert forall|i: int| a.actions.len() <= i < b.actions.len() implies !((
    #[trigger] b.actions[i]) is Invoke) by {
        assert(b.actions[i] is Declare || b.actions[i] is Define || b.actions[i] is Discard);
    }
}

/// A later state of a later state is a later state.
pub proof fn lemma_extends_transitive(a: TranslatorView, b: TranslatorView, c: TranslatorView)
    requires
        extends(a, b),
        extends(b, c),
    ensures
        extends(a, c),
        only_built_since(a, b) && only_built_since(b, c) ==> only_built_since(a, c),
        no_invocation_since(a, b) && no_invocation_since(b, c) ==> no_invocation_since(a, c),
        only_functions_since(a, b) && only_functions_since(b, c) ==> only_functions_since(a, c),
{
    assert forall|i: int| 0 <= i < a.table.len() implies {
        &&& (#[trigger] c.table[i]).name == a.table[i].name
        &&& c.table[i].kind == a.table[i].kind
        &&& c.table[i].signature == a.table[i].signature
        &&& c.table[i].epoch >= a.table[i].epoch
        &&& c.table[i].epoch == a.table[i].epoch && a.table[i].state != BodyState::Declared
            ==> c.table[i].state != BodyState::Declared
    } by {
        assert(b.table[i].name == a.table[i].name);
    }
    assert forall|i: int| 0 <= i < a.actions.len() implies #[trigger] c.actions[i]
        == a.actions[i] by {
        assert(b.actions[i] == a.actions[i]);
    }
    if only_built_since(a, b) && only_built_since(b, c) {
        assert forall|i: int| a.actions.len() <= i < c.actions.len() implies {
            ||| (#[trigger] c.actions[i]) is Declare
            ||| c.actions[i] is Define
            ||| c.actions[i] is Discard
        } by {
            if i < b.actions.len() {
                assert(c.actions[i] == b.actions[i]);
            }
        }
    }
    if no_invocation_since(a, b) && no_invocation_since(b, c) {
        assert forall|i: int| a.actions.len() <= i < c.actions.len() implies !((
        #[trigger] c.actions[i]) is Invoke) by {
            if i < b.actions.len() {
                assert(c.actions[i] == b.actions[i]);
            }
        }
    }
    if only_functions_since(a, b) && only_functions_since(b, c) {
        assert forall|i: int| a.table.len() <= i < c.table.len() implies (#[trigger] c.table[i]).kind
            == DeclKind::Function by {
            if i < b.table.len() {
                assert(c.table[i].kind == b.table[i].kind);
            }
        }
    }
}

/// What is found in a session is found in the same slot in every later
/// state of it.
pub proof fn lemma_find_stays(
    before: TranslatorView,
    after: TranslatorView,
    kind: DeclKind,
    name: Seq<char>,
)
    requires
        extends(before, after),
        fits(after),
        before.find(kind, name) is Some,
    ensures
        after.find(kind, name) == before.find(kind, name),
{
    lemma_first_index_from(decl_keys(before.table), (kind, name), 0);
    lemma_first_index_from(decl_keys(after.table), (kind, name), 0);
    let s = first_index(decl_keys(before.table), (kind, name)).unwrap();
    assert(after.table[s].name == before.table[s].name);
    assert(decl_keys(after.table)[s] == (kind, name));
    match first_index(decl_keys(after.table), (kind, name)) {
        Some(j) => {
            if j < s {
                assert(after.table[j].name == before.table[j].name);
                assert(decl_keys(before.table)[j] == decl_keys(after.table)[j]);
            }
        },
        None => {},
    }
}

/// A declaration leaves a later state of the session, in which the name is
/// found in the slot that the declaration gives.
pub proof fn lemma_declare(
    session: TranslatorView,
    kind: DeclKind,
    name: Seq<char>,
    signature: SignatureView,
)
    requires
        session.declare(kind, name, signature) is Some,
    ensures
        extends(session, session.declare(kind, name, signature).unwrap()),
        only_built_since(session, session.declare(kind, name, signature).unwrap()),
        fits(session.declare(kind, name, signature).unwrap()) ==> session.declare(
            kind,
            name,
            signature,
        ).unwrap().find(kind, name) == Some(session.slot_of(kind, name)),
        session.declare(kind, name, signature).unwrap().table.len() <= session.table.len() + 1,
        forall|i: int|
            session.table.len() <= i < session.declare(kind, name, signature).unwrap().table.len()
                ==> (#[trigger] session.declare(kind, name, signature).unwrap().table[i]).kind
                == kind,
        forall|i: int|
            0 <= i < session.table.len() ==> #[trigger] session.declare(
                kind,
                name,
                signature,
            ).unwrap().table[i] == session.table[i],
{
    let after = session.declare(kind, name, signature).unwrap();
    if session.find(kind, name) is None {
        assert(decl_keys(after.table) =~= decl_keys(session.table).push((kind, name)));
        lemma_first_index_push(decl_keys(session.table), (kind, name), (kind, name));
    }
}

/// A definition leaves a later state of the session that differs only in
/// the state and the body of the defined slot.
pub proof fn lemma_define(session: TranslatorView, slot: usize, plan: PlanView, dump: bool)
    requires
        session.define(slot, plan, dump) is Some,
    ensures
        extends(session, session.define(slot, plan, dump).unwrap()),
        only_built_since(session, session.define(slot, plan, dump).unwrap()),
        session.define(slot, plan, dump).unwrap().table.len() == session.table.len(),
        decl_keys(session.define(slot, plan, dump).unwrap().table) == decl_keys(session.table),
        forall|i: int|
            0 <= i < session.table.len() && i != slot ==> #[trigger] session.define(
                slot,
                plan,
                dump,
            ).unwrap().table[i] == session.table[i],
        session.define(slot, plan, dump).unwrap().table[slot as int].body == Some(plan),
        session.define(slot, plan, dump).unwrap().table[slot as int].state == BodyState::Defined,
        session.define(slot, plan, dump).unwrap().table[slot as int].epoch
            == session.table[slot as int].epoch,
{
    let after = session.define(slot, plan, dump).unwrap();
    assert(decl_keys(after.table) =~= decl_keys(session.table));
}

/// Discarding a body leaves a later state of the session. Where there was
/// a body, the epoch of the slot has advanced.
pub proof fn lemma_discard(session: TranslatorView, slot: usize)
    requires
        session.discard(slot) is Some,
    ensures
        extends(session, session.discard(slot).unwrap()),
        only_built_since(session, session.discard(slot).unwrap()),
        session.discard(slot).unwrap().table.len() == session.table.len(),
        decl_keys(session.discard(slot).unwrap().table) == decl_keys(session.table),
        forall|i: int|
            0 <= i < session.table.len() && i != slot ==> #[trigger] session.discard(
                slot,
            ).unwrap().table[i] == session.table[i],
        slot < session.table.len() ==> session.discard(slot).unwrap().table[slot as int].state
            == BodyState::Declared,
        slot < session.table.len() && session.table[slot as int].state != BodyState::Declared
            ==> session.discard(slot).unwrap().table[slot as int].epoch
            > session.table[slot as int].epoch,
{
    let after = session.discard(slot).unwrap();
    assert(decl_keys(after.table) =~= decl_keys(session.table));
}

/// Finalization leaves a later state of the session in which only states
/// have changed, and no function is left defined but not ready.
pub proof fn lemma_finalize(session: TranslatorView)
    ensures
        extends(session, session.finalize()),
        no_invocation_since(session, session.finalize()),
        session.finalize().table.len() == session.table.len(),
        decl_keys(session.finalize().table) == decl_keys(session.table),
        forall|i: int|
            0 <= i < session.table.len() ==> {
                &&& (#[trigger] session.finalize().table[i]).body == session.table[i].body
                &&& session.finalize().table[i].epoch == session.table[i].epoch
                &&& session.finalize().table[i].state != BodyState::Defined
                &&& session.table[i].state != BodyState::Declared ==> session.finalize().table[i].state
                    == BodyState::Ready
            },
{
    assert(decl_keys(session.finalize().table) =~= decl_keys(session.table));
}

/// Declaring the first functions of a program leaves a later state of the
/// session, in which nothing but functions was declared and every one of
/// them is found. It fails only where a signature has changed.
pub proof fn lemma_declare_all(session: TranslatorView, funcs: Seq<FunctionView>, n: int)
    requires
        0 <= n <= funcs.len(),
    ensures
        extends(session, session.declare_all(funcs, n).session),
        only_built_since(session, session.declare_all(funcs, n).session),
        only_functions_since(session, session.declare_all(funcs, n).session),
        session.declare_all(funcs, n).error matches Some(e) ==> e is SignatureChanged,
        fits(session.declare_all(funcs, n).session) && session.declare_all(funcs, n).error is None
            ==> forall|i: int|
            0 <= i < n ==> (#[trigger] session.declare_all(funcs, n).session.find(
                DeclKind::Function,
                funcs[i].name,
            )) is Some,
    decreases n,
{
    lemma_extends_reflexive(session);
    if n > 0 {
        let before = session.declare_all(funcs, n - 1);
        let after = session.declare_all(funcs, n);
        if before.error is Some {
            lemma_declare_all(session, funcs, n - 1);
        } else {
            let func = funcs[n - 1];
            match before.session.declare(DeclKind::Function, func.name, signature_of(func)) {
                Some(next) => {
                    assert(after.session == next);
                    lemma_declare_all(session, funcs, n - 1);
                    lemma_declare(before.session, DeclKind::Function, func.name, signature_of(func));
                    lemma_extends_transitive(session, before.session, next);
                    assert forall|i: int| fits(next) && 0 <= i < n implies (#[trigger] next.find(
                        DeclKind::Function,
                        funcs[i].name,
                    )) is Some by {
                        if i < n - 1 {
                            assert(before.session.find(DeclKind::Function, funcs[i].name) is Some);
                            lemma_find_stays(
                                before.session,
                                next,
                                DeclKind::Function,
                                funcs[i].name,
                            );
                        }
                    }
                },
                None => {
                    lemma_declare_all(session, funcs, n - 1);
                },
            }
        }
    }
}

/// Lowering and defining the first functions of a program leaves a later
/// state of the session with the same declarations.
pub proof fn lemma_define_all(session: TranslatorView, funcs: Seq<FunctionView>, n: int, dump: bool)
    requires
        0 <= n <= funcs.len(),
    ensures
        extends(session, session.define_all(funcs, n, dump).session),
        only_built_since(session, session.define_all(funcs, n, dump).session),
        session.define_all(funcs, n, dump).session.table.len() == session.table.len(),
        decl_keys(session.define_all(funcs, n, dump).session.table) == decl_keys(session.table),
        decl_signatures(session.define_all(funcs, n, dump).session.table) == decl_signatures(
            session.table,
        ),
    decreases n,
{
    lemma_extends_reflexive(session);
    if n > 0 {
        lemma_define_all(session, funcs, n - 1, dump);
        let before = session.define_all(funcs, n - 1, dump);
        if before.error is None {
            let func = funcs[n - 1];
            match lower_function_spec(func, before.session.table, before.session.pointer_bytes) {
                Ok(plan) => {
                    let slot = before.session.slot_of(DeclKind::Function, func.name);
                    match before.session.define(slot, plan, dump) {
                        Some(next) => {
                            lemma_define(before.session, slot, plan, dump);
                            lemma_extends_transitive(session, before.session, next);
                            assert(decl_signatures(next.table) =~= decl_signatures(
                                before.session.table,
                            ));
                        },
                        None => {},
                    }
                },
                Err(_) => {},
            }
        }
    }
}

/// Compiling a program leaves a later state of the session in which nothing
/// but functions was declared. Whether it fails or not, nothing is finalized,
/// written or invoked.
pub proof fn lemma_compile_prog(session: TranslatorView, program: ProgramView, dump: bool)
    ensures
        extends(session, session.compile_prog(program, dump).session),
        only_built_since(session, session.compile_prog(program, dump).session),
        only_functions_since(session, session.compile_prog(program, dump).session),
{
    let n = program.functions.len() as int;
    let declared = session.declare_all(program.functions, n);
    if declared.error is Some {
        lemma_declare_all(session, program.functions, n);
    } else {
        lemma_define_all(declared.session, program.functions, n, dump);
        lemma_declare_all(session, program.functions, n);
        lemma_extends_transitive(
            session,
            declared.session,
            declared.session.define_all(program.functions, n, dump).session,
        );
    }
}

/// Whether every call of a program names a function of the program,
/// wherever in the program that function stands.
pub open spec fn calls_within(program: ProgramView) -> bool {
    forall|f: int, b: int, i: int|
        0 <= f < program.functions.len() && 0 <= b < program.functions[f].blocks.len() && 0 <= i
            < program.functions[f].blocks[b].instrs.len() ==> {
            let instr = #[trigger] program.functions[f].blocks[b].instrs[i];
            shape_of(instr.op) == Shape::Call && instr.funcs.len() == 1 ==> function_names(
                program,
            ).contains(instr.funcs[0])
        }
}

/// Where every function of a program is declared, defining the functions
/// never fails for a call that names a function of the program.
proof fn lemma_define_all_resolves(
    session: TranslatorView,
    program: ProgramView,
    n: int,
    dump: bool,
)
    requires
        0 <= n <= program.functions.len(),
        program_fits(program),
        calls_within(program),
        forall|i: int|
            0 <= i < program.functions.len() ==> (#[trigger] session.find(
                DeclKind::Function,
                program.functions[i].name,
            )) is Some,
    ensures
        match session.define_all(program.functions, n, dump).error {
            Some(TranslateError::Lower { function, error }) => error.kind
                != LowerErrorKind::UndefinedFunction,
            _ => true,
        },
    decreases n,
{
    if n > 0 {
        lemma_define_all_resolves(session, program, n - 1, dump);
        lemma_define_all(session, program.functions, n - 1, dump);
        let before = session.define_all(program.functions, n - 1, dump);
        if before.error is None {
            let func = program.functions[n - 1];
            let table = before.session.table;
            match lower_function_spec(func, table, before.session.pointer_bytes) {
                Err(e) => {
                    lemma_failure_located(func, table, before.session.pointer_bytes);
                    if e.kind == LowerErrorKind::UndefinedFunction {
                        let instr = program.functions[n - 1].blocks[e.block as int].instrs[e.instr as int];
                        let scope = scope_of(func, table, before.session.pointer_bytes);
                        assert(lower_instr_spec(scope, instr) == Err::<
                            Seq<NativeOp>,
                            LowerErrorKind,
                        >(LowerErrorKind::UndefinedFunction));
                        assert(shape_of(instr.op) == Shape::Call && instr.funcs.len() == 1);
                        assert(function_names(program).contains(instr.funcs[0]));
                        let j = choose|j: int|
                            0 <= j < function_names(program).len() && function_names(program)[j]
                                == instr.funcs[0];
                        assert(session.find(DeclKind::Function, program.functions[j].name) is Some);
                        assert(false);
                    }
                },
                Ok(_) => {},
            }
        }
    }
}

/// Forward calls resolve: every function is declared before any body is
/// lowered, so compiling a program never fails because a call names a
/// function that stands later in the program, or anywhere else in it.
pub proof fn lemma_calls_resolve(session: TranslatorView, program: ProgramView, dump: bool)
    requires
        program_fits(program),
        fits(session.compile_prog(program, dump).session),
        calls_within(program),
    ensures
        match session.compile_prog(program, dump).error {
            Some(TranslateError::Lower { function, error }) => error.kind
                != LowerErrorKind::UndefinedFunction,
            _ => true,
        },
{
    let n = program.functions.len() as int;
    let declared = session.declare_all(program.functions, n);
    if declared.error is None {
        lemma_define_all(declared.session, program.functions, n, dump);
        lemma_declare_all(session, program.functions, n);
        lemma_define_all_resolves(declared.session, program, n, dump);
    } else {
        lemma_declare_all(session, program.functions, n);
    }
}

/// A program without `main` is written out without an entry: the absence
/// of `main` is no failure, every declaration of the session is a function of
/// the program, and the log ends with the object being written.
pub proof fn lemma_no_main_no_entry(
    program: ProgramView,
    pointer_bytes: u8,
    opt_level: OptLevel,
    dump_ir: bool,
)
    requires
        main_index(program) is None,
    ensures
        compile_spec(program, pointer_bytes, opt_level, dump_ir).error == TranslatorView::new(
            pointer_bytes,
            opt_level,
        ).compile_prog(program, dump_ir).error,
        compile_spec(program, pointer_bytes, opt_level, dump_ir).error is None ==> {
            let done = compile_spec(program, pointer_bytes, opt_level, dump_ir).session;
            &&& done.actions.len() > 0
            &&& done.actions.last() == BackendAction::Write
            &&& forall|i: int| 0 <= i < done.table.len() ==> (#[trigger] done.table[i]).kind == DeclKind::Function
        },
{
    let fresh = TranslatorView::new(pointer_bytes, opt_level);
    let compiled = fresh.compile_prog(program, dump_ir);
    if compiled.error is None {
        lemma_finalize(compiled.session);
        lemma_compile_prog(fresh, program, dump_ir);
        let done = compiled.session.emit();
        assert forall|i: int| 0 <= i < done.table.len() implies (#[trigger] done.table[i]).kind
            == DeclKind::Function by {
            assert(compiled.session.finalize().table[i].kind == compiled.session.table[i].kind);
        }
    }
}

/// Discarding the body under a name leaves a later state of the session
/// with the same declarations, in which only the slot of that name may have
/// changed.
pub proof fn lemma_discard_named(
    session: TranslatorView,
    kind: DeclKind,
    name: Seq<char>,
    index: usize,
)
    ensures
        extends(session, session.discard_named(kind, name, index).session),
        only_built_since(session, session.discard_named(kind, name, index).session),
        session.discard_named(kind, name, index).session.table.len() == session.table.len(),
        decl_keys(session.discard_named(kind, name, index).session.table) == decl_keys(
            session.table,
        ),
        forall|i: int|
            fits(session) && 0 <= i < session.table.len() && Some(i as usize) != session.find(
                kind,
                name,
            ) ==> #[trigger] session.discard_named(kind, name, index).session.table[i]
                == session.table[i],
        session.discard_named(kind, name, index).error is None && session.find(kind, name) is Some
            ==> {
            let slot = session.find(kind, name).unwrap();
            &&& session.discard_named(kind, name, index).session.table[slot as int].state
                == BodyState::Declared
            &&& session.table[slot as int].state != BodyState::Declared
                ==> session.discard_named(kind, name, index).session.table[slot as int].epoch
                > session.table[slot as int].epoch
        },
{
    lemma_extends_reflexive(session);
    lemma_first_index_from(decl_keys(session.table), (kind, name), 0);
    match session.find(kind, name) {
        Some(slot) => {
            if session.discard(slot) is Some {
                lemma_discard(session, slot);
            }
        },
        None => {},
    }
}

/// Making one function redefinable leaves a later state of the session.
/// Where the function or its memory entry had a body, the epoch of its slot
/// has advanced, and the slot has no body.
pub proof fn lemma_redefine_function(session: TranslatorView, func: FunctionView, index: usize)
    ensures
        extends(session, session.redefine_function(func, index).session),
        only_built_since(session, session.redefine_function(func, index).session),
        only_functions_since(session, session.redefine_function(func, index).session),
        fits(session.redefine_function(func, index).session) && session.redefine_function(
            func,
            index,
        ).error is None ==> forall|kind: DeclKind|
            (kind == DeclKind::Function || kind == DeclKind::MemoryEntry) && (
            #[trigger] session.find(kind, func.name)) is Some ==> {
                let slot = session.find(kind, func.name).unwrap();
                &&& session.redefine_function(func, index).session.table[slot as int].state
                    == BodyState::Declared
                &&& session.table[slot as int].state != BodyState::Declared
                    ==> session.redefine_function(func, index).session.table[slot as int].epoch
                    > session.table[slot as int].epoch
            },
{
    lemma_extends_reflexive(session);
    let first = if session.find(DeclKind::Function, func.name) is Some {
        session.discard_named(DeclKind::Function, func.name, index)
    } else {
        session.declare_function(func, index)
    };
    let after = session.redefine_function(func, index);
    if session.find(DeclKind::Function, func.name) is Some {
        lemma_discard_named(session, DeclKind::Function, func.name, index);
    } else {
        if session.declare(DeclKind::Function, func.name, signature_of(func)) is Some {
            lemma_declare(session, DeclKind::Function, func.name, signature_of(func));
        }
    }
    if first.error is None {
        lemma_discard_named(first.session, DeclKind::MemoryEntry, func.name, index);
        lemma_extends_transitive(session, first.session, after.session);
        if after.error is None && fits(after.session) {
            lemma_first_index_from(decl_keys(session.table), (DeclKind::Function, func.name), 0);
            lemma_first_index_from(
                decl_keys(session.table),
                (DeclKind::MemoryEntry, func.name),
                0,
            );
            assert forall|kind: DeclKind|
                (kind == DeclKind::Function || kind == DeclKind::MemoryEntry) && (
                #[trigger] session.find(kind, func.name)) is Some implies {
                let slot = session.find(kind, func.name).unwrap();
                &&& after.session.table[slot as int].state == BodyState::Declared
                &&& session.table[slot as int].state != BodyState::Declared
                    ==> after.session.table[slot as int].epoch > session.table[slot as int].epoch
            } by {
                let slot = session.find(kind, func.name).unwrap();
                lemma_find_stays(session, first.session, kind, func.name);
                if kind == DeclKind::Function {
                    assert(first.session.table[slot as int].state == BodyState::Declared);
                    lemma_first_index_from(
                        decl_keys(first.session.table),
                        (DeclKind::MemoryEntry, func.name),
                        0,
                    );
                    assert(first.session.find(DeclKind::MemoryEntry, func.name) != Some(slot));
                }
            }
        }
    }
}

/// Making the first functions of a program redefinable leaves a later
/// state of the session. For each of them, where the function or its memory
/// entry had a body, the epoch of its slot has advanced: every handle that
/// was made for it before is stale.
pub proof fn lemma_redefine_all(session: TranslatorView, funcs: Seq<FunctionView>, n: int)
    requires
        0 <= n <= funcs.len(),
    ensures
        extends(session, session.redefine_all(funcs, n).session),
        only_built_since(session, session.redefine_all(funcs, n).session),
        only_functions_since(session, session.redefine_all(funcs, n).session),
        fits(session.redefine_all(funcs, n).session) && session.redefine_all(funcs, n).error
            is None ==> forall|i: int, kind: DeclKind|
            0 <= i < n && (kind == DeclKind::Function || kind == DeclKind::MemoryEntry) && (
            #[trigger] session.find(kind, funcs[i].name)) is Some && session.table[session.find(
                kind,
                funcs[i].name,
            ).unwrap() as int].state != BodyState::Declared ==> session.redefine_all(
                funcs,
                n,
            ).session.table[session.find(kind, funcs[i].name).unwrap() as int].epoch
                > session.table[session.find(kind, funcs[i].name).unwrap() as int].epoch,
    decreases n,
{
    lemma_extends_reflexive(session);
    if n > 0 {
        let before = session.redefine_all(funcs, n - 1);
        let after = session.redefine_all(funcs, n);
        if before.error is Some {
            lemma_redefine_all(session, funcs, n - 1);
        } else {
            assert(after == before.session.redefine_function(funcs[n - 1], (n - 1) as usize));
            lemma_redefine_function(before.session, funcs[n - 1], (n - 1) as usize);
            lemma_redefine_all(session, funcs, n - 1);
            lemma_extends_transitive(session, before.session, after.session);
            if after.error is None && fits(after.session) {
                assert forall|i: int, kind: DeclKind|
                    0 <= i < n && (kind == DeclKind::Function || kind == DeclKind::MemoryEntry) && (
                    #[trigger] session.find(kind, funcs[i].name)) is Some
                        && session.table[session.find(kind, funcs[i].name).unwrap() as int].state
                        != BodyState::Declared implies after.session.table[session.find(
                    kind,
                    funcs[i].name,
                ).unwrap() as int].epoch > session.table[session.find(
                    kind,
                    funcs[i].name,
                ).unwrap() as int].epoch by {
                    let slot = session.find(kind, funcs[i].name).unwrap();
                    lemma_first_index_from(decl_keys(session.table), (kind, funcs[i].name), 0);
                    assert(before.session.table[slot as int].epoch >= session.table[slot as int].epoch);
                    assert(after.session.table[slot as int].epoch
                        >= before.session.table[slot as int].epoch);
                    if i == n - 1 && before.session.table[slot as int].epoch
                        == session.table[slot as int].epoch {
                        lemma_find_stays(session, before.session, kind, funcs[i].name);
                        assert(before.session.table[slot as int].state != BodyState::Declared);
                        assert(after.session.table[slot as int].state == BodyState::Declared);
                    }
                }
            }
        }
    }
}

/// Adding an entry shim leaves a later state of the session in which no
/// function of the program has changed. Where it succeeds, the shim is found
/// under its name, defined with the plan of its kind for the function it
/// wraps.
pub proof fn lemma_add_entry(session: TranslatorView, kind: DeclKind, name: Seq<char>, dump: bool)
    requires
        kind != DeclKind::Function,
    ensures
        extends(session, session.add_entry(kind, name, dump).session),
        only_built_since(session, session.add_entry(kind, name, dump).session),
        forall|i: int|
            fits(session.add_entry(kind, name, dump).session) && 0 <= i < session.table.len()
                && session.table[i].kind == DeclKind::Function ==> #[trigger] session.add_entry(
                kind,
                name,
                dump,
            ).session.table[i] == session.table[i],
        forall|i: int|
            session.table.len() <= i < session.add_entry(kind, name, dump).session.table.len()
                ==> (#[trigger] session.add_entry(kind, name, dump).session.table[i]).kind == kind,
        fits(session.add_entry(kind, name, dump).session) && session.add_entry(
            kind,
            name,
            dump,
        ).error is None ==> {
            let after = session.add_entry(kind, name, dump).session;
            let slot = session.slot_of(kind, name);
            &&& session.find(DeclKind::Function, name) is Some
            &&& after.find(kind, name) == Some(slot)
            &&& slot < after.table.len()
            &&& after.table[slot as int].state == BodyState::Defined
            &&& after.table[slot as int].kind == kind
            &&& after.table[slot as int].name == name
            &&& after.table[slot as int].signature == entry_signature(kind)
            &&& entry_check(
                session.table[session.find(DeclKind::Function, name).unwrap() as int].signature.params,
            ) is None
            &&& after.table[slot as int].body == Some(
                entry_plan(
                    kind,
                    session.table[session.find(DeclKind::Function, name).unwrap() as int].signature.params,
                    session.find(DeclKind::Function, name).unwrap(),
                ),
            )
        },
{
    lemma_extends_reflexive(session);
    let after = session.add_entry(kind, name, dump);
    match session.find(DeclKind::Function, name) {
        None => {},
        Some(callee) => {
            let types = session.table[callee as int].signature.params;
            if entry_check(types) is None {
                match session.declare(kind, name, entry_signature(kind)) {
                    None => {},
                    Some(declared) => {
                        let slot = session.slot_of(kind, name);
                        lemma_first_index_from(decl_keys(session.table), (kind, name), 0);
                        match declared.define(slot, entry_plan(kind, types, callee), dump) {
                            None => {
                                assert(after.session == declared);
                                lemma_declare(session, kind, name, entry_signature(kind));
                            },
                            Some(next) => {
                                assert(after.session == next);
                                lemma_declare(session, kind, name, entry_signature(kind));
                                lemma_define(declared, slot, entry_plan(kind, types, callee), dump);
                                lemma_extends_transitive(session, declared, next);
                                assert(decl_keys(next.table) == decl_keys(declared.table));
                                if fits(next) {
                                    assert(declared.table[slot as int].kind == kind);
                                    assert(declared.table[slot as int].signature == entry_signature(
                                        kind,
                                    ));
                                }
                                assert forall|i: int|
                                    fits(next) && 0 <= i < session.table.len()
                                        && session.table[i].kind
                                        == DeclKind::Function implies #[trigger] next.table[i]
                                    == session.table[i] by {
                                    assert(declared.table[i] == session.table[i]);
                                }
                            },
                        }
                    },
                }
            }
        },
    }
}

/// An invocation is recorded only through a handle of the current epoch of
/// a memory entry, and only when the entry and every declared function have
/// a finalized body. A stale handle changes nothing.
pub proof fn lemma_run(session: TranslatorView, entry: Handle, args: Seq<Literal>)
    ensures
        extends(session, session.run(entry, args).session),
        session.run(entry, args).error is Some ==> session.run(entry, args).session == session,
        !session.is_current(entry) ==> session.run(entry, args).error == Some(
            TranslateError::StaleHandle,
        ),
        session.run(entry, args).error is None ==> {
            &&& session.can_invoke(entry)
            &&& session.all_ready()
            &&& session.table[entry.slot as int].kind == DeclKind::MemoryEntry
            &&& session.run(entry, args).session.table == session.table
            &&& session.run(entry, args).session.arguments == args
            &&& session.run(entry, args).session.actions == session.actions.push(
                BackendAction::Invoke { slot: entry.slot },
            )
        },
{
    lemma_extends_reflexive(session);
}

/// A run just in time leaves a later state of the session. Where it fails,
/// for whatever reason, no invocation was recorded: nothing of the program
/// has run. Where it succeeds for a program with a `main`, the invocation of
/// the memory entry of `main` is what was recorded last, with the converted
/// words as arguments, and every declared function had a finalized body.
pub proof fn lemma_jit_run(
    session: TranslatorView,
    program: ProgramView,
    args: Seq<MainArgView>,
    dump_ir: bool,
    swap: bool,
)
    requires
        fits(jit_run_spec(session, program, args, dump_ir, swap).session),
    ensures
        extends(session, jit_run_spec(session, program, args, dump_ir, swap).session),
        jit_run_spec(session, program, args, dump_ir, swap).error is Some ==> no_invocation_since(
            session,
            jit_run_spec(session, program, args, dump_ir, swap).session,
        ),
        jit_run_spec(session, program, args, dump_ir, swap).error is None && main_index(program)
            is None ==> no_invocation_since(
            session,
            jit_run_spec(session, program, args, dump_ir, swap).session,
        ),
        jit_run_spec(session, program, args, dump_ir, swap).error is None && main_index(program)
            is Some ==> {
            let done = jit_run_spec(session, program, args, dump_ir, swap).session;
            &&& done.all_ready()
            &&& done.find(DeclKind::MemoryEntry, "main"@) is Some
            &&& done.actions.len() > session.actions.len()
            &&& done.actions.last() == BackendAction::Invoke {
                slot: done.find(DeclKind::MemoryEntry, "main"@).unwrap(),
            }
            &&& main_args_of(program.functions[main_index(program).unwrap()].params, args) == Ok::<
                Seq<Literal>,
                ArgError,
            >(done.arguments)
        },
{
    let n = program.functions.len() as int;
    let prepared = if swap {
        session.redefine_all(program.functions, n)
    } else {
        session.ok()
    };
    lemma_extends_reflexive(session);
    if swap {
        lemma_redefine_all(session, program.functions, n);
    }
    lemma_built_is_not_invoked(session, prepared.session);
    if prepared.error is None {
        let compiled = prepared.session.compile_prog(program, dump_ir);
        lemma_compile_prog(prepared.session, program, dump_ir);
        lemma_built_is_not_invoked(prepared.session, compiled.session);
        lemma_extends_transitive(session, prepared.session, compiled.session);
        if compiled.error is None {
            let ready = compiled.session.finalize();
            lemma_finalize(compiled.session);
            lemma_extends_transitive(session, compiled.session, ready);
            match main_index(program) {
                None => {},
                Some(m) => {
                    let entered = ready.add_entry(DeclKind::MemoryEntry, "main"@, dump_ir);
                    lemma_add_entry(ready, DeclKind::MemoryEntry, "main"@, dump_ir);
                    lemma_built_is_not_invoked(ready, entered.session);
                    lemma_extends_transitive(session, ready, entered.session);
                    if entered.error is None {
                        let linked = entered.session.finalize();
                        lemma_finalize(entered.session);
                        lemma_extends_transitive(session, entered.session, linked);
                        match main_args_of(program.functions[m].params, args) {
                            Err(_) => {},
                            Ok(literals) => {
                                let handle = linked.resolve(DeclKind::MemoryEntry, "main"@);
                                if handle is Some {
                                    lemma_run(linked, handle.unwrap(), literals);
                                    let done = linked.run(handle.unwrap(), literals);
                                    lemma_extends_transitive(session, linked, done.session);
                                    if done.error is Some {
                                        assert(done.session == linked);
                                    } else {
                                        assert(done.session.find(DeclKind::MemoryEntry, "main"@)
                                            == linked.find(DeclKind::MemoryEntry, "main"@));
                                    }
                                }
                            },
                        }
                    }
                },
            }
        }
    }
}

/// A mismatch between the number of words and the number of parameters of
/// `main` is fatal before anything runs: the run fails, and no invocation
/// was recorded. Where everything up to the conversion of the words went
/// through, the failure names both numbers.
pub proof fn lemma_count_mismatch_is_fatal(
    session: TranslatorView,
    program: ProgramView,
    args: Seq<MainArgView>,
    dump_ir: bool,
    swap: bool,
)
    requires
        fits(jit_run_spec(session, program, args, dump_ir, swap).session),
        main_index(program) is Some,
        program.functions[main_index(program).unwrap()].params.len() != args.len(),
    ensures
        jit_run_spec(session, program, args, dump_ir, swap).error is Some,
        no_invocation_since(session, jit_run_spec(session, program, args, dump_ir, swap).session),
        jit_run_spec(session, program, args, dump_ir, swap).error matches Some(
            TranslateError::Arguments(e),
        ) ==> e == (ArgError::CountMismatch {
            expected: program.functions[main_index(program).unwrap()].params.len() as usize,
            got: args.len() as usize,
        }),
{
    lemma_jit_run(session, program, args, dump_ir, swap);
    let done = jit_run_spec(session, program, args, dump_ir, swap);
    if done.error is None {
        assert(main_args_of(program.functions[main_index(program).unwrap()].params, args) is Err);
    }
    if done.error matches Some(TranslateError::Arguments(e)) {
        let n = program.functions.len() as int;
        let prepared = if swap {
            session.redefine_all(program.functions, n)
        } else {
            session.ok()
        };
        if swap {
            lemma_redefine_all_errors(session, program.functions, n);
        }
        lemma_compile_prog_errors(prepared.session, program, dump_ir);
        let linked = prepared.session.compile_prog(program, dump_ir).session.finalize().add_entry(
            DeclKind::MemoryEntry,
            "main"@,
            dump_ir,
        ).session.finalize();
        let params = program.functions[main_index(program).unwrap()].params;
        assert(done == linked.fail(TranslateError::Arguments(main_args_of(params, args)->Err_0)));
    }
}

/// Making functions redefinable fails only because a function has run out
/// of epochs or its signature has changed.
pub proof fn lemma_redefine_all_errors(session: TranslatorView, funcs: Seq<FunctionView>, n: int)
    ensures
        session.redefine_all(funcs, n).error matches Some(e) ==> e is EpochsExhausted || e
            is SignatureChanged,
    decreases n,
{
    if n > 0 {
        lemma_redefine_all_errors(session, funcs, n - 1);
    }
}

/// Compiling a program fails only because a signature has changed, a
/// function cannot be lowered, or a function already has a body.
pub proof fn lemma_compile_prog_errors(session: TranslatorView, program: ProgramView, dump: bool)
    ensures
        session.compile_prog(program, dump).error matches Some(e) ==> e is SignatureChanged || e
            is Lower || e is AlreadyDefined,
{
    let n = program.functions.len() as int;
    lemma_declare_all_errors(session, program.functions, n);
    lemma_define_all_errors(session.declare_all(program.functions, n).session, program.functions, n, dump);
}

proof fn lemma_declare_all_errors(session: TranslatorView, funcs: Seq<FunctionView>, n: int)
    ensures
        session.declare_all(funcs, n).error matches Some(e) ==> e is SignatureChanged,
    decreases n,
{
    if n > 0 {
        lemma_declare_all_errors(session, funcs, n - 1);
    }
}

proof fn lemma_define_all_errors(session: TranslatorView, funcs: Seq<FunctionView>, n: int, dump: bool)
    ensures
        session.define_all(funcs, n, dump).error matches Some(e) ==> e is Lower || e
            is AlreadyDefined,
    decreases n,
{
    if n > 0 {
        lemma_define_all_errors(session, funcs, n - 1, dump);
    }
}

/// Hot-swap leaves no way back to the old code. After a run that made the
/// functions of a program redefinable, a handle that was made before the run
/// for the memory entry of `main`, while that entry had a body, is stale: an
/// invocation through it is refused and changes nothing. The entry that the
/// run invoked is the one that the name gives after the run.
pub proof fn lemma_swap_retires_handles(
    session: TranslatorView,
    program: ProgramView,
    args: Seq<MainArgView>,
    dump_ir: bool,
    old_entry: Handle,
)
    requires
        fits(jit_run_spec(session, program, args, dump_ir, true).session),
        jit_run_spec(session, program, args, dump_ir, true).error is None,
        main_index(program) is Some,
        session.resolve(DeclKind::MemoryEntry, "main"@) == Some(old_entry),
        session.table[old_entry.slot as int].state != BodyState::Declared,
    ensures
        ({
            let done = jit_run_spec(session, program, args, dump_ir, true).session;
            &&& !done.is_current(old_entry)
            &&& forall|again: Seq<Literal>|
                #[trigger] done.run(old_entry, again) == done.fail(TranslateError::StaleHandle)
            &&& done.resolve(DeclKind::MemoryEntry, "main"@) is Some
            &&& done.resolve(DeclKind::MemoryEntry, "main"@).unwrap().slot == old_entry.slot
            &&& done.resolve(DeclKind::MemoryEntry, "main"@).unwrap().epoch > old_entry.epoch
            &&& done.actions.last() == BackendAction::Invoke { slot: old_entry.slot }
        }),
{
    let n = program.functions.len() as int;
    let done = jit_run_spec(session, program, args, dump_ir, true).session;
    let m = main_index(program).unwrap();
    lemma_first_index_from(function_names(program), "main"@, 0);
    assert(program.functions[m].name == "main"@);
    lemma_first_index_from(decl_keys(session.table), (DeclKind::MemoryEntry, "main"@), 0);
    let prepared = session.redefine_all(program.functions, n);
    lemma_jit_run(session, program, args, dump_ir, true);
    // The epoch of the entry advances while the functions are made
    // redefinable, and never goes back afterwards.
    let compiled = prepared.session.compile_prog(program, dump_ir);
    let ready = compiled.session.finalize();
    let entered = ready.add_entry(DeclKind::MemoryEntry, "main"@, dump_ir);
    let linked = entered.session.finalize();
    lemma_finalize(entered.session);
    lemma_add_entry(ready, DeclKind::MemoryEntry, "main"@, dump_ir);
    lemma_finalize(compiled.session);
    lemma_compile_prog(prepared.session, program, dump_ir);
    lemma_redefine_all(session, program.functions, n);
    assert(session.find(DeclKind::MemoryEntry, program.functions[m].name) is Some);
    assert(prepared.session.table[old_entry.slot as int].epoch > old_entry.epoch);
    lemma_extends_transitive(prepared.session, compiled.session, ready);
    lemma_extends_transitive(prepared.session, ready, entered.session);
    lemma_extends_transitive(prepared.session, entered.session, linked);
    let fresh = linked.resolve(DeclKind::MemoryEntry, "main"@).unwrap();
    let literals = main_args_of(program.functions[m].params, args)->Ok_0;
    lemma_run(linked, fresh, literals);
    lemma_extends_transitive(prepared.session, linked, done);
    lemma_extends_transitive(session, prepared.session, done);
    lemma_find_stays(session, done, DeclKind::MemoryEntry, "main"@);
    assert(done.table[old_entry.slot as int].epoch > old_entry.epoch);
}

/// A later state of a session extends its table of declarations.
pub proof fn lemma_extends_table(before: TranslatorView, after: TranslatorView)
    requires
        extends(before, after),
    ensures
        table_extends(before.table, after.table),
{
    assert forall|i: int| 0 <= i < before.table.len() implies {
        &&& (#[trigger] after.table[i]).name == before.table[i].name
        &&& after.table[i].kind == before.table[i].kind
        &&& after.table[i].signature == before.table[i].signature
    } by {}
}

/// Whether every one of the first `n` functions is declared in the session
/// and defined, in its slot, with the plan it is lowered to against the
/// declarations of the session.
pub open spec fn bodies_current(session: TranslatorView, funcs: Seq<FunctionView>, n: int) -> bool {
    forall|i: int|
        0 <= i < n ==> {
            let found = #[trigger] session.find(DeclKind::Function, funcs[i].name);
            let lowered = lower_function_spec(funcs[i], session.table, session.pointer_bytes);
            &&& found is Some
            &&& found.unwrap() < session.table.len()
            &&& lowered is Ok
            &&& session.table[found.unwrap() as int].body == Some(lowered->Ok_0)
            &&& session.table[found.unwrap() as int].state != BodyState::Declared
        }
}

/// Where the functions of a program are declared, and lowering and defining
/// the first of them goes through, each of them is defined with the plan it
/// is lowered to.
proof fn lemma_define_all_bodies(
    session: TranslatorView,
    funcs: Seq<FunctionView>,
    n: int,
    dump: bool,
)
    requires
        0 <= n <= funcs.len(),
        fits(session),
        forall|i: int|
            0 <= i < funcs.len() ==> (#[trigger] session.find(DeclKind::Function, funcs[i].name))
                is Some,
        session.define_all(funcs, n, dump).error is None,
    ensures
        bodies_current(session.define_all(funcs, n, dump).session, funcs, n),
    decreases n,
{
    if n > 0 {
        let before = session.define_all(funcs, n - 1, dump);
        let after = session.define_all(funcs, n, dump).session;
        lemma_define_all_bodies(session, funcs, n - 1, dump);
        lemma_define_all(session, funcs, n - 1, dump);
        lemma_define_all(session, funcs, n, dump);
        let func = funcs[n - 1];
        let plan = lower_function_spec(func, before.session.table, before.session.pointer_bytes)->Ok_0;
        let slot = before.session.slot_of(DeclKind::Function, func.name);
        lemma_define(before.session, slot, plan, dump);
        assert(before.session.find(DeclKind::Function, func.name) == session.find(
            DeclKind::Function,
            func.name,
        ));
        lemma_first_index_from(decl_keys(session.table), (DeclKind::Function, func.name), 0);
        assert forall|i: int| 0 <= i < n implies {
            let found = #[trigger] after.find(DeclKind::Function, funcs[i].name);
            let lowered = lower_function_spec(funcs[i], after.table, after.pointer_bytes);
            &&& found is Some
            &&& found.unwrap() < after.table.len()
            &&& lowered is Ok
            &&& after.table[found.unwrap() as int].body == Some(lowered->Ok_0)
            &&& after.table[found.unwrap() as int].state != BodyState::Declared
        } by {
            assert(after.find(DeclKind::Function, funcs[i].name) == session.find(
                DeclKind::Function,
                funcs[i].name,
            ));
            assert(before.session.find(DeclKind::Function, funcs[i].name) == session.find(
                DeclKind::Function,
                funcs[i].name,
            ));
            assert(scope_of(funcs[i], after.table, after.pointer_bytes) == scope_of(
                funcs[i],
                before.session.table,
                before.session.pointer_bytes,
            ));
            lemma_first_index_from(decl_keys(session.table), (DeclKind::Function, funcs[i].name), 0);
        }
    }
}

/// After a program is compiled, every function of the program is defined
/// with the plan it is lowered to against the declarations of the session.
pub proof fn lemma_compiled_bodies(session: TranslatorView, program: ProgramView, dump: bool)
    requires
        fits(session.compile_prog(program, dump).session),
        session.compile_prog(program, dump).error is None,
    ensures
        bodies_current(
            session.compile_prog(program, dump).session,
            program.functions,
            program.functions.len() as int,
        ),
{
    let n = program.functions.len() as int;
    let declared = session.declare_all(program.functions, n);
    lemma_declare_all(session, program.functions, n);
    lemma_define_all(declared.session, program.functions, n, dump);
    lemma_define_all_bodies(declared.session, program.functions, n, dump);
}

/// What was defined with current bodies stays so in a later state of the
/// session in which no function has changed.
proof fn lemma_bodies_stay(
    before: TranslatorView,
    after: TranslatorView,
    funcs: Seq<FunctionView>,
    n: int,
)
    requires
        extends(before, after),
        fits(after),
        forall|i: int| 0 <= i < funcs.len() ==> function_fits(#[trigger] funcs[i]),
        0 <= n <= funcs.len(),
        bodies_current(before, funcs, n),
        forall|i: int|
            0 <= i < before.table.len() && before.table[i].kind == DeclKind::Function ==> (
            #[trigger] after.table[i]).body == before.table[i].body && after.table[i].epoch
                == before.table[i].epoch,
    ensures
        bodies_current(after, funcs, n),
{
    lemma_extends_table(before, after);
    assert forall|i: int| 0 <= i < n implies {
        let found = #[trigger] after.find(DeclKind::Function, funcs[i].name);
        let lowered = lower_function_spec(funcs[i], after.table, after.pointer_bytes);
        &&& found is Some
        &&& found.unwrap() < after.table.len()
        &&& lowered is Ok
        &&& after.table[found.unwrap() as int].body == Some(lowered->Ok_0)
        &&& after.table[found.unwrap() as int].state != BodyState::Declared
    } by {
        let found = before.find(DeclKind::Function, funcs[i].name);
        assert(found is Some);
        lemma_find_stays(before, after, DeclKind::Function, funcs[i].name);
        lemma_lowering_stable(funcs[i], before.table, after.table, before.pointer_bytes);
        lemma_first_index_from(decl_keys(before.table), (DeclKind::Function, funcs[i].name), 0);
        assert(before.table[found.unwrap() as int].kind == DeclKind::Function);
        assert(after.table[found.unwrap() as int].body == before.table[found.unwrap() as int].body);
    }
}

/// After a successful run just in time, every function of the program is
/// defined with the plan it is lowered to: with `swap`, what runs is the new
/// code, never the old.
pub proof fn lemma_run_defines_program(
    session: TranslatorView,
    program: ProgramView,
    args: Seq<MainArgView>,
    dump_ir: bool,
    swap: bool,
)
    requires
        program_fits(program),
        fits(jit_run_spec(session, program, args, dump_ir, swap).session),
        jit_run_spec(session, program, args, dump_ir, swap).error is None,
    ensures
        bodies_current(
            jit_run_spec(session, program, args, dump_ir, swap).session,
            program.functions,
            program.functions.len() as int,
        ),
        main_index(program) is Some ==> {
            let done = jit_run_spec(session, program, args, dump_ir, swap).session;
            let entry = done.find(DeclKind::MemoryEntry, "main"@);
            let wrapped = done.find(DeclKind::Function, "main"@);
            &&& entry is Some
            &&& wrapped is Some
            &&& done.table[entry.unwrap() as int].body == Some(
                memory_entry_plan(
                    done.table[wrapped.unwrap() as int].signature.params,
                    wrapped.unwrap(),
                ),
            )
        },
{
    let n = program.functions.len() as int;
    let prepared = if swap {
        session.redefine_all(program.functions, n)
    } else {
        session.ok()
    };
    lemma_extends_reflexive(session);
    if swap {
        lemma_redefine_all(session, program.functions, n);
    }
    let compiled = prepared.session.compile_prog(program, dump_ir);
    lemma_compile_prog(prepared.session, program, dump_ir);
    let ready = compiled.session.finalize();
    lemma_finalize(compiled.session);
    match main_index(program) {
        None => {
            lemma_compiled_bodies(prepared.session, program, dump_ir);
            lemma_bodies_stay(compiled.session, ready, program.functions, n);
        },
        Some(m) => {
            let entered = ready.add_entry(DeclKind::MemoryEntry, "main"@, dump_ir);
            lemma_add_entry(ready, DeclKind::MemoryEntry, "main"@, dump_ir);
            let linked = entered.session.finalize();
            lemma_finalize(entered.session);
            let literals = main_args_of(program.functions[m].params, args)->Ok_0;
            let fresh = linked.resolve(DeclKind::MemoryEntry, "main"@).unwrap();
            lemma_run(linked, fresh, literals);
            let done = linked.run(fresh, literals).session;
            assert(done == jit_run_spec(session, program, args, dump_ir, swap).session);
            assert(done.table == linked.table);
            assert(fits(linked) && fits(entered.session) && fits(ready) && fits(compiled.session));
            lemma_compiled_bodies(prepared.session, program, dump_ir);
            lemma_bodies_stay(compiled.session, ready, program.functions, n);
            lemma_bodies_stay(ready, entered.session, program.functions, n);
            lemma_bodies_stay(entered.session, linked, program.functions, n);
            lemma_extends_reflexive(linked);
            lemma_bodies_stay(linked, done, program.functions, n);
            // The entry.
            lemma_find_stays(entered.session, linked, DeclKind::MemoryEntry, "main"@);
            lemma_find_stays(ready, linked, DeclKind::Function, "main"@);
            let wrapped = ready.find(DeclKind::Function, "main"@).unwrap();
            lemma_first_index_from(decl_keys(ready.table), (DeclKind::Function, "main"@), 0);
            assert(linked.table[wrapped as int].signature == ready.table[wrapped as int].signature) by {
                lemma_extends_transitive(ready, entered.session, linked);
            }
        },
    }
}

/// Hot-swap is idempotent. Where a program has run in a session, and runs
/// again with `swap` from the same source and with the same words, the second
/// run defines every function of the program with the body it had, leaves
/// the memory entry of `main` with the body it had, and invokes the same
/// entry with the same arguments.
pub proof fn lemma_swap_idempotent(
    session: TranslatorView,
    program: ProgramView,
    args: Seq<MainArgView>,
    dump_ir: bool,
    swap: bool,
)
    requires
        program_fits(program),
        jit_run_spec(session, program, args, dump_ir, swap).error is None,
        jit_run_spec(
            jit_run_spec(session, program, args, dump_ir, swap).session,
            program,
            args,
            dump_ir,
            true,
        ).error is None,
        fits(
            jit_run_spec(
                jit_run_spec(session, program, args, dump_ir, swap).session,
                program,
                args,
                dump_ir,
                true,
            ).session,
        ),
    ensures
        ({
            let first = jit_run_spec(session, program, args, dump_ir, swap).session;
            let second = jit_run_spec(first, program, args, dump_ir, true).session;
            &&& forall|i: int|
                0 <= i < program.functions.len() ==> {
                    let slot = #[trigger] first.find(DeclKind::Function, program.functions[i].name);
                    &&& slot is Some
                    &&& second.find(DeclKind::Function, program.functions[i].name) == slot
                    &&& second.table[slot.unwrap() as int].body == first.table[slot.unwrap() as int].body
                }
            &&& main_index(program) is Some ==> {
                let entry = first.find(DeclKind::MemoryEntry, "main"@);
                &&& entry is Some
                &&& second.find(DeclKind::MemoryEntry, "main"@) == entry
                &&& second.table[entry.unwrap() as int].body == first.table[entry.unwrap() as int].body
                &&& second.arguments == first.arguments
                &&& second.actions.last() == first.actions.last()
            }
        }),
{
    let first = jit_run_spec(session, program, args, dump_ir, swap).session;
    let second = jit_run_spec(first, program, args, dump_ir, true).session;
    let n = program.functions.len() as int;
    lemma_jit_run(first, program, args, dump_ir, true);
    assert(fits(first));
    lemma_jit_run(session, program, args, dump_ir, swap);
    lemma_run_defines_program(session, program, args, dump_ir, swap);
    lemma_run_defines_program(first, program, args, dump_ir, true);
    lemma_extends_table(first, second);
    assert forall|i: int| 0 <= i < n implies {
        let slot = #[trigger] first.find(DeclKind::Function, program.functions[i].name);
        &&& slot is Some
        &&& second.find(DeclKind::Function, program.functions[i].name) == slot
        &&& second.table[slot.unwrap() as int].body == first.table[slot.unwrap() as int].body
    } by {
        let name = program.functions[i].name;
        assert(first.find(DeclKind::Function, name) is Some);
        assert(second.find(DeclKind::Function, name) is Some);
        lemma_find_stays(first, second, DeclKind::Function, name);
        lemma_lowering_stable(program.functions[i], first.table, second.table, first.pointer_bytes);
    }
    if main_index(program) is Some {
        lemma_find_stays(first, second, DeclKind::MemoryEntry, "main"@);
        lemma_find_stays(first, second, DeclKind::Function, "main"@);
        let wrapped = first.find(DeclKind::Function, "main"@).unwrap();
        lemma_first_index_from(decl_keys(first.table), (DeclKind::Function, "main"@), 0);
        assert(second.table[wrapped as int].signature == first.table[wrapped as int].signature);
    }
}

/// Whether a plan can be replayed as it stands in a session with the given
/// table of declarations: it names only what exists, each of its blocks ends
/// in exactly one jump, branch, return or exit, and each of its calls finds
/// one queued argument for each parameter of the callee.
pub open spec fn replayable(plan: PlanView, table: Seq<DeclView>) -> bool {
    plan_wf(plan, table.len() as int) && plan_fed(plan, decl_signatures(table))
}

/// Whether every body that the table of a session holds can be replayed as
/// it stands.
pub open spec fn bodies_wf(session: TranslatorView) -> bool {
    forall|i: int|
        0 <= i < session.table.len() ==> match (#[trigger] session.table[i]).body {
            Some(plan) => replayable(plan, session.table),
            None => true,
        }
}

/// A plan that can be replayed in a session can be replayed in a session
/// with more declarations.
pub proof fn lemma_plan_wf_grows(plan: PlanView, callees: int, more: int)
    requires
        plan_wf(plan, callees),
        callees <= more,
    ensures
        plan_wf(plan, more),
{
    assert forall|b: int| 0 <= b < plan.blocks.len() implies {
        &&& block_closed(#[trigger] plan.blocks[b])
        &&& ops_fit(
            plan.blocks[b],
            plan.slots.len() as int,
            plan.blocks.len() as int,
            plan.signature.params.len() as int,
            more,
        )
    } by {
        let ops = plan.blocks[b];
        assert(ops_fit(
            ops,
            plan.slots.len() as int,
            plan.blocks.len() as int,
            plan.signature.params.len() as int,
            callees,
        ));
        assert forall|k: int| 0 <= k < ops.len() implies op_fits(
            #[trigger] ops[k],
            plan.slots.len() as int,
            plan.blocks.len() as int,
            plan.signature.params.len() as int,
            more,
        ) by {
            assert(op_fits(
                ops[k],
                plan.slots.len() as int,
                plan.blocks.len() as int,
                plan.signature.params.len() as int,
                callees,
            ));
        }
    }
}

/// Bodies that can be replayed stay so in a later state of the session in
/// which every body is one that was there or one that can be replayed.
proof fn lemma_bodies_wf_step(before: TranslatorView, after: TranslatorView)
    requires
        bodies_wf(before),
        before.table.len() <= after.table.len(),
        forall|i: int|
            0 <= i < before.table.len() ==> (#[trigger] after.table[i]).signature
                == before.table[i].signature,
        forall|i: int|
            0 <= i < after.table.len() ==> {
                ||| (#[trigger] after.table[i]).body is None
                ||| i < before.table.len() && after.table[i].body == before.table[i].body
                ||| replayable(after.table[i].body.unwrap(), after.table)
            },
    ensures
        bodies_wf(after),
{
    assert forall|i: int| 0 <= i < after.table.len() implies match (#[trigger] after.table[i]).body {
        Some(plan) => replayable(plan, after.table),
        None => true,
    } by {
        if after.table[i].body is Some && i < before.table.len() && after.table[i].body
            == before.table[i].body {
            let plan = before.table[i].body.unwrap();
            assert(replayable(plan, before.table));
            lemma_plan_wf_grows(plan, before.table.len() as int, after.table.len() as int);
            assert forall|k: int| 0 <= k < before.table.len() implies decl_signatures(
                before.table,
            )[k] == decl_signatures(after.table)[k] by {
                assert(after.table[k].signature == before.table[k].signature);
            }
            lemma_plan_fed_grows(
                plan,
                decl_signatures(before.table),
                decl_signatures(after.table),
            );
        }
    }
}

/// Declaring functions keeps every body replayable.
proof fn lemma_declare_all_wf(session: TranslatorView, funcs: Seq<FunctionView>, n: int)
    requires
        0 <= n <= funcs.len(),
        bodies_wf(session),
    ensures
        bodies_wf(session.declare_all(funcs, n).session),
    decreases n,
{
    if n > 0 {
        lemma_declare_all_wf(session, funcs, n - 1);
        let before = session.declare_all(funcs, n - 1);
        if before.error is None {
            let func = funcs[n - 1];
            if before.session.declare(DeclKind::Function, func.name, signature_of(func)) is Some {
                lemma_declare(before.session, DeclKind::Function, func.name, signature_of(func));
                lemma_bodies_wf_step(before.session, session.declare_all(funcs, n).session);
            }
        }
    }
}

/// Lowering and defining functions keeps every body replayable.
proof fn lemma_define_all_wf(session: TranslatorView, funcs: Seq<FunctionView>, n: int, dump: bool)
    requires
        0 <= n <= funcs.len(),
        fits(session),
        forall|i: int| 0 <= i < funcs.len() ==> function_fits(#[trigger] funcs[i]),
        bodies_wf(session),
    ensures
        bodies_wf(session.define_all(funcs, n, dump).session),
    decreases n,
{
    if n > 0 {
        lemma_define_all_wf(session, funcs, n - 1, dump);
        lemma_define_all(session, funcs, n - 1, dump);
        let before = session.define_all(funcs, n - 1, dump);
        if before.error is None {
            let func = funcs[n - 1];
            match lower_function_spec(func, before.session.table, before.session.pointer_bytes) {
                Ok(plan) => {
                    let slot = before.session.slot_of(DeclKind::Function, func.name);
                    if before.session.define(slot, plan, dump) is Some {
                        lemma_lowered_plan_wf(
                            func,
                            before.session.table,
                            before.session.pointer_bytes,
                        );
                        lemma_lowered_plan_fed(
                            func,
                            before.session.table,
                            before.session.pointer_bytes,
                        );
                        lemma_define(before.session, slot, plan, dump);
                        assert(decl_signatures(
                            before.session.define(slot, plan, dump).unwrap().table,
                        ) =~= decl_signatures(before.session.table));
                        lemma_bodies_wf_step(
                            before.session,
                            session.define_all(funcs, n, dump).session,
                        );
                    }
                },
                Err(_) => {},
            }
        }
    }
}

/// Making functions redefinable keeps every body replayable.
proof fn lemma_redefine_all_wf(session: TranslatorView, funcs: Seq<FunctionView>, n: int)
    requires
        0 <= n <= funcs.len(),
        bodies_wf(session),
    ensures
        bodies_wf(session.redefine_all(funcs, n).session),
    decreases n,
{
    if n > 0 {
        lemma_redefine_all_wf(session, funcs, n - 1);
        let before = session.redefine_all(funcs, n - 1);
        if before.error is None {
            let func = funcs[n - 1];
            let index = (n - 1) as usize;
            let first = if before.session.find(DeclKind::Function, func.name) is Some {
                before.session.discard_named(DeclKind::Function, func.name, index)
            } else {
                before.session.declare_function(func, index)
            };
            if before.session.find(DeclKind::Function, func.name) is Some {
                lemma_discard_wf(before.session, DeclKind::Function, func.name, index);
            } else if before.session.declare(DeclKind::Function, func.name, signature_of(func))
                is Some {
                lemma_declare(before.session, DeclKind::Function, func.name, signature_of(func));
                lemma_bodies_wf_step(before.session, first.session);
            }
            if first.error is None {
                lemma_discard_wf(first.session, DeclKind::MemoryEntry, func.name, index);
            }
        }
    }
}

/// Discarding a body keeps every other body replayable.
proof fn lemma_discard_wf(session: TranslatorView, kind: DeclKind, name: Seq<char>, index: usize)
    requires
        bodies_wf(session),
    ensures
        bodies_wf(session.discard_named(kind, name, index).session),
{
    let after = session.discard_named(kind, name, index).session;
    match session.find(kind, name) {
        Some(slot) => {
            if session.discard(slot) is Some {
                lemma_discard(session, slot);
                assert forall|i: int| 0 <= i < after.table.len() implies {
                    ||| (#[trigger] after.table[i]).body is None
                    ||| i < session.table.len() && after.table[i].body == session.table[i].body
                    ||| replayable(after.table[i].body.unwrap(), after.table)
                } by {
                    if i != slot {
                        assert(after.table[i] == session.table[i]);
                    }
                }
                lemma_bodies_wf_step(session, after);
            }
        },
        None => {},
    }
}

/// Adding an entry shim keeps every body replayable.
proof fn lemma_add_entry_wf(session: TranslatorView, kind: DeclKind, name: Seq<char>, dump: bool)
    requires
        kind != DeclKind::Function,
        fits(session.add_entry(kind, name, dump).session),
        bodies_wf(session),
    ensures
        bodies_wf(session.add_entry(kind, name, dump).session),
{
    let after = session.add_entry(kind, name, dump);
    match session.find(DeclKind::Function, name) {
        None => {},
        Some(callee) => {
            let types = session.table[callee as int].signature.params;
            lemma_first_index_from(decl_keys(session.table), (DeclKind::Function, name), 0);
            if entry_check(types) is None {
                match session.declare(kind, name, entry_signature(kind)) {
                    None => {},
                    Some(declared) => {
                        let slot = session.slot_of(kind, name);
                        lemma_declare(session, kind, name, entry_signature(kind));
                        lemma_bodies_wf_step(session, declared);
                        match declared.define(slot, entry_plan(kind, types, callee), dump) {
                            None => {},
                            Some(next) => {
                                lemma_define(declared, slot, entry_plan(kind, types, callee), dump);
                                lemma_first_index_from(types, NativeType::Ptr, 0);
                                if kind == DeclKind::ProcessEntry {
                                    lemma_process_entry_wf(types, callee, next.table.len() as int);
                                } else {
                                    lemma_memory_entry_wf(types, callee, next.table.len() as int);
                                }
                                lemma_extends_transitive(session, declared, next);
                                assert(next.table[callee as int].signature
                                    == session.table[callee as int].signature);
                                lemma_entries_fed(types, callee, decl_signatures(next.table));
                                lemma_bodies_wf_step(declared, next);
                            },
                        }
                    },
                }
            }
        },
    }
}

/// Finalization keeps every body replayable.
proof fn lemma_finalize_wf(session: TranslatorView)
    requires
        bodies_wf(session),
    ensures
        bodies_wf(session.finalize()),
{
    lemma_finalize(session);
    lemma_bodies_wf_step(session, session.finalize());
}

/// Compiling a program keeps every body replayable.
pub proof fn lemma_compile_prog_wf(session: TranslatorView, program: ProgramView, dump: bool)
    requires
        program_fits(program),
        fits(session.compile_prog(program, dump).session),
        bodies_wf(session),
    ensures
        bodies_wf(session.compile_prog(program, dump).session),
{
    let n = program.functions.len() as int;
    let declared = session.declare_all(program.functions, n);
    lemma_declare_all_wf(session, program.functions, n);
    if declared.error is None {
        lemma_define_all(declared.session, program.functions, n, dump);
        lemma_define_all_wf(declared.session, program.functions, n, dump);
    }
}

/// Every body that a driver reads from the session of a program compiled
/// ahead of time can be replayed as it stands.
pub proof fn lemma_compile_wf(
    program: ProgramView,
    pointer_bytes: u8,
    opt_level: OptLevel,
    dump_ir: bool,
)
    requires
        program_fits(program),
        fits(compile_spec(program, pointer_bytes, opt_level, dump_ir).session),
    ensures
        bodies_wf(compile_spec(program, pointer_bytes, opt_level, dump_ir).session),
{
    let fresh = TranslatorView::new(pointer_bytes, opt_level);
    let compiled = fresh.compile_prog(program, dump_ir);
    lemma_compile_prog(fresh, program, dump_ir);
    if compiled.error is None {
        lemma_finalize(compiled.session);
        if main_index(program) is None {
            lemma_compile_prog_wf(fresh, program, dump_ir);
            lemma_finalize_wf(compiled.session);
            lemma_bodies_wf_step(compiled.session.finalize(), compiled.session.emit());
        } else {
            let entered = compiled.session.add_entry(DeclKind::ProcessEntry, "main"@, dump_ir);
            lemma_add_entry(compiled.session, DeclKind::ProcessEntry, "main"@, dump_ir);
            if entered.error is None {
                lemma_finalize(entered.session);
            }
            lemma_compile_prog_wf(fresh, program, dump_ir);
            lemma_add_entry_wf(compiled.session, DeclKind::ProcessEntry, "main"@, dump_ir);
            if entered.error is None {
                lemma_finalize_wf(entered.session);
                lemma_bodies_wf_step(entered.session.finalize(), entered.session.emit());
            }
        }
    } else {
        lemma_compile_prog_wf(fresh, program, dump_ir);
    }
}

/// A run just in time keeps every body of the session replayable.
pub proof fn lemma_jit_run_wf(
    session: TranslatorView,
    program: ProgramView,
    args: Seq<MainArgView>,
    dump_ir: bool,
    swap: bool,
)
    requires
        program_fits(program),
        fits(jit_run_spec(session, program, args, dump_ir, swap).session),
        bodies_wf(session),
    ensures
        bodies_wf(jit_run_spec(session, program, args, dump_ir, swap).session),
{
    let n = program.functions.len() as int;
    let prepared = if swap {
        session.redefine_all(program.functions, n)
    } else {
        session.ok()
    };
    lemma_jit_run(session, program, args, dump_ir, swap);
    if swap {
        lemma_redefine_all_wf(session, program.functions, n);
        lemma_redefine_all(session, program.functions, n);
    }
    if prepared.error is None {
        let compiled = prepared.session.compile_prog(program, dump_ir);
        lemma_compile_prog(prepared.session, program, dump_ir);
        if compiled.error is None {
            let ready = compiled.session.finalize();
            lemma_finalize(compiled.session);
            match main_index(program) {
                None => {
                    lemma_compile_prog_wf(prepared.session, program, dump_ir);
                    lemma_finalize_wf(compiled.session);
                },
                Some(m) => {
                    let entered = ready.add_entry(DeclKind::MemoryEntry, "main"@, dump_ir);
                    lemma_add_entry(ready, DeclKind::MemoryEntry, "main"@, dump_ir);
                    if entered.error is None {
                        let linked = entered.session.finalize();
                        lemma_finalize(entered.session);
                        match main_args_of(program.functions[m].params, args) {
                            Err(_) => {},
                            Ok(literals) => {
                                let handle = linked.resolve(DeclKind::MemoryEntry, "main"@);
                                if handle is Some {
                                    lemma_run(linked, handle.unwrap(), literals);
                                }
                            },
                        }
                        let done = jit_run_spec(session, program, args, dump_ir, swap).session;
                        assert(done.table == linked.table);
                        lemma_compile_prog_wf(prepared.session, program, dump_ir);
                        lemma_finalize_wf(compiled.session);
                        lemma_add_entry_wf(ready, DeclKind::MemoryEntry, "main"@, dump_ir);
                        lemma_finalize_wf(entered.session);
                        lemma_bodies_wf_step(linked, done);
                    } else {
                        lemma_compile_prog_wf(prepared.session, program, dump_ir);
                        lemma_finalize_wf(compiled.session);
                        lemma_add_entry_wf(ready, DeclKind::MemoryEntry, "main"@, dump_ir);
                    }
                },
            }
        } else {
            lemma_compile_prog_wf(prepared.session, program, dump_ir);
        }
    }
}

/// A backend action without its request for diagnostics.
pub open spec fn quiet(action: BackendAction) -> BackendAction {
    match action {
        BackendAction::Define { slot, dump } => BackendAction::Define { slot, dump: false },
        other => other,
    }
}

/// Whether two sessions hold the same code and ask the same of the backend:
/// the same pointer width, the same table of declarations with the same
/// bodies, the same arguments, and the same log but for the requests for
/// diagnostics. The optimization levels may differ.
pub open spec fn same_code(a: TranslatorView, b: TranslatorView) -> bool {
    &&& a.pointer_bytes == b.pointer_bytes
    &&& a.table == b.table
    &&& a.arguments == b.arguments
    &&& a.actions.len() == b.actions.len()
    &&& forall|i: int| 0 <= i < a.actions.len() ==> quiet(#[trigger] a.actions[i]) == quiet(b.actions[i])
}

/// Whether two outcomes fail alike, or not at all, and leave the same code.
pub open spec fn same_outcome(a: Outcome, b: Outcome) -> bool {
    a.error == b.error && same_code(a.session, b.session)
}

/// Appending actions that ask the same keeps two logs asking the same.
proof fn lemma_same_code_push(
    a: TranslatorView,
    b: TranslatorView,
    x: BackendAction,
    y: BackendAction,
    table: Seq<DeclView>,
)
    requires
        same_code(a, b),
        quiet(x) == quiet(y),
    ensures
        same_code(
            TranslatorView { table, actions: a.actions.push(x), ..a },
            TranslatorView { table, actions: b.actions.push(y), ..b },
        ),
{
    let a2 = TranslatorView { table, actions: a.actions.push(x), ..a };
    let b2 = TranslatorView { table, actions: b.actions.push(y), ..b };
    assert forall|i: int| 0 <= i < a2.actions.len() implies quiet(#[trigger] a2.actions[i]) == quiet(
        b2.actions[i],
    ) by {
        if i < a.actions.len() {
            assert(a2.actions[i] == a.actions[i]);
            assert(b2.actions[i] == b.actions[i]);
        }
    }
}

/// Declaring the same in sessions with the same code leaves the same code.
proof fn lemma_same_declare_all(a: TranslatorView, b: TranslatorView, funcs: Seq<FunctionView>, n: int)
    requires
        same_code(a, b),
    ensures
        same_outcome(a.declare_all(funcs, n), b.declare_all(funcs, n)),
    decreases n,
{
    if n > 0 {
        lemma_same_declare_all(a, b, funcs, n - 1);
        let x = a.declare_all(funcs, n - 1);
        let y = b.declare_all(funcs, n - 1);
        if x.error is None {
            let func = funcs[n - 1];
            if x.session.find(DeclKind::Function, func.name) is None {
                let slot = BackendAction::Declare { slot: x.session.table.len() as usize };
                lemma_same_code_push(
                    x.session,
                    y.session,
                    slot,
                    slot,
                    x.session.declare(DeclKind::Function, func.name, signature_of(func)).unwrap().table,
                );
            }
        }
    }
}

/// Defining the same in sessions with the same code leaves the same code,
/// whether diagnostics are asked for or not.
proof fn lemma_same_define_all(
    a: TranslatorView,
    b: TranslatorView,
    funcs: Seq<FunctionView>,
    n: int,
    d1: bool,
    d2: bool,
)
    requires
        same_code(a, b),
    ensures
        same_outcome(a.define_all(funcs, n, d1), b.define_all(funcs, n, d2)),
    decreases n,
{
    if n > 0 {
        lemma_same_define_all(a, b, funcs, n - 1, d1, d2);
        let x = a.define_all(funcs, n - 1, d1);
        let y = b.define_all(funcs, n - 1, d2);
        if x.error is None {
            let func = funcs[n - 1];
            match lower_function_spec(func, x.session.table, x.session.pointer_bytes) {
                Ok(plan) => {
                    let slot = x.session.slot_of(DeclKind::Function, func.name);
                    if x.session.define(slot, plan, d1) is Some {
                        lemma_same_code_push(
                            x.session,
                            y.session,
                            BackendAction::Define { slot, dump: d1 },
                            BackendAction::Define { slot, dump: d2 },
                            x.session.define(slot, plan, d1).unwrap().table,
                        );
                    }
                },
                Err(_) => {},
            }
        }
    }
}

/// Discarding the same in sessions with the same code leaves the same code.
proof fn lemma_same_discard_named(
    a: TranslatorView,
    b: TranslatorView,
    kind: DeclKind,
    name: Seq<char>,
    index: usize,
)
    requires
        same_code(a, b),
    ensures
        same_outcome(a.discard_named(kind, name, index), b.discard_named(kind, name, index)),
{
    match a.find(kind, name) {
        Some(slot) => {
            if a.discard(slot) is Some && a.discard(slot).unwrap() != a {
                lemma_same_code_push(
                    a,
                    b,
                    BackendAction::Discard { slot },
                    BackendAction::Discard { slot },
                    a.discard(slot).unwrap().table,
                );
            }
        },
        None => {},
    }
}

/// Making the same functions redefinable in sessions with the same code
/// leaves the same code.
proof fn lemma_same_redefine_all(a: TranslatorView, b: TranslatorView, funcs: Seq<FunctionView>, n: int)
    requires
        same_code(a, b),
    ensures
        same_outcome(a.redefine_all(funcs, n), b.redefine_all(funcs, n)),
    decreases n,
{
    if n > 0 {
        lemma_same_redefine_all(a, b, funcs, n - 1);
        let x = a.redefine_all(funcs, n - 1);
        let y = b.redefine_all(funcs, n - 1);
        if x.error is None {
            let func = funcs[n - 1];
            let index = (n - 1) as usize;
            let first = if x.session.find(DeclKind::Function, func.name) is Some {
                lemma_same_discard_named(x.session, y.session, DeclKind::Function, func.name, index);
                x.session.discard_named(DeclKind::Function, func.name, index)
            } else {
                let slot = BackendAction::Declare { slot: x.session.table.len() as usize };
                lemma_same_code_push(
                    x.session,
                    y.session,
                    slot,
                    slot,
                    x.session.declare(DeclKind::Function, func.name, signature_of(func)).unwrap().table,
                );
                x.session.declare_function(func, index)
            };
            let second = if y.session.find(DeclKind::Function, func.name) is Some {
                y.session.discard_named(DeclKind::Function, func.name, index)
            } else {
                y.session.declare_function(func, index)
            };
            if first.error is None {
                lemma_same_discard_named(
                    first.session,
                    second.session,
                    DeclKind::MemoryEntry,
                    func.name,
                    index,
                );
            }
        }
    }
}

/// Finalizing sessions with the same code leaves the same code.
proof fn lemma_same_finalize(a: TranslatorView, b: TranslatorView)
    requires
        same_code(a, b),
    ensures
        same_code(a.finalize(), b.finalize()),
{
    lemma_same_code_push(a, b, BackendAction::Finalize, BackendAction::Finalize, a.finalize().table);
}

/// Adding the same entry shim to sessions with the same code leaves the same
/// code, whether diagnostics are asked for or not.
proof fn lemma_same_add_entry(
    a: TranslatorView,
    b: TranslatorView,
    kind: DeclKind,
    name: Seq<char>,
    d1: bool,
    d2: bool,
)
    requires
        same_code(a, b),
    ensures
        same_outcome(a.add_entry(kind, name, d1), b.add_entry(kind, name, d2)),
{
    match a.find(DeclKind::Function, name) {
        None => {},
        Some(callee) => {
            let types = a.table[callee as int].signature.params;
            if entry_check(types) is None {
                match a.declare(kind, name, entry_signature(kind)) {
                    None => {},
                    Some(declared) => {
                        let other = b.declare(kind, name, entry_signature(kind)).unwrap();
                        if a.find(kind, name) is None {
                            let slot = BackendAction::Declare { slot: a.table.len() as usize };
                            lemma_same_code_push(a, b, slot, slot, declared.table);
                        }
                        let slot = a.slot_of(kind, name);
                        let plan = entry_plan(kind, types, callee);
                        if declared.define(slot, plan, d1) is Some {
                            lemma_same_code_push(
                                declared,
                                other,
                                BackendAction::Define { slot, dump: d1 },
                                BackendAction::Define { slot, dump: d2 },
                                declared.define(slot, plan, d1).unwrap().table,
                            );
                        }
                    },
                }
            }
        },
    }
}

/// Compiling the same program in sessions with the same code leaves the same
/// code, whether diagnostics are asked for or not.
proof fn lemma_same_compile_prog(
    a: TranslatorView,
    b: TranslatorView,
    program: ProgramView,
    d1: bool,
    d2: bool,
)
    requires
        same_code(a, b),
    ensures
        same_outcome(a.compile_prog(program, d1), b.compile_prog(program, d2)),
{
    let n = program.functions.len() as int;
    lemma_same_declare_all(a, b, program.functions, n);
    let x = a.declare_all(program.functions, n);
    let y = b.declare_all(program.functions, n);
    if x.error is None {
        lemma_same_define_all(x.session, y.session, program.functions, n, d1, d2);
    }
}

/// Neither the optimization level nor a request for diagnostics changes
/// what a program is compiled to: ahead of time, the same program for the
/// same pointer width fails alike or gives the same plans, the same
/// declarations and the same steps for the backend.
pub proof fn lemma_settings_change_no_code(
    program: ProgramView,
    pointer_bytes: u8,
    level1: OptLevel,
    level2: OptLevel,
    dump1: bool,
    dump2: bool,
)
    ensures
        same_outcome(
            compile_spec(program, pointer_bytes, level1, dump1),
            compile_spec(program, pointer_bytes, level2, dump2),
        ),
{
    let a = TranslatorView::new(pointer_bytes, level1);
    let b = TranslatorView::new(pointer_bytes, level2);
    lemma_same_compile_prog(a, b, program, dump1, dump2);
    let x = a.compile_prog(program, dump1);
    let y = b.compile_prog(program, dump2);
    if x.error is None {
        if main_index(program) is None {
            lemma_same_finalize(x.session, y.session);
            lemma_same_code_push(
                x.session.finalize(),
                y.session.finalize(),
                BackendAction::Write,
                BackendAction::Write,
                x.session.finalize().table,
            );
        } else {
            lemma_same_add_entry(x.session, y.session, DeclKind::ProcessEntry, "main"@, dump1, dump2);
            let p = x.session.add_entry(DeclKind::ProcessEntry, "main"@, dump1);
            let q = y.session.add_entry(DeclKind::ProcessEntry, "main"@, dump2);
            if p.error is None {
                lemma_same_finalize(p.session, q.session);
                lemma_same_code_push(
                    p.session.finalize(),
                    q.session.finalize(),
                    BackendAction::Write,
                    BackendAction::Write,
                    p.session.finalize().table,
                );
            }
        }
    }
}

/// Neither the optimization level of a session nor a request for
/// diagnostics changes what a run just in time does: in sessions with the
/// same code, the same program with the same words fails alike or leaves the
/// same code, the same arguments and the same steps for the backend.
pub proof fn lemma_settings_change_no_run(
    a: TranslatorView,
    b: TranslatorView,
    program: ProgramView,
    args: Seq<MainArgView>,
    dump1: bool,
    dump2: bool,
    swap: bool,
)
    requires
        same_code(a, b),
    ensures
        same_outcome(
            jit_run_spec(a, program, args, dump1, swap),
            jit_run_spec(b, program, args, dump2, swap),
        ),
{
    let n = program.functions.len() as int;
    if swap {
        lemma_same_redefine_all(a, b, program.functions, n);
    }
    let pa = if swap {
        a.redefine_all(program.functions, n)
    } else {
        a.ok()
    };
    let pb = if swap {
        b.redefine_all(program.functions, n)
    } else {
        b.ok()
    };
    if pa.error is None {
        lemma_same_compile_prog(pa.session, pb.session, program, dump1, dump2);
        let ca = pa.session.compile_prog(program, dump1);
        let cb = pb.session.compile_prog(program, dump2);
        if ca.error is None {
            lemma_same_finalize(ca.session, cb.session);
            let ra = ca.session.finalize();
            let rb = cb.session.finalize();
            match main_index(program) {
                None => {},
                Some(m) => {
                    lemma_same_add_entry(ra, rb, DeclKind::MemoryEntry, "main"@, dump1, dump2);
                    let ea = ra.add_entry(DeclKind::MemoryEntry, "main"@, dump1);
                    let eb = rb.add_entry(DeclKind::MemoryEntry, "main"@, dump2);
                    if ea.error is None {
                        lemma_same_finalize(ea.session, eb.session);
                        let la = ea.session.finalize();
                        let lb = eb.session.finalize();
                        match main_args_of(program.functions[m].params, args) {
                            Err(_) => {},
                            Ok(literals) => {
                                match la.resolve(DeclKind::MemoryEntry, "main"@) {
                                    Some(handle) => {
                                        if la.run(handle, literals).error is None {
                                            lemma_same_code_push(
                                                TranslatorView { arguments: literals, ..la },
                                                TranslatorView { arguments: literals, ..lb },
                                                BackendAction::Invoke { slot: handle.slot },
                                                BackendAction::Invoke { slot: handle.slot },
                                                la.table,
                                            );
                                        }
                                    },
                                    None => {},
                                }
                            },
                        }
                    }
                },
            }
        }
    }
}

/// Compiling ahead of time leaves a later state of the session, and where
/// it succeeds, writing the object out is the last thing it asks for.
pub proof fn lemma_compile_onto(session: TranslatorView, program: ProgramView, dump_ir: bool)
    ensures
        extends(session, compile_onto(session, program, dump_ir).session),
        no_invocation_since(session, compile_onto(session, program, dump_ir).session),
        compile_onto(session, program, dump_ir).error is None ==> compile_onto(
            session,
            program,
            dump_ir,
        ).session.actions.last() == BackendAction::Write,
{
    let compiled = session.compile_prog(program, dump_ir);
    lemma_compile_prog(session, program, dump_ir);
    lemma_built_is_not_invoked(session, compiled.session);
    if compiled.error is None {
        if main_index(program) is None {
            lemma_finalize(compiled.session);
            lemma_extends_transitive(session, compiled.session, compiled.session.finalize());
            lemma_emit(compiled.session.finalize(), compiled.session.emit());
            lemma_extends_transitive(session, compiled.session.finalize(), compiled.session.emit());
        } else {
            let entered = compiled.session.add_entry(DeclKind::ProcessEntry, "main"@, dump_ir);
            lemma_add_entry(compiled.session, DeclKind::ProcessEntry, "main"@, dump_ir);
            lemma_built_is_not_invoked(compiled.session, entered.session);
            lemma_extends_transitive(session, compiled.session, entered.session);
            if entered.error is None {
                lemma_finalize(entered.session);
                lemma_extends_transitive(session, entered.session, entered.session.finalize());
                lemma_emit(entered.session.finalize(), entered.session.emit());
                lemma_extends_transitive(
                    session,
                    entered.session.finalize(),
                    entered.session.emit(),
                );
            }
        }
    }
}

/// Asking for the object to be written leaves a later state of the session.
proof fn lemma_emit(finalized: TranslatorView, written: TranslatorView)
    requires
        written == (TranslatorView {
            actions: finalized.actions.push(BackendAction::Write),
            ..finalized
        }),
    ensures
        extends(finalized, written),
        no_invocation_since(finalized, written),
{
}

} // verus!
