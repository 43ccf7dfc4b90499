//! A program that has run can be swapped in again: the second run goes
//! through.

use crate::args::{main_args_of, MainArgView};
use crate::facade::{jit_run_spec, main_index};
use crate::laws::{bodies_current, extends, fits, lemma_add_entry, lemma_compile_prog};
use crate::laws::{lemma_declare, lemma_declare_all, lemma_define, lemma_define_all};
use crate::laws::{lemma_discard, lemma_extends_reflexive, lemma_extends_transitive};
use crate::laws::{lemma_finalize, lemma_find_stays, lemma_jit_run, lemma_redefine_all, lemma_run};
use crate::laws::{lemma_run_defines_program, program_fits};
use crate::lower::{decl_keys, decl_signatures, lower_function_spec, scope_of, signature_of};
use crate::lower::{BodyState, DeclKind};
use crate::model::{lemma_first_index_from, FunctionView, ProgramView};
use crate::translator::{entry_signature, function_names, TranslateError, TranslatorView};
use vstd::prelude::*;

verus! {

/// Whether every one of the first `n` functions is declared under its name
/// with the signature it has.
pub open spec fn declared_alike(session: TranslatorView, funcs: Seq<FunctionView>, n: int) -> bool {
    forall|i: int|
        0 <= i < n ==> {
            let found = #[trigger] session.find(DeclKind::Function, funcs[i].name);
            &&& found is Some
            &&& found.unwrap() < session.table.len()
            &&& session.table[found.unwrap() as int].signature == signature_of(funcs[i])
        }
}

/// Whether a slot belongs to one of the first `n` functions or to its memory
/// entry.
pub open spec fn touched(session: TranslatorView, funcs: Seq<FunctionView>, n: int, slot: int) -> bool {
    exists|i: int, kind: DeclKind|
        0 <= i < n && (kind == DeclKind::Function || kind == DeclKind::MemoryEntry)
            && #[trigger] session.find(kind, funcs[i].name) == Some(slot as usize)
}

/// Whether no epoch of a session is the last one.
pub open spec fn epochs_left(session: TranslatorView) -> bool {
    forall|i: int| 0 <= i < session.table.len() ==> (#[trigger] session.table[i]).epoch < u64::MAX
}

/// After functions are declared, each is found with the signature it has.
proof fn lemma_declare_all_alike(session: TranslatorView, funcs: Seq<FunctionView>, n: int)
    requires
        0 <= n <= funcs.len(),
        fits(session.declare_all(funcs, n).session),
        session.declare_all(funcs, n).error is None,
    ensures
        declared_alike(session.declare_all(funcs, n).session, funcs, n),
    decreases n,
{
    if n > 0 {
        let before = session.declare_all(funcs, n - 1);
        let after = session.declare_all(funcs, n).session;
        let func = funcs[n - 1];
        lemma_declare(before.session, DeclKind::Function, func.name, signature_of(func));
        lemma_declare_all_alike(session, funcs, n - 1);
        lemma_first_index_from(decl_keys(before.session.table), (DeclKind::Function, func.name), 0);
        assert forall|i: int| 0 <= i < n implies {
            let found = #[trigger] after.find(DeclKind::Function, funcs[i].name);
            &&& found is Some
            &&& found.unwrap() < after.table.len()
            &&& after.table[found.unwrap() as int].signature == signature_of(funcs[i])
        } by {
            if i < n - 1 {
                let found = before.session.find(DeclKind::Function, funcs[i].name);
                assert(found is Some);
                lemma_find_stays(before.session, after, DeclKind::Function, funcs[i].name);
                assert(after.table[found.unwrap() as int] == before.session.table[found.unwrap() as int]);
            }
        }
    }
}

/// What was declared alike stays so in every later state of the session.
proof fn lemma_alike_stays(before: TranslatorView, after: TranslatorView, funcs: Seq<FunctionView>, n: int)
    requires
        extends(before, after),
        fits(after),
        declared_alike(before, funcs, n),
    ensures
        declared_alike(after, funcs, n),
        forall|i: int|
            0 <= i < n ==> #[trigger] after.find(DeclKind::Function, funcs[i].name) == before.find(
                DeclKind::Function,
                funcs[i].name,
            ),
{
    assert forall|i: int| 0 <= i < n implies {
        let found = #[trigger] after.find(DeclKind::Function, funcs[i].name);
        &&& found is Some
        &&& found.unwrap() < after.table.len()
        &&& after.table[found.unwrap() as int].signature == signature_of(funcs[i])
        &&& found == before.find(DeclKind::Function, funcs[i].name)
    } by {
        let found = before.find(DeclKind::Function, funcs[i].name);
        assert(found is Some);
        lemma_find_stays(before, after, DeclKind::Function, funcs[i].name);
        assert(after.table[found.unwrap() as int].signature
            == before.table[found.unwrap() as int].signature);
    }
}

/// Functions that are declared alike are declared again without a change.
proof fn lemma_declare_all_known(session: TranslatorView, funcs: Seq<FunctionView>, n: int)
    requires
        0 <= n <= funcs.len(),
        declared_alike(session, funcs, n),
    ensures
        session.declare_all(funcs, n) == session.ok(),
    decreases n,
{
    if n > 0 {
        lemma_declare_all_known(session, funcs, n - 1);
        assert(session.find(DeclKind::Function, funcs[n - 1].name) is Some);
    }
}

/// Where the first functions of a program were all defined, no two of them
/// share a slot.
proof fn lemma_define_all_distinct(
    session: TranslatorView,
    funcs: Seq<FunctionView>,
    n: int,
    dump: bool,
)
    requires
        0 <= n <= funcs.len(),
        fits(session),
        declared_alike(session, funcs, funcs.len() as int),
        session.define_all(funcs, n, dump).error is None,
    ensures
        forall|i: int, j: int|
            0 <= i < j < n ==> #[trigger] session.find(DeclKind::Function, funcs[i].name)
                != #[trigger] session.find(DeclKind::Function, funcs[j].name),
        forall|i: int|
            0 <= i < n ==> session.define_all(funcs, n, dump).session.table[(
            #[trigger] session.find(DeclKind::Function, funcs[i].name)).unwrap() as int].state
                != BodyState::Declared,
    decreases n,
{
    if n > 0 {
        let before = session.define_all(funcs, n - 1, dump);
        let after = session.define_all(funcs, n, dump).session;
        lemma_define_all_distinct(session, funcs, n - 1, dump);
        lemma_define_all(session, funcs, n - 1, dump);
        let func = funcs[n - 1];
        let plan = lower_function_spec(func, before.session.table, before.session.pointer_bytes)->Ok_0;
        let slot = before.session.slot_of(DeclKind::Function, func.name);
        lemma_define(before.session, slot, plan, dump);
        assert(before.session.find(DeclKind::Function, func.name) == session.find(
            DeclKind::Function,
            func.name,
        ));
        assert(session.find(DeclKind::Function, funcs[n - 1].name) is Some);
        assert forall|i: int| 0 <= i < n implies after.table[(#[trigger] session.find(
            DeclKind::Function,
            funcs[i].name,
        )).unwrap() as int].state != BodyState::Declared by {
            assert(session.find(DeclKind::Function, funcs[i].name) is Some);
        }
    }
}

/// Where every function of a program is declared without a body, in a slot
/// of its own, and can be lowered, lowering and defining the functions goes
/// through, and changes no other slot.
proof fn lemma_define_all_goes(session: TranslatorView, funcs: Seq<FunctionView>, n: int, dump: bool)
    requires
        0 <= n <= funcs.len(),
        fits(session),
        declared_alike(session, funcs, funcs.len() as int),
        forall|i: int|
            0 <= i < n ==> session.table[(#[trigger] session.find(
                DeclKind::Function,
                funcs[i].name,
            )).unwrap() as int].state == BodyState::Declared,
        forall|i: int|
            0 <= i < n ==> (#[trigger] lower_function_spec(
                funcs[i],
                session.table,
                session.pointer_bytes,
            )) is Ok,
        forall|i: int, j: int|
            0 <= i < j < n ==> #[trigger] session.find(DeclKind::Function, funcs[i].name)
                != #[trigger] session.find(DeclKind::Function, funcs[j].name),
    ensures
        session.define_all(funcs, n, dump).error is None,
        forall|slot: int|
            0 <= slot < session.table.len() ==> {
                ||| #[trigger] session.define_all(funcs, n, dump).session.table[slot]
                    == session.table[slot]
                ||| session.table[slot].kind == DeclKind::Function && session.define_all(
                    funcs,
                    n,
                    dump,
                ).session.table[slot].state == BodyState::Defined
            },
        forall|i: int|
            0 <= i < n ==> session.define_all(funcs, n, dump).session.table[(
            #[trigger] session.find(DeclKind::Function, funcs[i].name)).unwrap() as int].state
                == BodyState::Defined,
    decreases n,
{
    if n > 0 {
        lemma_define_all_goes(session, funcs, n - 1, dump);
        lemma_define_all(session, funcs, n - 1, dump);
        let before = session.define_all(funcs, n - 1, dump).session;
        let func = funcs[n - 1];
        let found = session.find(DeclKind::Function, func.name);
        assert(found is Some);
        let slot = found.unwrap();
        assert(before.find(DeclKind::Function, func.name) == found);
        assert(scope_of(func, before.table, before.pointer_bytes) == scope_of(
            func,
            session.table,
            session.pointer_bytes,
        ));
        assert(lower_function_spec(func, session.table, session.pointer_bytes) is Ok);
        let plan = lower_function_spec(func, before.table, before.pointer_bytes)->Ok_0;
        lemma_first_index_from(decl_keys(session.table), (DeclKind::Function, func.name), 0);
        assert(before.table[slot as int] == session.table[slot as int]) by {
            if before.table[slot as int] != session.table[slot as int] {
                assert(before.table[slot as int].state == BodyState::Defined);
                assert(session.table[slot as int].state == BodyState::Declared);
                lemma_untouched(session, funcs, n - 1, dump, slot as int);
            }
        }
        lemma_define(before, slot, plan, dump);
        let after = session.define_all(funcs, n, dump).session;
        assert(after == before.define(slot, plan, dump).unwrap());
        assert forall|i: int| 0 <= i < n implies after.table[(#[trigger] session.find(
            DeclKind::Function,
            funcs[i].name,
        )).unwrap() as int].state == BodyState::Defined by {
            assert(session.find(DeclKind::Function, funcs[i].name) is Some);
        }
    }
}

/// Lowering and defining the first functions of a program changes only the
/// slots of those functions.
proof fn lemma_untouched(session: TranslatorView, funcs: Seq<FunctionView>, n: int, dump: bool, slot: int)
    requires
        0 <= n <= funcs.len(),
        0 <= slot < session.table.len(),
        fits(session),
        forall|i: int|
            0 <= i < n ==> #[trigger] session.find(DeclKind::Function, funcs[i].name) != Some(
                slot as usize,
            ),
    ensures
        session.define_all(funcs, n, dump).session.table[slot] == session.table[slot],
    decreases n,
{
    if n > 0 {
        lemma_untouched(session, funcs, n - 1, dump, slot);
        lemma_define_all(session, funcs, n - 1, dump);
        let before = session.define_all(funcs, n - 1, dump);
        if before.error is None {
            let func = funcs[n - 1];
            assert(session.find(DeclKind::Function, func.name) != Some(slot as usize));
            assert(before.session.find(DeclKind::Function, func.name) == session.find(
                DeclKind::Function,
                func.name,
            ));
            match lower_function_spec(func, before.session.table, before.session.pointer_bytes) {
                Ok(plan) => {
                    let target = before.session.slot_of(DeclKind::Function, func.name);
                    if before.session.define(target, plan, dump) is Some {
                        lemma_define(before.session, target, plan, dump);
                    }
                },
                Err(_) => {},
            }
        }
    }
}

/// Where no epoch is the last one and every function of a program is
/// declared, making the functions redefinable goes through. It declares
/// nothing, leaves every function of the program and the memory entry of each
/// without a body, and changes no other slot.
proof fn lemma_redefine_all_goes(session: TranslatorView, funcs: Seq<FunctionView>, n: int)
    requires
        0 <= n <= funcs.len(),
        fits(session),
        epochs_left(session) || session.redefine_all(funcs, n).error is None,
        declared_alike(session, funcs, funcs.len() as int),
    ensures
        session.redefine_all(funcs, n).error is None,
        session.redefine_all(funcs, n).session.table.len() == session.table.len(),
        decl_keys(session.redefine_all(funcs, n).session.table) == decl_keys(session.table),
        forall|slot: int|
            0 <= slot < session.table.len() ==> {
                ||| #[trigger] session.redefine_all(funcs, n).session.table[slot]
                    == session.table[slot]
                ||| session.redefine_all(funcs, n).session.table[slot].state
                    == BodyState::Declared && session.table[slot].kind != DeclKind::ProcessEntry
                    && touched(session, funcs, n, slot)
            },
        forall|i: int, kind: DeclKind|
            0 <= i < n && (kind == DeclKind::Function || kind == DeclKind::MemoryEntry) && (
            #[trigger] session.find(kind, funcs[i].name)) is Some ==> session.redefine_all(
                funcs,
                n,
            ).session.table[session.find(kind, funcs[i].name).unwrap() as int].state
                == BodyState::Declared,
    decreases n,
{
    if n > 0 {
        assert(session.redefine_all(funcs, n).error is None ==> session.redefine_all(
            funcs,
            n - 1,
        ).error is None);
        lemma_redefine_all_goes(session, funcs, n - 1);
        let before = session.redefine_all(funcs, n - 1).session;
        let func = funcs[n - 1];
        let index = (n - 1) as usize;
        assert(session.redefine_all(funcs, n) == before.redefine_function(func, index));
        assert(session.find(DeclKind::Function, func.name) is Some);
        assert(before.find(DeclKind::Function, func.name) == session.find(
            DeclKind::Function,
            func.name,
        ));
        assert(before.find(DeclKind::MemoryEntry, func.name) == session.find(
            DeclKind::MemoryEntry,
            func.name,
        ));
        lemma_first_index_from(decl_keys(session.table), (DeclKind::Function, func.name), 0);
        lemma_first_index_from(decl_keys(session.table), (DeclKind::MemoryEntry, func.name), 0);
        let f = session.find(DeclKind::Function, func.name).unwrap();
        assert(before.table[f as int].state != BodyState::Declared ==> before.table[f as int]
            == session.table[f as int]);
        assert(before.discard(f) is Some);
        lemma_discard(before, f);
        let first = before.discard(f).unwrap();
        assert(before.discard_named(DeclKind::Function, func.name, index) == first.ok());
        assert(first.find(DeclKind::MemoryEntry, func.name) == session.find(
            DeclKind::MemoryEntry,
            func.name,
        ));
        let after = session.redefine_all(funcs, n).session;
        match session.find(DeclKind::MemoryEntry, func.name) {
            Some(m) => {
                assert(m != f);
                assert(first.table[m as int] == before.table[m as int]);
                assert(before.table[m as int].state != BodyState::Declared ==> before.table[m as int]
                    == session.table[m as int]);
                assert(first.discard(m) is Some);
                lemma_discard(first, m);
                assert(after == first.discard(m).unwrap());
            },
            None => {
                assert(after == first);
            },
        }
        assert forall|slot: int| 0 <= slot < session.table.len() implies {
            ||| #[trigger] after.table[slot] == session.table[slot]
            ||| after.table[slot].state == BodyState::Declared && session.table[slot].kind
                != DeclKind::ProcessEntry && touched(session, funcs, n, slot)
        } by {
            if after.table[slot] != session.table[slot] {
                if before.table[slot] != session.table[slot] {
                    assert(touched(session, funcs, n - 1, slot));
                    let (i, kind) = choose|i: int, kind: DeclKind|
                        0 <= i < n - 1 && (kind == DeclKind::Function || kind
                            == DeclKind::MemoryEntry) && #[trigger] session.find(
                            kind,
                            funcs[i].name,
                        ) == Some(slot as usize);
                    assert(session.find(kind, funcs[i].name) == Some(slot as usize));
                    assert(after.table[slot].state == BodyState::Declared);
                } else {
                    if slot == f {
                        assert(session.find(DeclKind::Function, funcs[n - 1].name) == Some(
                            slot as usize,
                        ));
                    } else {
                        assert(session.find(DeclKind::MemoryEntry, funcs[n - 1].name) == Some(
                            slot as usize,
                        ));
                    }
                }
            }
        }
        assert forall|i: int, kind: DeclKind|
            0 <= i < n && (kind == DeclKind::Function || kind == DeclKind::MemoryEntry) && (
            #[trigger] session.find(kind, funcs[i].name)) is Some implies after.table[session.find(
            kind,
            funcs[i].name,
        ).unwrap() as int].state == BodyState::Declared by {
            lemma_first_index_from(decl_keys(session.table), (kind, funcs[i].name), 0);
        }
    }
}

/// Whether no two of the first `n` functions share a slot.
pub open spec fn slots_distinct(session: TranslatorView, funcs: Seq<FunctionView>, n: int) -> bool {
    forall|i: int, j: int|
        0 <= i < j < n ==> #[trigger] session.find(DeclKind::Function, funcs[i].name)
            != #[trigger] session.find(DeclKind::Function, funcs[j].name)
}

/// Whether two states of a session hold the same declarations: as many, with
/// the same names, kinds and signatures, for the same target.
pub open spec fn same_decls(a: TranslatorView, b: TranslatorView) -> bool {
    &&& a.pointer_bytes == b.pointer_bytes
    &&& a.table.len() == b.table.len()
    &&& decl_keys(a.table) == decl_keys(b.table)
    &&& decl_signatures(a.table) == decl_signatures(b.table)
}

/// Whether every function of the program has the given state in its slot.
pub open spec fn program_slots_are(
    session: TranslatorView,
    funcs: Seq<FunctionView>,
    state: BodyState,
) -> bool {
    forall|i: int|
        0 <= i < funcs.len() ==> session.table[(#[trigger] session.find(
            DeclKind::Function,
            funcs[i].name,
        )).unwrap() as int].state == state
}

/// Whether every function that a session declares is ready or about to be:
/// it has a body, finalized or not.
pub open spec fn functions_have_bodies(session: TranslatorView) -> bool {
    forall|slot: int|
        0 <= slot < session.table.len() && (#[trigger] session.table[slot]).kind
            == DeclKind::Function ==> session.table[slot].state != BodyState::Declared
}

/// The same declarations give the same scopes, the same slots and the same
/// plans.
proof fn lemma_same_decls(a: TranslatorView, b: TranslatorView, funcs: Seq<FunctionView>)
    requires
        same_decls(a, b),
    ensures
        forall|kind: DeclKind, name: Seq<char>| #[trigger] a.find(kind, name) == b.find(kind, name),
        forall|i: int|
            0 <= i < funcs.len() ==> #[trigger] lower_function_spec(
                funcs[i],
                a.table,
                a.pointer_bytes,
            ) == lower_function_spec(funcs[i], b.table, b.pointer_bytes),
        forall|i: int| 0 <= i < a.table.len() ==> (#[trigger] a.table[i]).signature == b.table[i].signature,
        declared_alike(a, funcs, funcs.len() as int) ==> declared_alike(b, funcs, funcs.len() as int),
        slots_distinct(a, funcs, funcs.len() as int) ==> slots_distinct(b, funcs, funcs.len() as int),
{
    assert forall|i: int| 0 <= i < funcs.len() implies #[trigger] lower_function_spec(
        funcs[i],
        a.table,
        a.pointer_bytes,
    ) == lower_function_spec(funcs[i], b.table, b.pointer_bytes) by {
        assert(scope_of(funcs[i], a.table, a.pointer_bytes) == scope_of(
            funcs[i],
            b.table,
            b.pointer_bytes,
        ));
    }
    assert forall|i: int| 0 <= i < a.table.len() implies (#[trigger] a.table[i]).signature
        == b.table[i].signature by {
        assert(decl_signatures(a.table)[i] == decl_signatures(b.table)[i]);
    }
    if declared_alike(a, funcs, funcs.len() as int) {
        assert forall|i: int| 0 <= i < funcs.len() implies {
            let found = #[trigger] b.find(DeclKind::Function, funcs[i].name);
            &&& found is Some
            &&& found.unwrap() < b.table.len()
            &&& b.table[found.unwrap() as int].signature == signature_of(funcs[i])
        } by {
            assert(a.find(DeclKind::Function, funcs[i].name) is Some);
        }
    }
    if slots_distinct(a, funcs, funcs.len() as int) {
        assert forall|i: int, j: int| 0 <= i < j < funcs.len() implies #[trigger] b.find(
            DeclKind::Function,
            funcs[i].name,
        ) != #[trigger] b.find(DeclKind::Function, funcs[j].name) by {
            assert(a.find(DeclKind::Function, funcs[i].name) != a.find(
                DeclKind::Function,
                funcs[j].name,
            ));
        }
    }
}

/// A later state of a session with as many declarations holds the same
/// declarations.
proof fn lemma_extends_same_decls(a: TranslatorView, b: TranslatorView)
    requires
        extends(a, b),
        a.table.len() == b.table.len(),
    ensures
        same_decls(a, b),
{
    assert(decl_keys(a.table) =~= decl_keys(b.table)) by {
        assert forall|i: int| 0 <= i < a.table.len() implies decl_keys(a.table)[i] == decl_keys(
            b.table,
        )[i] by {
            assert(b.table[i].name == a.table[i].name);
        }
    }
    assert(decl_signatures(a.table) =~= decl_signatures(b.table)) by {
        assert forall|i: int| 0 <= i < a.table.len() implies decl_signatures(a.table)[i]
            == decl_signatures(b.table)[i] by {
            assert(b.table[i].signature == a.table[i].signature);
        }
    }
}

/// Where every function of a program is declared, making the functions
/// redefinable fails only because a function has used up its epochs.
proof fn lemma_redefine_all_exhausts(session: TranslatorView, funcs: Seq<FunctionView>, n: int)
    requires
        0 <= n <= funcs.len(),
        fits(session),
        declared_alike(session, funcs, funcs.len() as int),
    ensures
        session.redefine_all(funcs, n).error matches Some(e) ==> e is EpochsExhausted,
    decreases n,
{
    if n > 0 {
        lemma_redefine_all_exhausts(session, funcs, n - 1);
        let before = session.redefine_all(funcs, n - 1);
        if before.error is None {
            lemma_redefine_all_goes(session, funcs, n - 1);
            let func = funcs[n - 1];
            assert(session.find(DeclKind::Function, func.name) is Some);
            assert(before.session.find(DeclKind::Function, func.name) == session.find(
                DeclKind::Function,
                func.name,
            ));
        }
    }
}

/// The first stage of a swap: making the functions redefinable goes through
/// and declares nothing. Every function of the program is left without a
/// body; a function that still has none afterwards is one of the program.
proof fn lemma_swap_prepares(session: TranslatorView, funcs: Seq<FunctionView>)
    requires
        fits(session),
        epochs_left(session) || session.redefine_all(funcs, funcs.len() as int).error is None,
        declared_alike(session, funcs, funcs.len() as int),
        functions_have_bodies(session),
    ensures
        session.redefine_all(funcs, funcs.len() as int).error is None,
        same_decls(session, session.redefine_all(funcs, funcs.len() as int).session),
        program_slots_are(
            session.redefine_all(funcs, funcs.len() as int).session,
            funcs,
            BodyState::Declared,
        ),
        forall|i: int|
            0 <= i < funcs.len() && (#[trigger] session.find(DeclKind::MemoryEntry, funcs[i].name))
                is Some ==> session.redefine_all(funcs, funcs.len() as int).session.table[session.find(
                DeclKind::MemoryEntry,
                funcs[i].name,
            ).unwrap() as int].state == BodyState::Declared,
        forall|slot: int|
            0 <= slot < session.table.len() && (#[trigger] session.redefine_all(
                funcs,
                funcs.len() as int,
            ).session.table[slot]).kind == DeclKind::Function ==> {
                ||| session.redefine_all(funcs, funcs.len() as int).session.table[slot].state
                    != BodyState::Declared
                ||| exists|i: int|
                    0 <= i < funcs.len() && #[trigger] session.find(
                        DeclKind::Function,
                        funcs[i].name,
                    ) == Some(slot as usize)
            },
{
    let n = funcs.len() as int;
    lemma_redefine_all_goes(session, funcs, n);
    lemma_redefine_all(session, funcs, n);
    let prepared = session.redefine_all(funcs, n).session;
    lemma_extends_same_decls(session, prepared);
    lemma_same_decls(session, prepared, funcs);
    assert forall|i: int| 0 <= i < n implies prepared.table[(#[trigger] prepared.find(
        DeclKind::Function,
        funcs[i].name,
    )).unwrap() as int].state == BodyState::Declared by {
        assert(session.find(DeclKind::Function, funcs[i].name) is Some);
    }
    assert forall|slot: int|
        0 <= slot < session.table.len() && (#[trigger] prepared.table[slot]).kind
            == DeclKind::Function implies {
        ||| prepared.table[slot].state != BodyState::Declared
        ||| exists|i: int|
            0 <= i < n && #[trigger] session.find(DeclKind::Function, funcs[i].name) == Some(
                slot as usize,
            )
    } by {
        assert(session.table[slot].kind == DeclKind::Function);
        if prepared.table[slot] != session.table[slot] {
            assert(touched(session, funcs, n, slot));
            let (i, kind) = choose|i: int, kind: DeclKind|
                0 <= i < n && (kind == DeclKind::Function || kind == DeclKind::MemoryEntry)
                    && #[trigger] session.find(kind, funcs[i].name) == Some(slot as usize);
            lemma_first_index_from(decl_keys(session.table), (kind, funcs[i].name), 0);
            assert(kind == DeclKind::Function);
            assert(session.find(DeclKind::Function, funcs[i].name) == Some(slot as usize));
        }
    }
}

/// The second stage of a swap: compiling the program goes through and
/// declares nothing. Afterwards every declared function has a body again, and
/// nothing but functions has changed.
proof fn lemma_swap_compiles(prepared: TranslatorView, program: ProgramView, dump: bool)
    requires
        fits(prepared),
        declared_alike(prepared, program.functions, program.functions.len() as int),
        slots_distinct(prepared, program.functions, program.functions.len() as int),
        program_slots_are(prepared, program.functions, BodyState::Declared),
        forall|i: int|
            0 <= i < program.functions.len() ==> (#[trigger] lower_function_spec(
                program.functions[i],
                prepared.table,
                prepared.pointer_bytes,
            )) is Ok,
        forall|slot: int|
            0 <= slot < prepared.table.len() && (#[trigger] prepared.table[slot]).kind
                == DeclKind::Function ==> {
                ||| prepared.table[slot].state != BodyState::Declared
                ||| exists|i: int|
                    0 <= i < program.functions.len() && #[trigger] prepared.find(
                        DeclKind::Function,
                        program.functions[i].name,
                    ) == Some(slot as usize)
            },
    ensures
        prepared.compile_prog(program, dump).error is None,
        same_decls(prepared, prepared.compile_prog(program, dump).session),
        functions_have_bodies(prepared.compile_prog(program, dump).session),
        forall|slot: int|
            0 <= slot < prepared.table.len() && prepared.table[slot].kind != DeclKind::Function
                ==> #[trigger] prepared.compile_prog(program, dump).session.table[slot]
                == prepared.table[slot],
{
    let funcs = program.functions;
    let n = funcs.len() as int;
    lemma_declare_all_known(prepared, funcs, n);
    lemma_define_all_goes(prepared, funcs, n, dump);
    lemma_define_all(prepared, funcs, n, dump);
    let compiled = prepared.compile_prog(program, dump).session;
    assert(compiled == prepared.define_all(funcs, n, dump).session);
    assert forall|slot: int|
        0 <= slot < compiled.table.len() && (#[trigger] compiled.table[slot]).kind
            == DeclKind::Function implies compiled.table[slot].state != BodyState::Declared by {
        assert(prepared.table[slot].kind == compiled.table[slot].kind);
        if compiled.table[slot] == prepared.table[slot] && prepared.table[slot].state
            == BodyState::Declared {
            let i = choose|i: int|
                0 <= i < n && #[trigger] prepared.find(DeclKind::Function, funcs[i].name) == Some(
                    slot as usize,
                );
            assert(compiled.table[prepared.find(DeclKind::Function, funcs[i].name).unwrap() as int].state
                == BodyState::Defined);
        }
    }
}

/// The third stage of a swap: the memory entry of `main`, which has lost its
/// body, gets it again.
proof fn lemma_swap_enters(ready: TranslatorView, dump: bool)
    requires
        fits(ready),
        ready.find(DeclKind::Function, "main"@) is Some,
        ready.find(DeclKind::MemoryEntry, "main"@) is Some,
        crate::wrapper::entry_check(
            ready.table[ready.find(DeclKind::Function, "main"@).unwrap() as int].signature.params,
        ) is None,
        ready.table[ready.find(DeclKind::MemoryEntry, "main"@).unwrap() as int].signature
            == entry_signature(DeclKind::MemoryEntry),
        ready.table[ready.find(DeclKind::MemoryEntry, "main"@).unwrap() as int].state
            == BodyState::Declared,
    ensures
        ready.add_entry(DeclKind::MemoryEntry, "main"@, dump).error is None,
        same_decls(ready, ready.add_entry(DeclKind::MemoryEntry, "main"@, dump).session),
        ready.add_entry(DeclKind::MemoryEntry, "main"@, dump).session.table[ready.find(
            DeclKind::MemoryEntry,
            "main"@,
        ).unwrap() as int].state == BodyState::Defined,
        forall|slot: int|
            0 <= slot < ready.table.len() && ready.table[slot].kind == DeclKind::Function
                ==> #[trigger] ready.add_entry(DeclKind::MemoryEntry, "main"@, dump).session.table[slot]
                == ready.table[slot],
{
    let entered = ready.add_entry(DeclKind::MemoryEntry, "main"@, dump);
    lemma_first_index_from(decl_keys(ready.table), (DeclKind::MemoryEntry, "main"@), 0);
    lemma_first_index_from(decl_keys(ready.table), (DeclKind::Function, "main"@), 0);
    let entry = ready.find(DeclKind::MemoryEntry, "main"@).unwrap();
    let wrapped = ready.find(DeclKind::Function, "main"@).unwrap();
    assert(ready.declare(DeclKind::MemoryEntry, "main"@, entry_signature(DeclKind::MemoryEntry))
        == Some(ready));
    assert(ready.slot_of(DeclKind::MemoryEntry, "main"@) == entry);
    let plan = crate::translator::entry_plan(
        DeclKind::MemoryEntry,
        ready.table[wrapped as int].signature.params,
        wrapped,
    );
    assert(ready.define(entry, plan, dump) is Some);
    assert(entered == ready.define(entry, plan, dump).unwrap().ok());
    lemma_define(ready, entry, plan, dump);
    lemma_extends_same_decls(ready, entered.session);
    assert(ready.table[entry as int].kind == DeclKind::MemoryEntry);
}

/// Finalization makes every function with a body ready, and keeps the
/// declarations.
proof fn lemma_swap_finalizes(session: TranslatorView)
    requires
        functions_have_bodies(session),
    ensures
        session.finalize().all_ready(),
        same_decls(session, session.finalize()),
        forall|slot: int|
            0 <= slot < session.table.len() ==> (#[trigger] session.finalize().table[slot]).state
                == if session.table[slot].state == BodyState::Declared {
                BodyState::Declared
            } else {
                BodyState::Ready
            },
{
    lemma_finalize(session);
    lemma_extends_same_decls(session, session.finalize());
    assert forall|slot: int|
        0 <= slot < session.finalize().table.len() && (#[trigger] session.finalize().table[slot]).kind
            == DeclKind::Function implies session.finalize().table[slot].state
        == BodyState::Ready by {
        assert(session.table[slot].kind == DeclKind::Function);
    }
}

/// The last stage of a swap: the invocation by name goes through.
proof fn lemma_swap_runs(linked: TranslatorView, literals: Seq<crate::native::Literal>)
    requires
        fits(linked),
        linked.all_ready(),
        linked.find(DeclKind::Function, "main"@) is Some,
        linked.find(DeclKind::MemoryEntry, "main"@) is Some,
        linked.table[linked.find(DeclKind::MemoryEntry, "main"@).unwrap() as int].state
            == BodyState::Ready,
        linked.table[linked.find(DeclKind::Function, "main"@).unwrap() as int].signature.params.len()
            == literals.len(),
        crate::model::first_index(
            crate::translator::type_matches(
                linked.table[linked.find(
                    DeclKind::Function,
                    "main"@,
                ).unwrap() as int].signature.params,
                literals,
            ),
            false,
        ) is None,
    ensures
        linked.run_func_by_name("main"@, literals).error is None,
{
    lemma_first_index_from(decl_keys(linked.table), (DeclKind::MemoryEntry, "main"@), 0);
    let entry = linked.find(DeclKind::MemoryEntry, "main"@).unwrap();
    assert(linked.table[entry as int].kind == DeclKind::MemoryEntry);
    assert(linked.table[entry as int].name == "main"@);
}

/// What a swap needs of the session it starts in.
pub open spec fn can_swap(session: TranslatorView, program: ProgramView, args: Seq<MainArgView>) -> bool {
    let funcs = program.functions;
    &&& declared_alike(session, funcs, funcs.len() as int)
    &&& slots_distinct(session, funcs, funcs.len() as int)
    &&& functions_have_bodies(session)
    &&& forall|i: int|
        0 <= i < funcs.len() ==> (#[trigger] lower_function_spec(
            funcs[i],
            session.table,
            session.pointer_bytes,
        )) is Ok
    &&& main_index(program) is Some ==> {
        let entry = session.find(DeclKind::MemoryEntry, "main"@);
        let wrapped = session.find(DeclKind::Function, "main"@);
        let literals = main_args_of(funcs[main_index(program).unwrap()].params, args);
        &&& entry is Some
        &&& wrapped is Some
        &&& literals is Ok
        &&& session.table[entry.unwrap() as int].signature == entry_signature(DeclKind::MemoryEntry)
        &&& crate::wrapper::entry_check(session.table[wrapped.unwrap() as int].signature.params)
            is None
        &&& session.table[wrapped.unwrap() as int].signature.params.len() == literals->Ok_0.len()
        &&& crate::model::first_index(
            crate::translator::type_matches(
                session.table[wrapped.unwrap() as int].signature.params,
                literals->Ok_0,
            ),
            false,
        ) is None
    }
}

/// The first half of a swap: the functions of the program lose their bodies
/// and get them again. Nothing is declared; afterwards every function is
/// ready, and the memory entry of each function of the program has no body.
proof fn lemma_swap_rebuilds(session: TranslatorView, program: ProgramView, dump: bool)
    requires
        fits(session),
        epochs_left(session) || session.redefine_all(
            program.functions,
            program.functions.len() as int,
        ).error is None,
        declared_alike(session, program.functions, program.functions.len() as int),
        slots_distinct(session, program.functions, program.functions.len() as int),
        functions_have_bodies(session),
        forall|i: int|
            0 <= i < program.functions.len() ==> (#[trigger] lower_function_spec(
                program.functions[i],
                session.table,
                session.pointer_bytes,
            )) is Ok,
    ensures
        ({
            let funcs = program.functions;
            let prepared = session.redefine_all(funcs, funcs.len() as int);
            let compiled = prepared.session.compile_prog(program, dump);
            let ready = compiled.session.finalize();
            &&& prepared.error is None
            &&& compiled.error is None
            &&& same_decls(session, ready)
            &&& ready.all_ready()
            &&& forall|i: int|
                0 <= i < funcs.len() && (#[trigger] session.find(
                    DeclKind::MemoryEntry,
                    funcs[i].name,
                )) is Some ==> ready.table[session.find(
                    DeclKind::MemoryEntry,
                    funcs[i].name,
                ).unwrap() as int].state == BodyState::Declared
        }),
{
    let funcs = program.functions;
    let n = funcs.len() as int;
    lemma_swap_prepares(session, funcs);
    let prepared = session.redefine_all(funcs, n).session;
    lemma_same_decls(session, prepared, funcs);
    assert forall|slot: int|
        0 <= slot < prepared.table.len() && (#[trigger] prepared.table[slot]).kind
            == DeclKind::Function implies {
        ||| prepared.table[slot].state != BodyState::Declared
        ||| exists|i: int|
            0 <= i < n && #[trigger] prepared.find(DeclKind::Function, funcs[i].name) == Some(
                slot as usize,
            )
    } by {
        if prepared.table[slot].state == BodyState::Declared {
            let i = choose|i: int|
                0 <= i < n && #[trigger] session.find(DeclKind::Function, funcs[i].name) == Some(
                    slot as usize,
                );
            assert(prepared.find(DeclKind::Function, funcs[i].name) == Some(slot as usize));
        }
    }
    assert forall|i: int| 0 <= i < n implies (#[trigger] lower_function_spec(
        funcs[i],
        prepared.table,
        prepared.pointer_bytes,
    )) is Ok by {
        assert(lower_function_spec(funcs[i], session.table, session.pointer_bytes) is Ok);
        assert(scope_of(funcs[i], prepared.table, prepared.pointer_bytes) == scope_of(
            funcs[i],
            session.table,
            session.pointer_bytes,
        ));
    }
    lemma_swap_compiles(prepared, program, dump);
    let compiled = prepared.compile_prog(program, dump).session;
    lemma_swap_finalizes(compiled);
    let ready = compiled.finalize();
    assert forall|i: int|
        0 <= i < n && (#[trigger] session.find(DeclKind::MemoryEntry, funcs[i].name))
            is Some implies ready.table[session.find(
        DeclKind::MemoryEntry,
        funcs[i].name,
    ).unwrap() as int].state == BodyState::Declared by {
        let entry = session.find(DeclKind::MemoryEntry, funcs[i].name).unwrap();
        lemma_first_index_from(decl_keys(session.table), (DeclKind::MemoryEntry, funcs[i].name), 0);
        assert(decl_keys(prepared.table)[entry as int] == decl_keys(session.table)[entry as int]);
        assert(prepared.table[entry as int].kind == DeclKind::MemoryEntry);
        assert(compiled.table[entry as int] == prepared.table[entry as int]);
    }
}

/// The second half of a swap: the memory entry of `main` gets its body
/// again, and the invocation by name goes through.
proof fn lemma_swap_invokes(ready: TranslatorView, literals: Seq<crate::native::Literal>, dump: bool)
    requires
        fits(ready),
        ready.all_ready(),
        ready.find(DeclKind::Function, "main"@) is Some,
        ready.find(DeclKind::MemoryEntry, "main"@) is Some,
        crate::wrapper::entry_check(
            ready.table[ready.find(DeclKind::Function, "main"@).unwrap() as int].signature.params,
        ) is None,
        ready.table[ready.find(DeclKind::MemoryEntry, "main"@).unwrap() as int].signature
            == entry_signature(DeclKind::MemoryEntry),
        ready.table[ready.find(DeclKind::MemoryEntry, "main"@).unwrap() as int].state
            == BodyState::Declared,
        ready.table[ready.find(DeclKind::Function, "main"@).unwrap() as int].signature.params.len()
            == literals.len(),
        crate::model::first_index(
            crate::translator::type_matches(
                ready.table[ready.find(DeclKind::Function, "main"@).unwrap() as int].signature.params,
                literals,
            ),
            false,
        ) is None,
    ensures
        ({
            let entered = ready.add_entry(DeclKind::MemoryEntry, "main"@, dump);
            let linked = entered.session.finalize();
            &&& entered.error is None
            &&& linked.run_func_by_name("main"@, literals).error is None
            &&& same_decls(ready, linked.run_func_by_name("main"@, literals).session)
        }),
{
    lemma_swap_enters(ready, dump);
    let entered = ready.add_entry(DeclKind::MemoryEntry, "main"@, dump).session;
    lemma_finalize(entered);
    let linked = entered.finalize();
    lemma_extends_same_decls(entered, linked);
    let none = Seq::<FunctionView>::empty();
    lemma_same_decls(ready, entered, none);
    lemma_same_decls(entered, linked, none);
    let entry = ready.find(DeclKind::MemoryEntry, "main"@).unwrap();
    let wrapped = ready.find(DeclKind::Function, "main"@).unwrap();
    lemma_first_index_from(decl_keys(ready.table), (DeclKind::Function, "main"@), 0);
    assert(linked.all_ready()) by {
        assert forall|slot: int|
            0 <= slot < linked.table.len() && (#[trigger] linked.table[slot]).kind
                == DeclKind::Function implies linked.table[slot].state == BodyState::Ready by {
            assert(decl_keys(linked.table)[slot] == decl_keys(ready.table)[slot]);
            assert(ready.table[slot].kind == DeclKind::Function);
            assert(entered.table[slot] == ready.table[slot]);
        }
    }
    assert(linked.table[wrapped as int].signature == ready.table[wrapped as int].signature);
    lemma_swap_runs(linked, literals);
    lemma_run(linked, linked.resolve(DeclKind::MemoryEntry, "main"@).unwrap(), literals);
}

/// A swap goes through in a session that holds every function of the
/// program with a body, declared alike, where the program can be lowered and
/// the words are the arguments of `main`. The one thing that can stop it is
/// a function that has used up its epochs.
pub proof fn lemma_swap_from(
    session: TranslatorView,
    program: ProgramView,
    args: Seq<MainArgView>,
    dump_ir: bool,
)
    requires
        fits(session),
        can_swap(session, program, args),
    ensures
        match jit_run_spec(session, program, args, dump_ir, true).error {
            None => same_decls(session, jit_run_spec(session, program, args, dump_ir, true).session),
            Some(e) => e is EpochsExhausted && !epochs_left(session),
        },
{
    let funcs = program.functions;
    let n = funcs.len() as int;
    lemma_redefine_all_exhausts(session, funcs, n);
    if session.redefine_all(funcs, n).error is Some {
        if epochs_left(session) {
            lemma_redefine_all_goes(session, funcs, n);
        }
    } else {
        lemma_swap_rebuilds(session, program, dump_ir);
        let ready = session.redefine_all(funcs, n).session.compile_prog(program, dump_ir).session.finalize();
        let none = Seq::<FunctionView>::empty();
        lemma_same_decls(session, ready, none);
        match main_index(program) {
            None => {},
            Some(m) => {
                lemma_first_index_from(function_names(program), "main"@, 0);
                assert(funcs[m].name == "main"@);
                assert(session.find(DeclKind::MemoryEntry, funcs[m].name) is Some);
                let literals = main_args_of(funcs[m].params, args)->Ok_0;
                let wrapped = session.find(DeclKind::Function, "main"@).unwrap();
                let entry = session.find(DeclKind::MemoryEntry, "main"@).unwrap();
                lemma_first_index_from(decl_keys(session.table), (DeclKind::Function, "main"@), 0);
                lemma_first_index_from(decl_keys(session.table), (DeclKind::MemoryEntry, "main"@), 0);
                assert(ready.table[wrapped as int].signature == session.table[wrapped as int].signature);
                assert(ready.table[entry as int].signature == session.table[entry as int].signature);
                lemma_swap_invokes(ready, literals, dump_ir);
                let last = ready.add_entry(
                    DeclKind::MemoryEntry,
                    "main"@,
                    dump_ir,
                ).session.finalize().run_func_by_name("main"@, literals).session;
                assert(same_decls(session, last));
            },
        }
    }
}

/// After a successful run, the session is one that a swap can start in.
#[verifier::rlimit(80)]
#[verifier::spinoff_prover]
proof fn lemma_first_run_facts(
    session: TranslatorView,
    program: ProgramView,
    args: Seq<MainArgView>,
    dump_ir: bool,
    swap: bool,
)
    requires
        program_fits(program),
        jit_run_spec(session, program, args, dump_ir, swap).error is None,
        fits(jit_run_spec(session, program, args, dump_ir, swap).session),
    ensures
        ({
            let done = jit_run_spec(session, program, args, dump_ir, swap).session;
            let funcs = program.functions;
            &&& declared_alike(done, funcs, funcs.len() as int)
            &&& slots_distinct(done, funcs, funcs.len() as int)
            &&& main_index(program) is Some ==> {
                let entry = done.find(DeclKind::MemoryEntry, "main"@);
                let wrapped = done.find(DeclKind::Function, "main"@);
                let literals = main_args_of(funcs[main_index(program).unwrap()].params, args);
                &&& entry is Some
                &&& wrapped is Some
                &&& literals is Ok
                &&& done.all_ready()
                &&& done.table[entry.unwrap() as int].signature == entry_signature(
                    DeclKind::MemoryEntry,
                )
                &&& crate::wrapper::entry_check(done.table[wrapped.unwrap() as int].signature.params)
                    is None
                &&& done.table[wrapped.unwrap() as int].signature.params.len()
                    == literals->Ok_0.len()
                &&& crate::model::first_index(
                    crate::translator::type_matches(
                        done.table[wrapped.unwrap() as int].signature.params,
                        literals->Ok_0,
                    ),
                    false,
                ) is None
            }
        }),
{
    let funcs = program.functions;
    let n = funcs.len() as int;
    let done = jit_run_spec(session, program, args, dump_ir, swap).session;
    let prepared = if swap {
        session.redefine_all(funcs, n)
    } else {
        session.ok()
    };
    lemma_extends_reflexive(session);
    lemma_jit_run(session, program, args, dump_ir, swap);
    let declared = prepared.session.declare_all(funcs, n);
    let compiled = prepared.session.compile_prog(program, dump_ir);
    lemma_compile_prog(prepared.session, program, dump_ir);
    lemma_define_all(declared.session, funcs, n, dump_ir);
    let ready = compiled.session.finalize();
    lemma_finalize(compiled.session);
    lemma_extends_transitive(declared.session, compiled.session, ready);
    match main_index(program) {
        None => {
            assert(done == ready);
            lemma_declare_all_alike(prepared.session, funcs, n);
            lemma_define_all_distinct(declared.session, funcs, n, dump_ir);
            lemma_alike_stays(declared.session, done, funcs, n);
        },
        Some(m) => {
            let entered = ready.add_entry(DeclKind::MemoryEntry, "main"@, dump_ir);
            lemma_add_entry(ready, DeclKind::MemoryEntry, "main"@, dump_ir);
            let linked = entered.session.finalize();
            lemma_finalize(entered.session);
            let literals = main_args_of(funcs[m].params, args)->Ok_0;
            let handle = linked.resolve(DeclKind::MemoryEntry, "main"@).unwrap();
            lemma_run(linked, handle, literals);
            assert(done.table == linked.table);
            assert(fits(linked) && fits(entered.session) && fits(ready) && fits(declared.session));
            lemma_extends_transitive(declared.session, ready, entered.session);
            lemma_extends_transitive(declared.session, entered.session, linked);
            lemma_declare_all_alike(prepared.session, funcs, n);
            lemma_define_all_distinct(declared.session, funcs, n, dump_ir);
            lemma_alike_stays(declared.session, linked, funcs, n);
            assert(decl_keys(done.table) == decl_keys(linked.table));
            assert(done.find(DeclKind::MemoryEntry, "main"@) == linked.find(
                DeclKind::MemoryEntry,
                "main"@,
            ));
            assert(done.find(DeclKind::Function, "main"@) == linked.find(
                DeclKind::Function,
                "main"@,
            ));
            assert forall|i: int| 0 <= i < n implies {
                let found = #[trigger] done.find(DeclKind::Function, funcs[i].name);
                &&& found is Some
                &&& found.unwrap() < done.table.len()
                &&& done.table[found.unwrap() as int].signature == signature_of(funcs[i])
            } by {
                assert(linked.find(DeclKind::Function, funcs[i].name) is Some);
            }
            assert forall|i: int, j: int| 0 <= i < j < n implies #[trigger] done.find(
                DeclKind::Function,
                funcs[i].name,
            ) != #[trigger] done.find(DeclKind::Function, funcs[j].name) by {
                assert(linked.find(DeclKind::Function, funcs[i].name) == declared.session.find(
                    DeclKind::Function,
                    funcs[i].name,
                ));
                assert(linked.find(DeclKind::Function, funcs[j].name) == declared.session.find(
                    DeclKind::Function,
                    funcs[j].name,
                ));
            }
            let entry = ready.slot_of(DeclKind::MemoryEntry, "main"@);
            lemma_find_stays(entered.session, linked, DeclKind::MemoryEntry, "main"@);
            lemma_find_stays(ready, linked, DeclKind::Function, "main"@);
            let wrapped = ready.find(DeclKind::Function, "main"@).unwrap();
            lemma_first_index_from(decl_keys(ready.table), (DeclKind::Function, "main"@), 0);
            lemma_extends_transitive(ready, entered.session, linked);
            assert(linked.table[wrapped as int].signature == ready.table[wrapped as int].signature);
            assert(linked.table[entry as int].signature == entered.session.table[entry as int].signature);
        },
    }
}

/// A program that has run in a session can be swapped in again. After a
/// successful run of a program with a `main`, a run with `swap` of the same
/// program with the same words goes through: nothing has to be declared,
/// every function is lowered and defined again, the memory entry of `main`
/// is built again, and the invocation is recorded. The one thing that can
/// stop it is a function that has used up its epochs, after as many
/// redefinitions as a 64-bit counter can count.
pub proof fn lemma_swap_goes_through(
    session: TranslatorView,
    program: ProgramView,
    args: Seq<MainArgView>,
    dump_ir: bool,
    swap: bool,
)
    requires
        program_fits(program),
        main_index(program) is Some,
        jit_run_spec(session, program, args, dump_ir, swap).error is None,
        fits(jit_run_spec(session, program, args, dump_ir, swap).session),
    ensures
        match jit_run_spec(
            jit_run_spec(session, program, args, dump_ir, swap).session,
            program,
            args,
            dump_ir,
            true,
        ).error {
            None => same_decls(
                jit_run_spec(session, program, args, dump_ir, swap).session,
                jit_run_spec(
                    jit_run_spec(session, program, args, dump_ir, swap).session,
                    program,
                    args,
                    dump_ir,
                    true,
                ).session,
            ),
            Some(e) => e is EpochsExhausted && !epochs_left(
                jit_run_spec(session, program, args, dump_ir, swap).session,
            ),
        },
{
    let first = jit_run_spec(session, program, args, dump_ir, swap).session;
    let funcs = program.functions;
    lemma_first_run_facts(session, program, args, dump_ir, swap);
    lemma_run_defines_program(session, program, args, dump_ir, swap);
    assert forall|i: int| 0 <= i < funcs.len() implies (#[trigger] lower_function_spec(
        funcs[i],
        first.table,
        first.pointer_bytes,
    )) is Ok by {
        assert(first.find(DeclKind::Function, funcs[i].name) is Some);
    }
    assert(functions_have_bodies(first)) by {
        assert forall|slot: int|
            0 <= slot < first.table.len() && (#[trigger] first.table[slot]).kind
                == DeclKind::Function implies first.table[slot].state != BodyState::Declared by {}
    }
    lemma_swap_from(first, program, args, dump_ir);
}

} // verus!
