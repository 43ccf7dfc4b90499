//! Replaying the log of a session against a backend that cannot replace the
//! body of a function.
//!
//! Such a backend is brought up to date at each finalization: it declares
//! every slot of the table that its module does not know yet, and defines
//! every body of the table that its module does not hold yet. After a body
//! was discarded it first starts over with an empty module, so that every
//! caller reaches the new bodies. A log is replayed as a whole, against the
//! table of the session as it is then: a body is rendered if any definition
//! of its slot in the log asks for it.

use crate::lower::{decl_views, DeclView, FuncDecl};
use crate::translator::BackendAction;
use vstd::prelude::*;

verus! {

/// One call of the backend.
#[derive(Clone, Copy, Debug, PartialEq, Eq, Structural)]
pub enum Step {
    /// Drop everything that was generated and start with an empty module.
    Reset,
    /// Declare the function at `slot` with its signature.
    Declare { slot: usize },
    /// Define the function at `slot` with the body that the table holds,
    /// after rendering it where `dump` is set.
    Define { slot: usize, dump: bool },
    /// Resolve the addresses of everything defined so far.
    Finalize,
    /// Write every defined function into a relocatable object.
    Write,
    /// Call the entry shim at `slot` with the session's argument block.
    Invoke { slot: usize },
}

/// A definition that waits for the next finalization.
#[derive(Clone, Copy, Debug, PartialEq, Eq, Structural)]
pub struct Pending {
    pub slot: usize,
    pub dump: bool,
}

/// What a backend's module holds, and whether it is out of date.
#[derive(Debug)]
pub struct Replayer {
    /// Whether a body was discarded since the last finalization.
    pub stale: bool,
    /// How many slots the module has declared: the slots before this one.
    pub declared: usize,
    /// For each slot, whether the module holds a body for it.
    pub defined: Vec<bool>,
}

/// `Replayer` as a mathematical value.
pub struct ReplayerView {
    pub stale: bool,
    pub declared: usize,
    pub defined: Seq<bool>,
}

impl View for Replayer {
    type V = ReplayerView;

    open spec fn view(&self) -> ReplayerView {
        ReplayerView {
            stale: self.stale,
            declared: self.declared,
            defined: self.defined@,
        }
    }
}

/// The definitions among the first `n` actions of a log, oldest first.
pub open spec fn waiting_of(actions: Seq<BackendAction>, n: int) -> Seq<Pending>
    decreases n,
{
    if n <= 0 {
        Seq::empty()
    } else {
        match actions[n - 1] {
            BackendAction::Define { slot, dump } => waiting_of(actions, n - 1).push(
                Pending { slot, dump },
            ),
            _ => waiting_of(actions, n - 1),
        }
    }
}

/// Whether a definition of a slot asks for diagnostics.
pub open spec fn wants_dump(waiting: Seq<Pending>, slot: usize) -> bool {
    waiting.contains(Pending { slot, dump: true })
}

/// Whether a module holds a body for a slot.
pub open spec fn is_defined(defined: Seq<bool>, slot: int) -> bool {
    0 <= slot < defined.len() && defined[slot]
}

/// How many slots the module has declared when a finalization begins: none
/// after a discard.
pub open spec fn declared_before(view: ReplayerView) -> usize {
    if view.stale {
        0
    } else {
        view.declared
    }
}

/// Which bodies the module holds when a finalization begins: none after a
/// discard.
pub open spec fn defined_before(view: ReplayerView) -> Seq<bool> {
    if view.stale {
        Seq::empty()
    } else {
        view.defined
    }
}

/// The declarations of the slots from `from` up to `to`, in order.
pub open spec fn declare_steps(from: int, to: int) -> Seq<Step> {
    Seq::new(
        if from <= to {
            (to - from) as nat
        } else {
            0
        },
        |i: int| Step::Declare { slot: (from + i) as usize },
    )
}

/// The definitions of those of the first `n` slots of a table that have a
/// body which the module does not hold, in order.
pub open spec fn define_steps(
    table: Seq<DeclView>,
    waiting: Seq<Pending>,
    defined: Seq<bool>,
    n: int,
) -> Seq<Step>
    decreases n,
{
    if n <= 0 {
        Seq::empty()
    } else if table[n - 1].body is Some && !is_defined(defined, n - 1) {
        define_steps(table, waiting, defined, n - 1).push(
            Step::Define { slot: (n - 1) as usize, dump: wants_dump(waiting, (n - 1) as usize) },
        )
    } else {
        define_steps(table, waiting, defined, n - 1)
    }
}

/// Which bodies the module holds after a finalization: those it held, and
/// those of the table.
pub open spec fn defined_after(table: Seq<DeclView>, defined: Seq<bool>) -> Seq<bool> {
    Seq::new(table.len(), |i: int| is_defined(defined, i) || table[i].body is Some)
}

/// What the backend does at a finalization.
pub open spec fn finalize_steps(view: ReplayerView, waiting: Seq<Pending>, table: Seq<DeclView>) -> Seq<
    Step,
> {
    let reset = if view.stale {
        seq![Step::Reset]
    } else {
        Seq::empty()
    };
    (reset + declare_steps(declared_before(view) as int, table.len() as int) + define_steps(
        table,
        waiting,
        defined_before(view),
        table.len() as int,
    )).push(Step::Finalize)
}

/// What the backend does for one action of the log. Declarations and
/// definitions wait for the next finalization.
pub open spec fn steps_for(
    view: ReplayerView,
    waiting: Seq<Pending>,
    action: BackendAction,
    table: Seq<DeclView>,
) -> Seq<Step> {
    match action {
        BackendAction::Finalize => finalize_steps(view, waiting, table),
        BackendAction::Write => seq![Step::Write],
        BackendAction::Invoke { slot } => seq![Step::Invoke { slot }],
        _ => Seq::empty(),
    }
}

/// What is remembered after one action of the log.
pub open spec fn after(view: ReplayerView, action: BackendAction, table: Seq<DeclView>) -> ReplayerView {
    match action {
        BackendAction::Discard { slot } => ReplayerView { stale: true, ..view },
        BackendAction::Finalize => ReplayerView {
            stale: false,
            declared: if declared_before(view) < table.len() {
                table.len() as usize
            } else {
                declared_before(view)
            },
            defined: defined_after(table, defined_before(view)),
        },
        _ => view,
    }
}

/// No body is defined twice in one module, and none that the table does
/// not hold: a finalization defines a slot only if the table has a body for
/// it and the module has none, and afterwards the module has one.
pub proof fn lemma_defines_once(
    view: ReplayerView,
    waiting: Seq<Pending>,
    table: Seq<DeclView>,
    n: int,
)
    requires
        0 <= n <= table.len() <= usize::MAX,
    ensures
        forall|k: int|
            0 <= k < define_steps(table, waiting, defined_before(view), n).len() ==> {
                let step = #[trigger] define_steps(table, waiting, defined_before(view), n)[k];
                &&& step is Define
                &&& step->Define_slot < n
                &&& table[step->Define_slot as int].body is Some
                &&& !is_defined(defined_before(view), step->Define_slot as int)
                &&& is_defined(
                    after(view, BackendAction::Finalize, table).defined,
                    step->Define_slot as int,
                )
            },
    decreases n,
{
    if n > 0 {
        lemma_defines_once(view, waiting, table, n - 1);
        let before = define_steps(table, waiting, defined_before(view), n - 1);
        let all = define_steps(table, waiting, defined_before(view), n);
        assert forall|k: int| 0 <= k < all.len() implies {
            let step = #[trigger] all[k];
            &&& step is Define
            &&& step->Define_slot < n
            &&& table[step->Define_slot as int].body is Some
            &&& !is_defined(defined_before(view), step->Define_slot as int)
            &&& is_defined(
                after(view, BackendAction::Finalize, table).defined,
                step->Define_slot as int,
            )
        } by {
            if k < before.len() {
                assert(all[k] == before[k]);
            }
        }
    }
}

/// The state of the backend and its calls after the first `n` actions of a
/// log, where `waiting` holds the definitions of the whole log.
pub open spec fn replayed(
    view: ReplayerView,
    waiting: Seq<Pending>,
    actions: Seq<BackendAction>,
    table: Seq<DeclView>,
    n: int,
) -> (ReplayerView, Seq<Step>)
    decreases n,
{
    if n <= 0 {
        (view, Seq::empty())
    } else {
        let before = replayed(view, waiting, actions, table, n - 1);
        (
            after(before.0, actions[n - 1], table),
            before.1 + steps_for(before.0, waiting, actions[n - 1], table),
        )
    }
}

/// The definitions of a log, oldest first.
pub fn collect_waiting(actions: &Vec<BackendAction>) -> (r: Vec<Pending>)
    ensures
        r@ == waiting_of(actions@, actions@.len() as int),
{
    let mut r: Vec<Pending> = Vec::new();
    let mut i: usize = 0;
    while i < actions.len()
        invariant
            i <= actions.len(),
            r@ == waiting_of(actions@, i as int),
        decreases actions.len() - i,
    {
        match actions[i] {
            BackendAction::Define { slot, dump } => {
                r.push(Pending { slot, dump });
            },
            _ => {},
        }
        i += 1;
    }
    r
}

/// Whether a definition of a slot asks for diagnostics.
pub fn dump_wanted(waiting: &Vec<Pending>, slot: usize) -> (r: bool)
    ensures
        r == wants_dump(waiting@, slot),
{
    let mut i: usize = 0;
    while i < waiting.len()
        invariant
            i <= waiting.len(),
            forall|k: int| 0 <= k < i ==> waiting@[k] != (Pending { slot, dump: true }),
        decreases waiting.len() - i,
    {
        if waiting[i].slot == slot && waiting[i].dump {
            assert(waiting@[i as int] == (Pending { slot, dump: true }));
            return true;
        }
        i += 1;
    }
    false
}

impl Replayer {
    /// A replayer for a backend whose module is empty.
    pub fn new() -> (r: Replayer)
        ensures
            r@ == (ReplayerView { stale: false, declared: 0, defined: Seq::empty() }),
    {
        Replayer { stale: false, declared: 0, defined: Vec::new() }
    }

    /// The calls of the backend for one action of a log, given the
    /// definitions of the whole log and the table of the session.
    pub fn next(&mut self, action: BackendAction, waiting: &Vec<Pending>, table: &Vec<FuncDecl>) -> (r:
        Vec<Step>)
        ensures
            r@ == steps_for(old(self)@, waiting@, action, decl_views(table@)),
            final(self)@ == after(old(self)@, action, decl_views(table@)),
    {
        let mut steps: Vec<Step> = Vec::new();
        match action {
            BackendAction::Declare { slot } => {},
            BackendAction::Discard { slot } => {
                self.stale = true;
            },
            BackendAction::Define { slot, dump } => {},
            BackendAction::Finalize => {
                let ghost views = decl_views(table@);
                let ghost begun = defined_before(old(self)@);
                if self.stale {
                    steps.push(Step::Reset);
                    self.declared = 0;
                    self.defined = Vec::new();
                }
                let ghost reset = steps@;
                let n: usize = table.len();
                let first: usize = self.declared;
                assert(first == declared_before(old(self)@));
                assert(self.defined@ =~= begun);
                let mut i: usize = first;
                while i < n
                    invariant
                        first <= i,
                        i <= n || first == i,
                        n == table@.len(),
                        steps@ == reset + declare_steps(first as int, i as int),
                    decreases n - i,
                {
                    steps.push(Step::Declare { slot: i });
                    assert(steps@ =~= reset + declare_steps(first as int, i + 1));
                    i += 1;
                }
                assert(declare_steps(first as int, i as int) =~= declare_steps(
                    first as int,
                    n as int,
                ));
                if first < n {
                    self.declared = n;
                }
                let ghost head = steps@;
                let mut marks: Vec<bool> = Vec::new();
                let mut k: usize = 0;
                while k < n
                    invariant
                        k <= n,
                        n == table@.len(),
                        views == decl_views(table@),
                        self.defined@ == begun,
                        marks@ == defined_after(views, begun).take(k as int),
                        steps@ == head + define_steps(views, waiting@, begun, k as int),
                    decreases n - k,
                {
                    assert(views[k as int].body is Some == table@[k as int].body is Some);
                    let held: bool = k < self.defined.len() && self.defined[k];
                    let has: bool = table[k].body.is_some();
                    if has && !held {
                        let dump = dump_wanted(waiting, k);
                        steps.push(Step::Define { slot: k, dump });
                    }
                    marks.push(held || has);
                    assert(marks@ =~= defined_after(views, begun).take(k + 1));
                    assert(steps@ =~= head + define_steps(views, waiting@, begun, k + 1));
                    k += 1;
                }
                assert(defined_after(views, begun).take(n as int) =~= defined_after(views, begun));
                steps.push(Step::Finalize);
                self.stale = false;
                self.defined = marks;
            },
            BackendAction::Write => {
                steps.push(Step::Write);
            },
            BackendAction::Invoke { slot } => {
                steps.push(Step::Invoke { slot });
            },
        }
        assert(steps@ =~= steps_for(old(self)@, waiting@, action, decl_views(table@)));
        steps
    }

    /// The calls of the backend for a log, given the table of the session
    /// that wrote it, as the table is now.
    pub fn replay(&mut self, actions: &Vec<BackendAction>, table: &Vec<FuncDecl>) -> (r: Vec<Step>)
        ensures
            final(self)@ == replayed(
                old(self)@,
                waiting_of(actions@, actions@.len() as int),
                actions@,
                decl_views(table@),
                actions@.len() as int,
            ).0,
            r@ == replayed(
                old(self)@,
                waiting_of(actions@, actions@.len() as int),
                actions@,
                decl_views(table@),
                actions@.len() as int,
            ).1,
    {
        let waiting = collect_waiting(actions);
        let mut steps: Vec<Step> = Vec::new();
        let mut i: usize = 0;
        while i < actions.len()
            invariant
                i <= actions.len(),
                waiting@ == waiting_of(actions@, actions@.len() as int),
                self@ == replayed(old(self)@, waiting@, actions@, decl_views(table@), i as int).0,
                steps@ == replayed(old(self)@, waiting@, actions@, decl_views(table@), i as int).1,
            decreases actions.len() - i,
        {
            let more = self.next(actions[i], &waiting, table);
            let ghost before = steps@;
            let mut k: usize = 0;
            while k < more.len()
                invariant
                    k <= more.len(),
                    steps@ == before + more@.take(k as int),
                decreases more.len() - k,
            {
                steps.push(more[k]);
                assert(steps@ =~= before + more@.take(k + 1));
                k += 1;
            }
            assert(more@.take(more@.len() as int) =~= more@);
            i += 1;
        }
        steps
    }
}

} // verus!
