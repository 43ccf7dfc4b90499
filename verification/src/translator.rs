//! The translator: a session with a native backend.
//!
//! A translator owns the table of declared functions and a log of what the
//! backend has to do. Every operation updates the table and appends to the
//! log; a driver replays the log against a code generator, in order, and
//! reads signatures and bodies from the table by slot.
//!
//! A function is declared before it is defined, so that calls can name
//! functions that come later in a program. A defined function can be invoked
//! only after the next finalization. Discarding the body of a function
//! starts a new epoch for it: a handle from an earlier epoch is stale and is
//! never invoked.

use crate::args::ArgError;
use crate::lower::{decl_keys, decl_views, find_decl, find_decl_spec, lower_function, signature};
use crate::laws::program_fits;
use crate::lower::{lower_function_spec, signature_of, LowerError};
use crate::lower_laws::function_fits;
use crate::lower::{BodyState, DeclKind, DeclView, FuncDecl};
use crate::model::{first_index, first_index_from, lemma_first_index_from};
use crate::model::{Function, FunctionView, Program, ProgramView};
use crate::native::{copy_of, FunctionPlan, Literal, NativeType, PlanView, Signature};
use crate::native::SignatureView;
use crate::opt_level::OptLevel;
use crate::target::{target_pointer_bytes, triple_pointer_bytes};
use crate::wrapper::{build_memory_entry, build_process_entry, check_entry_types, entry_check};
use crate::wrapper::{memory_entry_plan, memory_entry_signature, EntryError};
use crate::wrapper::{process_entry_plan, process_entry_signature};
use vstd::prelude::*;

verus! {

/// A reference to a declared function, valid for one epoch of the function.
#[derive(Clone, Copy, Debug, PartialEq, Eq, Structural)]
pub struct Handle {
    /// The position of the function in the table of declarations.
    pub slot: usize,
    /// The epoch of the function in which the handle was made.
    pub epoch: u64,
}

/// One step that the backend has to take.
#[derive(Clone, Copy, Debug, PartialEq, Eq, Structural)]
pub enum BackendAction {
    /// Declare the function at `slot` with its signature.
    Declare { slot: usize },
    /// Drop the body of the function at `slot`; every caller must reach the
    /// body that is defined next.
    Discard { slot: usize },
    /// Define the function at `slot` with the body that the table holds.
    /// With `dump`, the generated code is first rendered to the diagnostic
    /// stream; this changes nothing in what is generated.
    Define { slot: usize, dump: bool },
    /// Resolve the addresses of everything defined so far.
    Finalize,
    /// Write every defined function into a relocatable object.
    Write,
    /// Call the entry shim at `slot` with the translator's argument block.
    Invoke { slot: usize },
}

/// Why a session stopped.
#[derive(Clone, Copy, Debug, PartialEq, Eq, Structural)]
pub enum TranslateError {
    /// The function at position `function` of the program cannot be lowered.
    Lower { function: usize, error: LowerError },
    /// The function at position `function` of the program is already
    /// declared with another signature.
    SignatureChanged { function: usize },
    /// The function at position `function` of the program already has a
    /// body.
    AlreadyDefined { function: usize },
    /// The function at position `function` of the program has been
    /// redefined as often as its epoch can count.
    EpochsExhausted { function: usize },
    /// No function of that name is declared.
    NoSuchFunction,
    /// The function cannot have an entry shim.
    Entry(EntryError),
    /// The entry shim already has a body.
    EntryExists,
    /// The words of the command line are not the arguments of `main`.
    Arguments(ArgError),
    /// The argument at `index` has another type than its parameter.
    ArgumentType { index: usize },
    /// The handle is from an earlier epoch of its function.
    StaleHandle,
    /// The handle is not that of a memory entry.
    NotAnEntry,
    /// The entry or a declared function has no body, or a body that is not
    /// finalized.
    NotFinalized,
}

impl TranslateError {
    /// Whether the failure is one that ends the process: a function that
    /// cannot be lowered, words that are not the arguments of `main`, or a
    /// `main` that takes a pointer. Such inputs are rejected before the
    /// library is asked to compile or run.
    pub open spec fn is_fatal(self) -> bool {
        self is Lower || self is Arguments || self matches TranslateError::Entry(
            EntryError::PointerParameter { .. },
        )
    }

    /// Whether the failure is one that ends the process.
    pub fn fatal(&self) -> (r: bool)
        ensures
            r == self.is_fatal(),
    {
        match self {
            TranslateError::Lower { .. } => true,
            TranslateError::Arguments(_) => true,
            TranslateError::Entry(EntryError::PointerParameter { .. }) => true,
            _ => false,
        }
    }
}

/// Whether an operation has stopped for a reason that ends the process.
pub open spec fn aborts(error: Option<TranslateError>) -> bool {
    match error {
        Some(e) => e.is_fatal(),
        None => false,
    }
}

/// What an operation of a session comes to: the session it leaves, and the
/// reason for which it stopped, if it did.
pub struct Outcome {
    pub session: TranslatorView,
    pub error: Option<TranslateError>,
}

/// The machine type of a literal.
pub open spec fn literal_type(literal: Literal) -> NativeType {
    match literal {
        Literal::Int(_) => NativeType::I64,
        Literal::Bool(_) => NativeType::I8,
        Literal::Float(_) => NativeType::F64,
        Literal::Char(_) => NativeType::I32,
    }
}

/// For each argument, whether it has the type of its parameter.
pub open spec fn type_matches(params: Seq<NativeType>, args: Seq<Literal>) -> Seq<bool> {
    Seq::new(args.len(), |i: int| i < params.len() && literal_type(args[i]) == params[i])
}

/// The names of the functions of a program, in order.
pub open spec fn function_names(program: ProgramView) -> Seq<Seq<char>> {
    Seq::new(program.functions.len(), |i: int| program.functions[i].name)
}

/// The signature of an entry shim of a kind.
pub open spec fn entry_signature(kind: DeclKind) -> SignatureView {
    if kind == DeclKind::ProcessEntry {
        process_entry_signature()
    } else {
        memory_entry_signature()
    }
}

/// The plan of an entry shim of a kind.
pub open spec fn entry_plan(kind: DeclKind, types: Seq<NativeType>, callee: usize) -> PlanView {
    if kind == DeclKind::ProcessEntry {
        process_entry_plan(types, callee)
    } else {
        memory_entry_plan(types, callee)
    }
}

/// A declaration after finalization: a defined function is ready.
pub open spec fn finalized(decl: DeclView) -> DeclView {
    if decl.state == BodyState::Defined {
        DeclView { state: BodyState::Ready, ..decl }
    } else {
        decl
    }
}

/// `Translator` as a mathematical value.
pub struct TranslatorView {
    pub pointer_bytes: u8,
    pub opt_level: OptLevel,
    pub table: Seq<DeclView>,
    pub actions: Seq<BackendAction>,
    pub arguments: Seq<Literal>,
}

impl TranslatorView {
    /// A session in which nothing has been declared.
    pub open spec fn new(pointer_bytes: u8, opt_level: OptLevel) -> TranslatorView {
        TranslatorView {
            pointer_bytes,
            opt_level,
            table: Seq::empty(),
            actions: Seq::empty(),
            arguments: Seq::empty(),
        }
    }

    /// The slot of the declaration of a kind under a name.
    pub open spec fn find(self, kind: DeclKind, name: Seq<char>) -> Option<usize> {
        find_decl_spec(self.table, kind, name)
    }

    /// The session after a declaration, or `None` where the name is already
    /// declared with another signature. A name that is already declared with
    /// the same signature keeps its slot, and nothing changes.
    pub open spec fn declare(self, kind: DeclKind, name: Seq<char>, signature: SignatureView) -> Option<
        TranslatorView,
    > {
        match self.find(kind, name) {
            Some(slot) => if self.table[slot as int].signature == signature {
                Some(self)
            } else {
                None
            },
            None => Some(
                TranslatorView {
                    table: self.table.push(
                        DeclView {
                            name,
                            kind,
                            signature,
                            state: BodyState::Declared,
                            epoch: 0,
                            body: None,
                        },
                    ),
                    actions: self.actions.push(
                        BackendAction::Declare { slot: self.table.len() as usize },
                    ),
                    ..self
                },
            ),
        }
    }

    /// The slot that a name has once it is declared.
    pub open spec fn slot_of(self, kind: DeclKind, name: Seq<char>) -> usize {
        match self.find(kind, name) {
            Some(slot) => slot,
            None => self.table.len() as usize,
        }
    }

    /// The session after the function at `slot` is defined with `plan`, or
    /// `None` where there is no such slot or the function has a body.
    pub open spec fn define(self, slot: usize, plan: PlanView, dump: bool) -> Option<
        TranslatorView,
    > {
        if slot < self.table.len() && self.table[slot as int].state == BodyState::Declared {
            Some(
                TranslatorView {
                    table: self.table.update(
                        slot as int,
                        DeclView {
                            state: BodyState::Defined,
                            body: Some(plan),
                            ..self.table[slot as int]
                        },
                    ),
                    actions: self.actions.push(BackendAction::Define { slot, dump }),
                    ..self
                },
            )
        } else {
            None
        }
    }

    /// The session after the body of the function at `slot` is discarded, or
    /// `None` where the function has run out of epochs. A function without a
    /// body is left as it is.
    pub open spec fn discard(self, slot: usize) -> Option<TranslatorView> {
        if slot >= self.table.len() || self.table[slot as int].state == BodyState::Declared {
            Some(self)
        } else if self.table[slot as int].epoch == u64::MAX {
            None
        } else {
            Some(
                TranslatorView {
                    table: self.table.update(
                        slot as int,
                        DeclView {
                            state: BodyState::Declared,
                            body: None,
                            epoch: (self.table[slot as int].epoch + 1) as u64,
                            ..self.table[slot as int]
                        },
                    ),
                    actions: self.actions.push(BackendAction::Discard { slot }),
                    ..self
                },
            )
        }
    }

    /// The session after finalization: every defined function is ready.
    pub open spec fn finalize(self) -> TranslatorView {
        TranslatorView {
            table: Seq::new(self.table.len(), |i: int| finalized(self.table[i])),
            actions: self.actions.push(BackendAction::Finalize),
            ..self
        }
    }

    /// A fresh handle for the declaration of a kind under a name.
    pub open spec fn resolve(self, kind: DeclKind, name: Seq<char>) -> Option<Handle> {
        match self.find(kind, name) {
            Some(slot) => Some(Handle { slot, epoch: self.table[slot as int].epoch }),
            None => None,
        }
    }

    /// The operation went through.
    pub open spec fn ok(self) -> Outcome {
        Outcome { session: self, error: None }
    }

    /// The operation stopped.
    pub open spec fn fail(self, error: TranslateError) -> Outcome {
        Outcome { session: self, error: Some(error) }
    }

    /// Whether every declared function has a finalized body. Entry shims do
    /// not count: no code ever calls one.
    pub open spec fn all_ready(self) -> bool {
        forall|i: int|
            0 <= i < self.table.len() && (#[trigger] self.table[i]).kind == DeclKind::Function
                ==> self.table[i].state == BodyState::Ready
    }

    /// Declaring the function at position `index` of a program.
    pub open spec fn declare_function(self, func: FunctionView, index: usize) -> Outcome {
        match self.declare(DeclKind::Function, func.name, signature_of(func)) {
            Some(next) => next.ok(),
            None => self.fail(TranslateError::SignatureChanged { function: index }),
        }
    }

    /// Declaring the first `n` functions of a program, in order.
    pub open spec fn declare_all(self, funcs: Seq<FunctionView>, n: int) -> Outcome
        decreases n,
    {
        if n <= 0 {
            self.ok()
        } else {
            let before = self.declare_all(funcs, n - 1);
            if before.error is Some {
                before
            } else {
                before.session.declare_function(funcs[n - 1], (n - 1) as usize)
            }
        }
    }

    /// Lowering and defining the function at position `index` of a program.
    pub open spec fn define_function(self, func: FunctionView, index: usize, dump: bool) -> Outcome {
        match lower_function_spec(func, self.table, self.pointer_bytes) {
            Err(error) => self.fail(TranslateError::Lower { function: index, error }),
            Ok(plan) => match self.define(self.slot_of(DeclKind::Function, func.name), plan, dump) {
                Some(next) => next.ok(),
                None => self.fail(TranslateError::AlreadyDefined { function: index }),
            },
        }
    }

    /// Lowering and defining the first `n` functions of a program, in order.
    pub open spec fn define_all(self, funcs: Seq<FunctionView>, n: int, dump: bool) -> Outcome
        decreases n,
    {
        if n <= 0 {
            self.ok()
        } else {
            let before = self.define_all(funcs, n - 1, dump);
            if before.error is Some {
                before
            } else {
                before.session.define_function(funcs[n - 1], (n - 1) as usize, dump)
            }
        }
    }

    /// Compiling a program: every function is declared, in program order,
    /// before any body is lowered; then every body is lowered and defined, in
    /// program order. The first failure stops the compilation.
    pub open spec fn compile_prog(self, program: ProgramView, dump: bool) -> Outcome {
        let declared = self.declare_all(program.functions, program.functions.len() as int);
        if declared.error is Some {
            declared
        } else {
            declared.session.define_all(program.functions, program.functions.len() as int, dump)
        }
    }

    /// Discarding the body of the declaration of a kind under a name, if
    /// there is such a declaration.
    pub open spec fn discard_named(self, kind: DeclKind, name: Seq<char>, index: usize) -> Outcome {
        match self.find(kind, name) {
            Some(slot) => match self.discard(slot) {
                Some(next) => next.ok(),
                None => self.fail(TranslateError::EpochsExhausted { function: index }),
            },
            None => self.ok(),
        }
    }

    /// Making the function at position `index` of a program redefinable: a
    /// declared function keeps its declaration and loses its body, and so
    /// does its memory entry; an unseen function is declared.
    pub open spec fn redefine_function(self, func: FunctionView, index: usize) -> Outcome {
        let first = if self.find(DeclKind::Function, func.name) is Some {
            self.discard_named(DeclKind::Function, func.name, index)
        } else {
            self.declare_function(func, index)
        };
        if first.error is Some {
            first
        } else {
            first.session.discard_named(DeclKind::MemoryEntry, func.name, index)
        }
    }

    /// Making the first `n` functions of a program redefinable, in order.
    pub open spec fn redefine_all(self, funcs: Seq<FunctionView>, n: int) -> Outcome
        decreases n,
    {
        if n <= 0 {
            self.ok()
        } else {
            let before = self.redefine_all(funcs, n - 1);
            if before.error is Some {
                before
            } else {
                before.session.redefine_function(funcs[n - 1], (n - 1) as usize)
            }
        }
    }

    /// Adding the entry shim of a kind for the function under a name.
    pub open spec fn add_entry(self, kind: DeclKind, name: Seq<char>, dump: bool) -> Outcome {
        match self.find(DeclKind::Function, name) {
            None => self.fail(TranslateError::NoSuchFunction),
            Some(callee) => {
                let types = self.table[callee as int].signature.params;
                match entry_check(types) {
                    Some(e) => self.fail(TranslateError::Entry(e)),
                    None => match self.declare(kind, name, entry_signature(kind)) {
                        None => self.fail(TranslateError::EntryExists),
                        Some(declared) => match declared.define(
                            self.slot_of(kind, name),
                            entry_plan(kind, types, callee),
                            dump,
                        ) {
                            None => declared.fail(TranslateError::EntryExists),
                            Some(next) => next.ok(),
                        },
                    },
                }
            },
        }
    }

    /// The session after everything is finalized and written out.
    pub open spec fn emit(self) -> TranslatorView {
        TranslatorView {
            actions: self.finalize().actions.push(BackendAction::Write),
            ..self.finalize()
        }
    }

    /// Invoking the memory entry of a handle with a block of arguments.
    pub open spec fn run(self, entry: Handle, args: Seq<Literal>) -> Outcome {
        if !self.is_current(entry) {
            self.fail(TranslateError::StaleHandle)
        } else if self.table[entry.slot as int].kind != DeclKind::MemoryEntry {
            self.fail(TranslateError::NotAnEntry)
        } else if self.table[entry.slot as int].state != BodyState::Ready || !self.all_ready() {
            self.fail(TranslateError::NotFinalized)
        } else {
            match self.find(DeclKind::Function, self.table[entry.slot as int].name) {
                None => self.fail(TranslateError::NoSuchFunction),
                Some(callee) => {
                    let params = self.table[callee as int].signature.params;
                    if params.len() != args.len() {
                        self.fail(
                            TranslateError::Arguments(
                                ArgError::CountMismatch {
                                    expected: params.len() as usize,
                                    got: args.len() as usize,
                                },
                            ),
                        )
                    } else {
                        match first_index(type_matches(params, args), false) {
                            Some(i) => self.fail(
                                TranslateError::ArgumentType { index: i as usize },
                            ),
                            None => TranslatorView {
                                arguments: args,
                                actions: self.actions.push(
                                    BackendAction::Invoke { slot: entry.slot },
                                ),
                                ..self
                            }.ok(),
                        }
                    }
                },
            }
        }
    }

    /// Invoking the memory entry of the function under a name, through a
    /// handle that is made for the call.
    pub open spec fn run_func_by_name(self, name: Seq<char>, args: Seq<Literal>) -> Outcome {
        match self.resolve(DeclKind::MemoryEntry, name) {
            None => self.fail(TranslateError::NoSuchFunction),
            Some(handle) => self.run(handle, args),
        }
    }

    /// Whether a handle belongs to the current epoch of its function.
    pub open spec fn is_current(self, handle: Handle) -> bool {
        handle.slot < self.table.len() && self.table[handle.slot as int].epoch == handle.epoch
    }

    /// Whether the function of a handle may be invoked through the handle.
    pub open spec fn can_invoke(self, handle: Handle) -> bool {
        self.is_current(handle) && self.table[handle.slot as int].state == BodyState::Ready
    }
}

/// A session with a native backend.
#[derive(Debug)]
pub struct Translator {
    /// The width of an address on the target, in bytes.
    pub pointer_bytes: u8,
    /// How hard the backend is to optimize. Lowering never depends on it.
    pub opt_level: OptLevel,
    /// The declared functions. A slot is a position in this table.
    pub table: Vec<FuncDecl>,
    /// What the backend has to do, oldest first.
    pub actions: Vec<BackendAction>,
    /// The arguments of the invocation that was recorded last.
    pub arguments: Vec<Literal>,
}

impl View for Translator {
    type V = TranslatorView;

    open spec fn view(&self) -> TranslatorView {
        TranslatorView {
            pointer_bytes: self.pointer_bytes,
            opt_level: self.opt_level,
            table: decl_views(self.table@),
            actions: self.actions@,
            arguments: self.arguments@,
        }
    }
}

/// Whether two signatures are the same.
pub fn same_signature(a: &Signature, b: &Signature) -> (r: bool)
    ensures
        r == (a@ == b@),
{
    if a.ret != b.ret {
        return false;
    }
    if a.params.len() != b.params.len() {
        return false;
    }
    let mut i: usize = 0;
    while i < a.params.len()
        invariant
            i <= a.params@.len(),
            a.params@.len() == b.params@.len(),
            forall|k: int| 0 <= k < i ==> a.params@[k] == b.params@[k],
        decreases a.params.len() - i,
    {
        if a.params[i] != b.params[i] {
            return false;
        }
        i += 1;
    }
    assert(a@.params =~= b@.params);
    true
}

impl Translator {
    /// A session for a target whose addresses take `pointer_bytes` bytes.
    pub fn new(pointer_bytes: u8, opt_level: OptLevel) -> (r: Translator)
        ensures
            r@ == TranslatorView::new(pointer_bytes, opt_level),
    {
        let r = Translator {
            pointer_bytes,
            opt_level,
            table: Vec::new(),
            actions: Vec::new(),
            arguments: Vec::new(),
        };
        assert(r@.table =~= Seq::empty());
        r
    }

    /// A copy of the session, with its table, its bodies and its log.
    pub fn duplicate(&self) -> (r: Translator)
        ensures
            r@ == self@,
    {
        let mut table: Vec<FuncDecl> = Vec::new();
        let mut i: usize = 0;
        while i < self.table.len()
            invariant
                i <= self.table.len(),
                decl_views(table@) == decl_views(self.table@).take(i as int),
            decreases self.table.len() - i,
        {
            let ghost before = decl_views(table@);
            let decl = self.table[i].duplicate();
            table.push(decl);
            assert(decl_views(table@) =~= before.push(self.table@[i as int]@));
            assert(decl_views(table@) =~= decl_views(self.table@).take(i + 1));
            i += 1;
        }
        assert(decl_views(self.table@).take(self.table@.len() as int) =~= decl_views(self.table@));
        Translator {
            pointer_bytes: self.pointer_bytes,
            opt_level: self.opt_level,
            table,
            actions: copy_of(&self.actions),
            arguments: copy_of(&self.arguments),
        }
    }

    /// A session for a target whose addresses have the given width, if the
    /// width is known.
    pub fn for_width(width: Option<u8>, opt_level: OptLevel) -> (r: Option<Translator>)
        ensures
            match width {
                Some(bytes) => r is Some && r.unwrap()@ == TranslatorView::new(bytes, opt_level),
                None => r is None,
            },
    {
        match width {
            Some(pointer_bytes) => Some(Translator::new(pointer_bytes, opt_level)),
            None => None,
        }
    }

    /// A session for a target given by its triple, or for the host where no
    /// triple is given: a session in which nothing has been declared, for the
    /// width of the addresses of the target. There is none where that width
    /// cannot be told. For a named target, that is so exactly when the name
    /// cannot be read as a triple or the triple has no known width.
    pub fn for_target(target: &Option<String>, opt_level: OptLevel) -> (r: Option<Translator>)
        ensures
            match r {
                Some(t) => {
                    &&& t@ == TranslatorView::new(t@.pointer_bytes, opt_level)
                    &&& t@.pointer_bytes == 2 || t@.pointer_bytes == 4 || t@.pointer_bytes == 8
                    &&& target matches Some(name) ==> triple_pointer_bytes(name@) == Some(
                        t@.pointer_bytes,
                    )
                },
                None => target matches Some(name) ==> triple_pointer_bytes(name@) is None,
            },
    {
        Translator::for_width(target_pointer_bytes(target), opt_level)
    }

    /// Declares a function. Declaring a name again with the same signature
    /// gives the slot it has; with another signature it fails and changes
    /// nothing.
    pub fn declare(&mut self, kind: DeclKind, name: &String, signature: Signature) -> (r: Option<
        usize,
    >)
        ensures
            match old(self)@.declare(kind, name@, signature@) {
                Some(next) => final(self)@ == next && r == Some(old(self)@.slot_of(kind, name@)),
                None => final(self)@ == old(self)@ && r is None,
            },
            r matches Some(slot) ==> slot < final(self)@.table.len(),
    {
        match find_decl(&self.table, kind, name) {
            Some(slot) => {
                if same_signature(&self.table[slot].signature, &signature) {
                    Some(slot)
                } else {
                    None
                }
            },
            None => {
                let slot: usize = self.table.len();
                self.table.push(
                    FuncDecl {
                        name: name.clone(),
                        kind,
                        signature,
                        state: BodyState::Declared,
                        epoch: 0,
                        body: None,
                    },
                );
                self.actions.push(BackendAction::Declare { slot });
                assert(self@.table =~= old(self)@.declare(kind, name@, signature@).unwrap().table);
                Some(slot)
            },
        }
    }

    /// Defines the function at `slot`. Fails, and changes nothing, where the
    /// slot does not exist or the function already has a body.
    pub fn define(&mut self, slot: usize, plan: FunctionPlan, dump: bool) -> (r: bool)
        ensures
            match old(self)@.define(slot, plan@, dump) {
                Some(next) => r && final(self)@ == next,
                None => !r && final(self)@ == old(self)@,
            },
    {
        if slot >= self.table.len() {
            return false;
        }
        match self.table[slot].state {
            BodyState::Declared => {},
            _ => {
                return false;
            },
        }
        self.table[slot].state = BodyState::Defined;
        self.table[slot].body = Some(plan);
        self.actions.push(BackendAction::Define { slot, dump });
        assert(self@.table =~= old(self)@.define(slot, plan@, dump).unwrap().table);
        true
    }
}

/// Whether the result of an operation and the session it left are what the
/// outcome says.
pub open spec fn agrees(r: Result<(), TranslateError>, session: TranslatorView, outcome: Outcome) -> bool {
    &&& session == outcome.session
    &&& r == match outcome.error {
        None => Ok::<(), TranslateError>(()),
        Some(e) => Err::<(), TranslateError>(e),
    }
}

/// The machine type of a literal.
pub fn literal_type_of(literal: &Literal) -> (r: NativeType)
    ensures
        r == literal_type(*literal),
{
    match literal {
        Literal::Int(_) => NativeType::I64,
        Literal::Bool(_) => NativeType::I8,
        Literal::Float(_) => NativeType::F64,
        Literal::Char(_) => NativeType::I32,
    }
}

/// The position of the first argument that has another type than its
/// parameter, or no parameter at all.
pub fn first_type_mismatch(params: &Vec<NativeType>, args: &Vec<Literal>) -> (r: Option<usize>)
    ensures
        r == match first_index(type_matches(params@, args@), false) {
            Some(i) => Some(i as usize),
            None => None,
        },
{
    let ghost fits = type_matches(params@, args@);
    let mut i: usize = 0;
    while i < args.len()
        invariant
            i <= args@.len(),
            fits == type_matches(params@, args@),
            first_index(fits, false) == first_index_from(fits, false, i as int),
        decreases args.len() - i,
    {
        let same: bool = i < params.len() && literal_type_of(&args[i]) == params[i];
        assert(fits[i as int] == same);
        if !same {
            return Some(i);
        }
        i += 1;
    }
    None
}

/// The position of the first function of a list that has the given name.
pub fn find_func(functions: &Vec<Function>, name: &String) -> (r: Option<usize>)
    ensures
        first_index(Seq::new(functions@.len(), |i: int| functions@[i]@.name), name@) == match r {
            Some(i) => Some(i as int),
            None => None::<int>,
        },
        r matches Some(i) ==> i < functions@.len() && functions@[i as int]@.name == name@,
{
    let ghost names = Seq::new(functions@.len(), |i: int| functions@[i]@.name);
    let mut i: usize = 0;
    while i < functions.len()
        invariant
            i <= functions.len(),
            names == Seq::new(functions@.len(), |i: int| functions@[i]@.name),
            first_index(names, name@) == first_index_from(names, name@, i as int),
        decreases functions.len() - i,
    {
        if functions[i].name == *name {
            return Some(i);
        }
        i += 1;
    }
    None
}

impl Translator {
    /// Discards the body of the function at `slot` and starts a new epoch
    /// for it. A function without a body is left as it is. Fails, and changes
    /// nothing, where the function has run out of epochs.
    pub fn discard(&mut self, slot: usize) -> (r: bool)
        ensures
            match old(self)@.discard(slot) {
                Some(next) => r && final(self)@ == next,
                None => !r && final(self)@ == old(self)@,
            },
    {
        if slot >= self.table.len() {
            return true;
        }
        match self.table[slot].state {
            BodyState::Declared => {
                return true;
            },
            _ => {},
        }
        let epoch: u64 = self.table[slot].epoch;
        if epoch == u64::MAX {
            return false;
        }
        self.table[slot].state = BodyState::Declared;
        self.table[slot].body = None;
        self.table[slot].epoch = epoch + 1;
        self.actions.push(BackendAction::Discard { slot });
        assert(self@.table =~= old(self)@.discard(slot).unwrap().table);
        true
    }

    /// Finalizes every definition made so far: every defined function can
    /// be invoked from now on.
    pub fn finalize_definitions(&mut self)
        ensures
            final(self)@ == old(self)@.finalize(),
    {
        let ghost before = self@.table;
        let n: usize = self.table.len();
        let mut i: usize = 0;
        while i < n
            invariant
                i <= n,
                n == self.table@.len(),
                before.len() == n,
                before == old(self)@.table,
                self.pointer_bytes == old(self).pointer_bytes,
                self.opt_level == old(self).opt_level,
                self.actions@ == old(self).actions@,
                self.arguments@ == old(self).arguments@,
                forall|k: int| 0 <= k < i ==> (#[trigger] self.table@[k])@ == finalized(before[k]),
                forall|k: int| i <= k < n ==> (#[trigger] self.table@[k])@ == before[k],
            decreases n - i,
        {
            assert(self.table@[i as int]@ == before[i as int]);
            match self.table[i].state {
                BodyState::Defined => {
                    self.table[i].state = BodyState::Ready;
                },
                _ => {},
            }
            i += 1;
        }
        self.actions.push(BackendAction::Finalize);
        assert forall|k: int| 0 <= k < n implies self@.table[k] == old(self)@.finalize().table[k] by {
            assert(self.table@[k]@ == finalized(before[k]));
        }
        assert(self@.table =~= old(self)@.finalize().table);
    }

    /// Finalizes every definition and writes the object out.
    pub fn emit(&mut self)
        ensures
            final(self)@ == old(self)@.emit(),
    {
        self.finalize_definitions();
        self.actions.push(BackendAction::Write);
    }

    /// A fresh handle for the declaration of a kind under a name.
    pub fn resolve(&self, kind: DeclKind, name: &String) -> (r: Option<Handle>)
        ensures
            r == self@.resolve(kind, name@),
            r matches Some(h) ==> self@.is_current(h),
    {
        match find_decl(&self.table, kind, name) {
            Some(slot) => Some(Handle { slot, epoch: self.table[slot].epoch }),
            None => None,
        }
    }

    /// Whether every declared function has a finalized body.
    pub fn is_all_ready(&self) -> (r: bool)
        ensures
            r == self@.all_ready(),
    {
        let mut i: usize = 0;
        while i < self.table.len()
            invariant
                i <= self.table.len(),
                forall|k: int|
                    0 <= k < i && (#[trigger] self@.table[k]).kind == DeclKind::Function
                        ==> self@.table[k].state == BodyState::Ready,
            decreases self.table.len() - i,
        {
            let waits: bool = match (self.table[i].kind, self.table[i].state) {
                (DeclKind::Function, BodyState::Ready) => false,
                (DeclKind::Function, _) => true,
                _ => false,
            };
            if waits {
                assert(self@.table[i as int].kind == DeclKind::Function && self@.table[i as int].state
                    != BodyState::Ready);
                return false;
            }
            i += 1;
        }
        true
    }

    /// Hands the log of backend actions over and starts an empty one.
    pub fn take_actions(&mut self) -> (r: Vec<BackendAction>)
        ensures
            r@ == old(self)@.actions,
            final(self)@ == (TranslatorView { actions: Seq::empty(), ..old(self)@ }),
    {
        let mut log: Vec<BackendAction> = Vec::new();
        core::mem::swap(&mut log, &mut self.actions);
        log
    }

    /// Compiles a program: declares every function, in program order, then
    /// lowers and defines every body, in program order. A call may therefore
    /// name a function that comes later in the program. The first failure
    /// stops the compilation; nothing is finalized, written or invoked.
    pub fn compile_prog(&mut self, program: &Program, dump: bool) -> (r: Result<
        (),
        TranslateError,
    >)
        ensures
            agrees(r, final(self)@, old(self)@.compile_prog(program@, dump)),
            r is Ok ==> program_fits(program@),
    {
        let n: usize = program.functions.len();
        let mut i: usize = 0;
        while i < n
            invariant
                i <= n,
                n == program.functions@.len(),
                n == program@.functions.len(),
                old(self)@.declare_all(program@.functions, i as int) == self@.ok(),
            decreases n - i,
        {
            let func = &program.functions[i];
            assert(func@ == program@.functions[i as int]);
            match self.declare(DeclKind::Function, &func.name, signature(func)) {
                Some(_) => {},
                None => {
                    proof {
                        lemma_declare_failure_stays(
                            old(self)@,
                            program@.functions,
                            i + 1,
                            n as int,
                        );
                    }
                    return Err(TranslateError::SignatureChanged { function: i });
                },
            }
            i += 1;
        }
        let ghost declared = self@;
        let mut k: usize = 0;
        while k < n
            invariant
                k <= n,
                n == program.functions@.len(),
                n == program@.functions.len(),
                old(self)@.declare_all(program@.functions, n as int) == declared.ok(),
                declared.define_all(program@.functions, k as int, dump) == self@.ok(),
                forall|f: int| 0 <= f < k ==> function_fits(#[trigger] program@.functions[f]),
            decreases n - k,
        {
            let func = &program.functions[k];
            assert(func@ == program@.functions[k as int]);
            match lower_function(func, &self.table, self.pointer_bytes) {
                Err(error) => {
                    proof {
                        lemma_define_failure_stays(
                            declared,
                            program@.functions,
                            k + 1,
                            n as int,
                            dump,
                        );
                    }
                    return Err(TranslateError::Lower { function: k, error });
                },
                Ok(plan) => {
                    let slot: usize = match find_decl(&self.table, DeclKind::Function, &func.name) {
                        Some(s) => s,
                        None => self.table.len(),
                    };
                    if !self.define(slot, plan, dump) {
                        proof {
                            lemma_define_failure_stays(
                                declared,
                                program@.functions,
                                k + 1,
                                n as int,
                                dump,
                            );
                        }
                        return Err(TranslateError::AlreadyDefined { function: k });
                    }
                },
            }
            k += 1;
        }
        Ok(())
    }

    /// Discards the body of the declaration of a kind under a name, if there
    /// is one.
    fn discard_named(&mut self, kind: DeclKind, name: &String, index: usize) -> (r: Result<
        (),
        TranslateError,
    >)
        ensures
            agrees(r, final(self)@, old(self)@.discard_named(kind, name@, index)),
    {
        match find_decl(&self.table, kind, name) {
            Some(slot) => {
                if self.discard(slot) {
                    Ok(())
                } else {
                    Err(TranslateError::EpochsExhausted { function: index })
                }
            },
            None => Ok(()),
        }
    }

    /// Makes every function of an incoming program redefinable. A function
    /// that is already declared keeps its declaration, so that its callers
    /// need no patching, and loses its body; a memory entry under its name
    /// loses its body too. A function that was never seen is declared.
    pub fn prepare_for_function_redefine(&mut self, program: &Program) -> (r: Result<
        (),
        TranslateError,
    >)
        ensures
            agrees(
                r,
                final(self)@,
                old(self)@.redefine_all(program@.functions, program@.functions.len() as int),
            ),
    {
        let n: usize = program.functions.len();
        let mut i: usize = 0;
        while i < n
            invariant
                i <= n,
                n == program.functions@.len(),
                n == program@.functions.len(),
                old(self)@.redefine_all(program@.functions, i as int) == self@.ok(),
            decreases n - i,
        {
            let func = &program.functions[i];
            assert(func@ == program@.functions[i as int]);
            let first: Result<(), TranslateError> = if find_decl(
                &self.table,
                DeclKind::Function,
                &func.name,
            ).is_some() {
                self.discard_named(DeclKind::Function, &func.name, i)
            } else {
                match self.declare(DeclKind::Function, &func.name, signature(func)) {
                    Some(_) => Ok(()),
                    None => Err(TranslateError::SignatureChanged { function: i }),
                }
            };
            let both: Result<(), TranslateError> = match first {
                Ok(()) => self.discard_named(DeclKind::MemoryEntry, &func.name, i),
                Err(e) => Err(e),
            };
            match both {
                Ok(()) => {},
                Err(e) => {
                    proof {
                        lemma_redefine_failure_stays(
                            old(self)@,
                            program@.functions,
                            i + 1,
                            n as int,
                        );
                    }
                    return Err(e);
                },
            }
            i += 1;
        }
        Ok(())
    }

    /// Adds the entry shim of a kind for the function under a name, and
    /// gives a handle for it. The function must be declared, must have no
    /// pointer among its parameters, and must not have such a shim with a
    /// body.
    pub fn add_entry(&mut self, kind: DeclKind, name: &String, dump: bool) -> (r: Result<
        Handle,
        TranslateError,
    >)
        ensures
            final(self)@ == old(self)@.add_entry(kind, name@, dump).session,
            match old(self)@.add_entry(kind, name@, dump).error {
                None => r == Ok::<Handle, TranslateError>(
                    Handle {
                        slot: old(self)@.slot_of(kind, name@),
                        epoch: final(self)@.table[old(self)@.slot_of(kind, name@) as int].epoch,
                    },
                ) && final(self)@.is_current(r.unwrap()),
                Some(e) => r == Err::<Handle, TranslateError>(e),
            },
    {
        let callee: usize = match find_decl(&self.table, DeclKind::Function, name) {
            Some(c) => c,
            None => {
                return Err(TranslateError::NoSuchFunction);
            },
        };
        let mut types: Vec<NativeType> = Vec::new();
        let mut i: usize = 0;
        while i < self.table[callee].signature.params.len()
            invariant
                callee < self.table@.len(),
                i <= self.table@[callee as int].signature.params@.len(),
                types@ == self.table@[callee as int].signature.params@.take(i as int),
            decreases self.table@[callee as int].signature.params@.len() - i,
        {
            types.push(self.table[callee].signature.params[i]);
            assert(types@ =~= self.table@[callee as int].signature.params@.take(i + 1));
            i += 1;
        }
        assert(types@ =~= self@.table[callee as int].signature.params);
        match check_entry_types(&types) {
            Some(e) => {
                return Err(TranslateError::Entry(e));
            },
            None => {},
        }
        let (shape, plan) = match kind {
            DeclKind::ProcessEntry => {
                let mut params: Vec<NativeType> = Vec::new();
                params.push(NativeType::I32);
                params.push(NativeType::Ptr);
                let shape = Signature { params, ret: Some(NativeType::I32) };
                assert(shape@.params =~= process_entry_signature().params);
                (shape, build_process_entry(&types, callee))
            },
            _ => {
                let mut params: Vec<NativeType> = Vec::new();
                params.push(NativeType::Ptr);
                let shape = Signature { params, ret: None };
                assert(shape@.params =~= memory_entry_signature().params);
                (shape, build_memory_entry(&types, callee))
            },
        };
        let slot: usize = match self.declare(kind, name, shape) {
            Some(slot) => slot,
            None => {
                return Err(TranslateError::EntryExists);
            },
        };
        assert(slot < self@.table.len());
        if !self.define(slot, plan, dump) {
            return Err(TranslateError::EntryExists);
        }
        assert(self@.table.len() == self.table@.len());
        assert(slot < self.table@.len());
        let epoch: u64 = self.table[slot].epoch;
        assert(self@.table[slot as int].epoch == epoch);
        Ok(Handle { slot, epoch })
    }

    /// Adds the process entry of `main`.
    pub fn add_c_main(&mut self, dump: bool) -> (r: Result<Handle, TranslateError>)
        ensures
            final(self)@ == old(self)@.add_entry(DeclKind::ProcessEntry, "main"@, dump).session,
            match old(self)@.add_entry(DeclKind::ProcessEntry, "main"@, dump).error {
                None => r is Ok && r.unwrap().slot == old(self)@.slot_of(
                    DeclKind::ProcessEntry,
                    "main"@,
                ) && final(self)@.is_current(r.unwrap()),
                Some(e) => r == Err::<Handle, TranslateError>(e),
            },
    {
        let name = String::from_str("main");
        self.add_entry(DeclKind::ProcessEntry, &name, dump)
    }

    /// Adds the memory entry of the function under a name.
    pub fn add_mem_wrapper(&mut self, name: &String, dump: bool) -> (r: Result<
        Handle,
        TranslateError,
    >)
        ensures
            final(self)@ == old(self)@.add_entry(DeclKind::MemoryEntry, name@, dump).session,
            match old(self)@.add_entry(DeclKind::MemoryEntry, name@, dump).error {
                None => r is Ok && r.unwrap().slot == old(self)@.slot_of(
                    DeclKind::MemoryEntry,
                    name@,
                ) && final(self)@.is_current(r.unwrap()),
                Some(e) => r == Err::<Handle, TranslateError>(e),
            },
    {
        self.add_entry(DeclKind::MemoryEntry, name, dump)
    }

    /// Records the invocation of a memory entry with a block of arguments.
    ///
    /// The invocation is recorded only through a handle of the current epoch
    /// of a memory entry, when the entry and every declared function have a
    /// finalized body, and when the arguments are as many as the parameters
    /// of the wrapped function and of their types. Otherwise nothing changes.
    pub fn run(&mut self, entry: Handle, args: Vec<Literal>) -> (r: Result<(), TranslateError>)
        ensures
            agrees(r, final(self)@, old(self)@.run(entry, args@)),
    {
        if entry.slot >= self.table.len() || self.table[entry.slot].epoch != entry.epoch {
            return Err(TranslateError::StaleHandle);
        }
        match self.table[entry.slot].kind {
            DeclKind::MemoryEntry => {},
            _ => {
                return Err(TranslateError::NotAnEntry);
            },
        }
        let entry_ready: bool = match self.table[entry.slot].state {
            BodyState::Ready => true,
            _ => false,
        };
        if !entry_ready || !self.is_all_ready() {
            return Err(TranslateError::NotFinalized);
        }
        let callee: usize = match find_decl(
            &self.table,
            DeclKind::Function,
            &self.table[entry.slot].name,
        ) {
            Some(c) => c,
            None => {
                return Err(TranslateError::NoSuchFunction);
            },
        };
        let expected: usize = self.table[callee].signature.params.len();
        if expected != args.len() {
            return Err(
                TranslateError::Arguments(
                    ArgError::CountMismatch { expected, got: args.len() },
                ),
            );
        }
        match first_type_mismatch(&self.table[callee].signature.params, &args) {
            Some(index) => {
                return Err(TranslateError::ArgumentType { index });
            },
            None => {},
        }
        self.arguments = args;
        self.actions.push(BackendAction::Invoke { slot: entry.slot });
        Ok(())
    }

    /// Records the invocation of the memory entry of the function under a
    /// name. The entry is looked up by name at the time of the call, never
    /// through a handle that was kept.
    pub fn run_func_by_name(&mut self, name: &String, args: Vec<Literal>) -> (r: Result<
        (),
        TranslateError,
    >)
        ensures
            agrees(r, final(self)@, old(self)@.run_func_by_name(name@, args@)),
    {
        match self.resolve(DeclKind::MemoryEntry, name) {
            Some(handle) => self.run(handle, args),
            None => Err(TranslateError::NoSuchFunction),
        }
    }
}

/// A failure while declaring the first functions of a program is the outcome
/// of declaring any longer prefix.
pub proof fn lemma_declare_failure_stays(
    session: TranslatorView,
    funcs: Seq<FunctionView>,
    n: int,
    m: int,
)
    requires
        n <= m,
        session.declare_all(funcs, n).error is Some,
    ensures
        session.declare_all(funcs, m) == session.declare_all(funcs, n),
    decreases m - n,
{
    if n < m {
        lemma_declare_failure_stays(session, funcs, n, m - 1);
    }
}

/// A failure while defining the first functions of a program is the outcome
/// of defining any longer prefix.
pub proof fn lemma_define_failure_stays(
    session: TranslatorView,
    funcs: Seq<FunctionView>,
    n: int,
    m: int,
    dump: bool,
)
    requires
        n <= m,
        session.define_all(funcs, n, dump).error is Some,
    ensures
        session.define_all(funcs, m, dump) == session.define_all(funcs, n, dump),
    decreases m - n,
{
    if n < m {
        lemma_define_failure_stays(session, funcs, n, m - 1, dump);
    }
}

/// A failure while making the first functions of a program redefinable is
/// the outcome for any longer prefix.
pub proof fn lemma_redefine_failure_stays(
    session: TranslatorView,
    funcs: Seq<FunctionView>,
    n: int,
    m: int,
)
    requires
        n <= m,
        session.redefine_all(funcs, n).error is Some,
    ensures
        session.redefine_all(funcs, m) == session.redefine_all(funcs, n),
    decreases m - n,
{
    if n < m {
        lemma_redefine_failure_stays(session, funcs, n, m - 1);
    }
}

/// Appending to a sequence moves no first position: an item that was found
/// is found where it was, and one that was not is found at the end exactly
/// if it is the appended item.
pub proof fn lemma_first_index_push<T>(items: Seq<T>, item: T, last: T)
    ensures
        first_index(items.push(last), item) == match first_index(items, item) {
            Some(i) => Some(i),
            None => if last == item {
                Some(items.len() as int)
            } else {
                None
            },
        },
{
    lemma_first_index_from(items, item, 0);
    lemma_first_index_from(items.push(last), item, 0);
    match first_index(items, item) {
        Some(i) => {
            assert(items.push(last)[i] == item);
            match first_index(items.push(last), item) {
                Some(j) => {
                    if j < i {
                        assert(items[j] == items.push(last)[j]);
                    }
                },
                None => {},
            }
        },
        None => {
            match first_index(items.push(last), item) {
                Some(j) => {
                    if j < items.len() {
                        assert(items[j] == items.push(last)[j]);
                    }
                },
                None => {
                    assert(items.push(last)[items.len() as int] == last);
                },
            }
        },
    }
}

/// An entry shim that was just added is what its name resolves to once the
/// session is finalized: the handle that the addition gave is the handle
/// that a lookup by name gives.
pub proof fn lemma_entry_resolves(session: TranslatorView, kind: DeclKind, name: Seq<char>, dump: bool)
    requires
        session.table.len() <= usize::MAX,
        session.add_entry(kind, name, dump).error is None,
    ensures
        session.add_entry(kind, name, dump).session.finalize().resolve(kind, name) == Some(
            Handle {
                slot: session.slot_of(kind, name),
                epoch: session.add_entry(kind, name, dump).session.table[session.slot_of(
                    kind,
                    name,
                ) as int].epoch,
            },
        ),
{
    let callee = session.find(DeclKind::Function, name).unwrap();
    let types = session.table[callee as int].signature.params;
    let declared = session.declare(kind, name, entry_signature(kind)).unwrap();
    let slot = session.slot_of(kind, name);
    let defined = declared.define(slot, entry_plan(kind, types, callee), dump).unwrap();
    assert(defined == session.add_entry(kind, name, dump).session);
    lemma_first_index_from(decl_keys(session.table), (kind, name), 0);
    if session.find(kind, name) is None {
        assert(decl_keys(declared.table) =~= decl_keys(session.table).push((kind, name)));
        lemma_first_index_push(decl_keys(session.table), (kind, name), (kind, name));
    }
    assert(decl_keys(defined.table) =~= decl_keys(declared.table));
    assert(decl_keys(defined.finalize().table) =~= decl_keys(defined.table));
}

} // verus!
