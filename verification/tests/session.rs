use brilift::args::{ArgError, MainArg};
use brilift::facade::CompileError;
use brilift::lower::{lower_function, BodyState, DeclKind, LowerErrorKind};
use brilift::model::{BasicBlock, BrilType, Function, Instruction, Opcode, Param, Program};
use brilift::native::{Literal, NativeOp, NativeType, RuntimeFn, Signature};
use brilift::opt_level::OptLevel;
use brilift::translator::{find_func, same_signature, BackendAction, Handle, TranslateError, Translator};
use brilift::wrapper::{build_memory_entry, build_process_entry, check_entry_types, EntryError};
use brilift::replay::{Pending, Replayer, Step};
use brilift::{check_program, compile, compile_failure, compile_in, jit_run, run_failure};

fn name(text: &str) -> String {
    String::from(text)
}

fn names(texts: &[&str]) -> Vec<String> {
    texts.iter().map(|t| name(t)).collect()
}

fn constant(to: &str, value: i64) -> Instruction {
    Instruction {
        op: Opcode::Const,
        dest: Some(Param { name: name(to), ty: BrilType::Int }),
        args: vec![],
        funcs: vec![],
        labels: vec![],
        value: Some(Literal::Int(value)),
    }
}

fn effect(op: Opcode, args: &[&str]) -> Instruction {
    Instruction { op, dest: None, args: names(args), funcs: vec![], labels: vec![], value: None }
}

fn call(callee: &str) -> Instruction {
    Instruction {
        op: Opcode::Call,
        dest: None,
        args: vec![],
        funcs: vec![name(callee)],
        labels: vec![],
        value: None,
    }
}

fn function(fname: &str, params: Vec<(&str, BrilType)>, instrs: Vec<Instruction>) -> Function {
    Function {
        name: name(fname),
        params: params.into_iter().map(|(n, ty)| Param { name: name(n), ty }).collect(),
        ret: None,
        blocks: vec![BasicBlock { label: None, instrs }],
    }
}

/// `main` prints a constant.
fn printing(value: i64) -> Program {
    Program {
        functions: vec![function(
            "main",
            vec![],
            vec![constant("v", value), effect(Opcode::Print, &["v"])],
        )],
    }
}

/// `main` takes an integer and a boolean.
fn with_parameters() -> Program {
    Program {
        functions: vec![function(
            "main",
            vec![("n", BrilType::Int), ("flag", BrilType::Bool)],
            vec![effect(Opcode::Print, &["n", "flag"])],
        )],
    }
}

fn words(texts: &[&str]) -> Vec<MainArg> {
    texts.iter().map(|t| MainArg { text: name(t), float_bits: None }).collect()
}

fn session() -> Translator {
    Translator::new(8, OptLevel::Off)
}

fn invocations(trans: &Translator) -> usize {
    trans.actions.iter().filter(|a| matches!(a, BackendAction::Invoke { .. })).count()
}

#[test]
fn fresh_run_declares_defines_finalizes_and_invokes() {
    let mut trans = session();
    assert_eq!(jit_run(&mut trans, &with_parameters(), &words(&["42", "true"]), false, false), Ok(()));
    assert_eq!(
        trans.actions,
        vec![
            BackendAction::Declare { slot: 0 },
            BackendAction::Define { slot: 0, dump: false },
            BackendAction::Finalize,
            BackendAction::Declare { slot: 1 },
            BackendAction::Define { slot: 1, dump: false },
            BackendAction::Finalize,
            BackendAction::Invoke { slot: 1 },
        ]
    );
    assert_eq!(trans.arguments, vec![Literal::Int(42), Literal::Bool(true)]);
    assert_eq!(trans.table[0].kind, DeclKind::Function);
    assert_eq!(trans.table[1].kind, DeclKind::MemoryEntry);
    assert_eq!(trans.table[1].name, "main");
    assert!(trans.table.iter().all(|d| d.state == BodyState::Ready));
    assert_eq!(
        trans.table[1].body.as_ref().unwrap().blocks,
        vec![vec![
            NativeOp::Parameter { dst: 0, index: 0 },
            NativeOp::Unpack { dst: 1, block: 0, record: 0, ty: NativeType::I64 },
            NativeOp::Unpack { dst: 2, block: 0, record: 1, ty: NativeType::I8 },
            NativeOp::Argument { src: 1 },
            NativeOp::Argument { src: 2 },
            NativeOp::Call { callee: 0, dst: None },
            NativeOp::Return { src: None, ty: None },
        ]]
    );
    assert_eq!(trans.take_actions().len(), 7);
    assert!(trans.actions.is_empty());
}

#[test]
fn dump_flag_is_passed_on_and_changes_no_plan() {
    let mut quiet = session();
    let mut loud = session();
    assert_eq!(jit_run(&mut quiet, &printing(1), &vec![], false, false), Ok(()));
    assert_eq!(jit_run(&mut loud, &printing(1), &vec![], true, false), Ok(()));
    assert_eq!(loud.actions[1], BackendAction::Define { slot: 0, dump: true });
    assert_eq!(loud.actions[4], BackendAction::Define { slot: 1, dump: true });
    for slot in 0..2 {
        assert_eq!(
            loud.table[slot].body.as_ref().unwrap().blocks,
            quiet.table[slot].body.as_ref().unwrap().blocks
        );
    }
}

#[test]
fn argument_count_mismatch_aborts_before_anything_runs() {
    for swap in [false, true] {
        let trans = session();
        let failure = run_failure(&trans, &with_parameters(), &words(&["42"]), false, swap);
        assert_eq!(
            failure,
            Some(TranslateError::Arguments(ArgError::CountMismatch { expected: 2, got: 1 }))
        );
        assert!(failure.unwrap().fatal());
        assert!(trans.table.is_empty() && trans.actions.is_empty());
    }
    // After a run that went through, the same holds of a swap.
    let mut trans = session();
    assert_eq!(jit_run(&mut trans, &with_parameters(), &words(&["42", "true"]), false, false), Ok(()));
    let recorded = trans.actions.len();
    assert_eq!(
        run_failure(&trans, &with_parameters(), &words(&["42"]), false, true),
        Some(TranslateError::Arguments(ArgError::CountMismatch { expected: 2, got: 1 }))
    );
    assert_eq!(trans.actions.len(), recorded);
    assert_eq!(invocations(&trans), 1);
    assert_eq!(run_failure(&trans, &with_parameters(), &words(&["42", "x"]), false, true), None);
}

#[test]
fn argument_that_does_not_parse_aborts_before_anything_runs() {
    let trans = session();
    assert_eq!(
        run_failure(&trans, &with_parameters(), &words(&["forty", "true"]), false, false),
        Some(TranslateError::Arguments(ArgError::InvalidInt { index: 0 }))
    );
    assert_eq!(invocations(&trans), 0);
}

#[test]
fn process_entry_checks_the_argument_count_first() {
    let entry = build_process_entry(&vec![NativeType::I64, NativeType::I8], 5);
    assert_eq!(entry.signature.params, vec![NativeType::I32, NativeType::Ptr]);
    assert_eq!(entry.signature.ret, Some(NativeType::I32));
    assert_eq!(
        entry.slots,
        vec![NativeType::I32, NativeType::Ptr, NativeType::I64, NativeType::I8]
    );
    assert_eq!(
        entry.blocks,
        vec![vec![
            NativeOp::Parameter { dst: 0, index: 0 },
            NativeOp::Parameter { dst: 1, index: 1 },
            NativeOp::Argument { src: 0 },
            NativeOp::Immediate { value: 2 },
            NativeOp::CallRuntime { routine: RuntimeFn::CheckArgumentCount, dst: None },
            NativeOp::Argument { src: 1 },
            NativeOp::Immediate { value: 1 },
            NativeOp::CallRuntime { routine: RuntimeFn::ParseInt, dst: Some(2) },
            NativeOp::Argument { src: 1 },
            NativeOp::Immediate { value: 2 },
            NativeOp::CallRuntime { routine: RuntimeFn::ParseBool, dst: Some(3) },
            NativeOp::Argument { src: 2 },
            NativeOp::Argument { src: 3 },
            NativeOp::Call { callee: 5, dst: None },
            NativeOp::Exit { status: 0 },
        ]]
    );
    let floats = build_process_entry(&vec![NativeType::F64, NativeType::I32], 0);
    assert_eq!(
        floats.blocks[0][7],
        NativeOp::CallRuntime { routine: RuntimeFn::ParseFloat, dst: Some(2) }
    );
    assert_eq!(
        floats.blocks[0][10],
        NativeOp::CallRuntime { routine: RuntimeFn::ParseChar, dst: Some(3) }
    );
}

#[test]
fn memory_entry_without_parameters_only_calls() {
    let entry = build_memory_entry(&vec![], 3);
    assert_eq!(entry.slots, vec![NativeType::Ptr]);
    assert_eq!(
        entry.blocks,
        vec![vec![
            NativeOp::Parameter { dst: 0, index: 0 },
            NativeOp::Call { callee: 3, dst: None },
            NativeOp::Return { src: None, ty: None },
        ]]
    );
}

#[test]
fn hot_swap_with_the_same_source_is_idempotent() {
    let mut trans = session();
    assert_eq!(jit_run(&mut trans, &printing(7), &vec![], false, false), Ok(()));
    let main_before = trans.table[0].body.as_ref().unwrap().blocks.clone();
    let entry_before = trans.table[1].body.as_ref().unwrap().blocks.clone();
    let arguments_before = trans.arguments.clone();
    let invoked_before = *trans.actions.last().unwrap();
    trans.take_actions();
    assert_eq!(jit_run(&mut trans, &printing(7), &vec![], false, true), Ok(()));
    assert_eq!(trans.table.len(), 2);
    assert_eq!(trans.table[0].body.as_ref().unwrap().blocks, main_before);
    assert_eq!(trans.table[1].body.as_ref().unwrap().blocks, entry_before);
    assert_eq!(trans.arguments, arguments_before);
    assert_eq!(*trans.actions.last().unwrap(), invoked_before);
    assert_eq!(
        trans.actions,
        vec![
            BackendAction::Discard { slot: 0 },
            BackendAction::Discard { slot: 1 },
            BackendAction::Define { slot: 0, dump: false },
            BackendAction::Finalize,
            BackendAction::Define { slot: 1, dump: false },
            BackendAction::Finalize,
            BackendAction::Invoke { slot: 1 },
        ]
    );
}

#[test]
fn hot_swap_runs_the_new_code_and_retires_old_handles() {
    let mut trans = session();
    assert_eq!(jit_run(&mut trans, &printing(1), &vec![], false, false), Ok(()));
    let old_entry = trans.resolve(DeclKind::MemoryEntry, &name("main")).unwrap();
    let old_main = trans.resolve(DeclKind::Function, &name("main")).unwrap();
    assert_eq!(old_entry, Handle { slot: 1, epoch: 0 });
    assert_eq!(jit_run(&mut trans, &printing(2), &vec![], false, true), Ok(()));
    let constant = trans.table[0].body.as_ref().unwrap().blocks[1][0];
    assert_eq!(
        constant,
        NativeOp::Constant { dst: 0, ty: NativeType::I64, value: Literal::Int(2) }
    );
    assert_eq!(*trans.actions.last().unwrap(), BackendAction::Invoke { slot: 1 });
    let recorded = trans.actions.len();
    assert_eq!(trans.run(old_entry, vec![]), Err(TranslateError::StaleHandle));
    assert_eq!(trans.run(old_main, vec![]), Err(TranslateError::StaleHandle));
    assert_eq!(trans.actions.len(), recorded);
    let fresh = trans.resolve(DeclKind::MemoryEntry, &name("main")).unwrap();
    assert_eq!(fresh, Handle { slot: 1, epoch: 1 });
    assert_eq!(trans.run(fresh, vec![]), Ok(()));
    assert_eq!(trans.run_func_by_name(&name("main"), vec![]), Ok(()));
    assert_eq!(trans.actions.len(), recorded + 2);
}

#[test]
fn hot_swap_declares_functions_it_has_not_seen() {
    let mut trans = session();
    assert_eq!(jit_run(&mut trans, &printing(1), &vec![], false, false), Ok(()));
    let mut next = printing(1);
    next.functions[0].blocks[0].instrs.push(call("helper"));
    next.functions.push(function("helper", vec![], vec![]));
    trans.take_actions();
    assert_eq!(jit_run(&mut trans, &next, &vec![], false, true), Ok(()));
    assert_eq!(trans.table.len(), 3);
    assert_eq!(trans.table[2].name, "helper");
    assert_eq!(trans.table[2].epoch, 0);
    assert_eq!(trans.table[0].epoch, 1);
    assert_eq!(trans.actions[2], BackendAction::Declare { slot: 2 });
    assert_eq!(
        trans.table[0].body.as_ref().unwrap().blocks[1][4],
        NativeOp::Call { callee: 2, dst: None }
    );
}

#[test]
fn forward_calls_resolve() {
    let program = Program {
        functions: vec![
            function("a", vec![], vec![call("b")]),
            function("b", vec![], vec![call("a")]),
        ],
    };
    let mut trans = session();
    assert_eq!(trans.compile_prog(&program, false), Ok(()));
    assert_eq!(
        trans.actions,
        vec![
            BackendAction::Declare { slot: 0 },
            BackendAction::Declare { slot: 1 },
            BackendAction::Define { slot: 0, dump: false },
            BackendAction::Define { slot: 1, dump: false },
        ]
    );
    assert_eq!(
        trans.table[0].body.as_ref().unwrap().blocks[1][0],
        NativeOp::Call { callee: 1, dst: None }
    );
    assert_eq!(
        trans.table[1].body.as_ref().unwrap().blocks[1][0],
        NativeOp::Call { callee: 0, dst: None }
    );
    let done = compile_in(session(), &program, false).unwrap();
    assert_eq!(done.table.len(), 2);
}

#[test]
fn program_without_main_is_written_without_an_entry() {
    let program = Program { functions: vec![function("helper", vec![], vec![])] };
    let done = compile_in(session(), &program, false).unwrap();
    assert_eq!(
        done.actions,
        vec![
            BackendAction::Declare { slot: 0 },
            BackendAction::Define { slot: 0, dump: false },
            BackendAction::Finalize,
            BackendAction::Write,
        ]
    );
    assert!(done.table.iter().all(|d| d.kind == DeclKind::Function));
    let empty = compile_in(session(), &Program { functions: vec![] }, false).unwrap();
    assert_eq!(empty.actions, vec![BackendAction::Finalize, BackendAction::Write]);
    let mut trans = session();
    assert_eq!(jit_run(&mut trans, &program, &words(&["ignored"]), false, false), Ok(()));
    assert_eq!(invocations(&trans), 0);
}

#[test]
fn program_with_main_gets_a_process_entry() {
    let done = compile_in(session(), &with_parameters(), true).unwrap();
    assert_eq!(
        done.actions,
        vec![
            BackendAction::Declare { slot: 0 },
            BackendAction::Define { slot: 0, dump: true },
            BackendAction::Declare { slot: 1 },
            BackendAction::Define { slot: 1, dump: true },
            BackendAction::Finalize,
            BackendAction::Write,
        ]
    );
    assert_eq!(done.table[1].kind, DeclKind::ProcessEntry);
    assert_eq!(
        done.table[1].body.as_ref().unwrap().blocks,
        build_process_entry(&vec![NativeType::I64, NativeType::I8], 0).blocks
    );
    assert_eq!(
        done.table[0].body.as_ref().unwrap().blocks,
        lower_function(&with_parameters().functions[0], &vec![], 8).unwrap().blocks
    );
}

#[test]
fn compile_reads_level_and_target() {
    let host = compile(&printing(1), None, "speed", false).unwrap();
    assert_eq!(host.opt_level, OptLevel::Speed);
    assert_eq!(host.pointer_bytes as usize, std::mem::size_of::<usize>());
    assert_eq!(*host.actions.last().unwrap(), BackendAction::Write);
    assert!(matches!(
        compile(&printing(1), None, "fastest", false),
        Err(CompileError::UnknownOptLevel)
    ));
    assert!(matches!(
        compile(&printing(1), Some(name("no-such-machine")), "none", false),
        Err(CompileError::UnknownTarget)
    ));
    let narrow = compile(&printing(1), Some(name("i686-unknown-linux-gnu")), "none", false).unwrap();
    assert_eq!(narrow.pointer_bytes, 4);
    assert_eq!(narrow.opt_level, OptLevel::Off);
    let broken = Program { functions: vec![function("main", vec![], vec![call("missing")])] };
    match check_program(&broken) {
        Some(TranslateError::Lower { function: 0, error }) => {
            assert_eq!(error.kind, LowerErrorKind::UndefinedFunction)
        },
        _ => panic!("the call of a missing function went through"),
    }
    assert_eq!(check_program(&printing(1)), None);
    assert_eq!(compile_failure(&session(), &printing(1), false), None);
    assert_eq!(compile_failure(&session(), &broken, false), check_program(&broken));
    // A session that holds the program already is no fault of the program.
    let twice = compile_in(session(), &printing(1), false).unwrap();
    let again = compile_failure(&twice, &printing(1), false);
    assert_eq!(again, Some(TranslateError::AlreadyDefined { function: 0 }));
    assert!(!again.unwrap().fatal());
    assert_eq!(
        compile_in(twice, &printing(1), false).err(),
        Some(TranslateError::AlreadyDefined { function: 0 })
    );
}

#[test]
fn failed_compilation_finalizes_nothing() {
    let program = Program {
        functions: vec![
            function("good", vec![], vec![]),
            function("bad", vec![], vec![effect(Opcode::Print, &["ghost"])]),
        ],
    };
    let mut trans = session();
    match trans.compile_prog(&program, false) {
        Err(TranslateError::Lower { function: 1, error }) => {
            assert_eq!(error.kind, LowerErrorKind::UndefinedVariable)
        },
        _ => panic!("a use of an undefined name went through"),
    }
    assert_eq!(
        trans.actions,
        vec![
            BackendAction::Declare { slot: 0 },
            BackendAction::Declare { slot: 1 },
            BackendAction::Define { slot: 0, dump: false },
        ]
    );
    let trans = session();
    let failure = run_failure(&trans, &program, &vec![], false, false);
    assert!(matches!(failure, Some(TranslateError::Lower { function: 1, .. })));
    assert!(failure.unwrap().fatal());
    assert!(trans.actions.is_empty());
}

#[test]
fn session_failures_are_told_apart() {
    let mut trans = session();
    assert_eq!(trans.compile_prog(&printing(1), false), Ok(()));
    assert_eq!(
        trans.compile_prog(&printing(1), false),
        Err(TranslateError::AlreadyDefined { function: 0 })
    );
    assert_eq!(
        trans.compile_prog(&with_parameters(), false),
        Err(TranslateError::SignatureChanged { function: 0 })
    );
    assert_eq!(trans.add_mem_wrapper(&name("absent"), false), Err(TranslateError::NoSuchFunction));
    assert_eq!(trans.run_func_by_name(&name("main"), vec![]), Err(TranslateError::NoSuchFunction));
    let entry = trans.add_mem_wrapper(&name("main"), false).unwrap();
    assert_eq!(trans.add_mem_wrapper(&name("main"), false), Err(TranslateError::EntryExists));
    assert_eq!(trans.run(entry, vec![]), Err(TranslateError::NotFinalized));
    trans.finalize_definitions();
    assert_eq!(
        trans.run(Handle { slot: 0, epoch: 0 }, vec![]),
        Err(TranslateError::NotAnEntry)
    );
    assert_eq!(trans.run(Handle { slot: 9, epoch: 0 }, vec![]), Err(TranslateError::StaleHandle));
    assert_eq!(
        trans.run(entry, vec![Literal::Int(1)]),
        Err(TranslateError::Arguments(ArgError::CountMismatch { expected: 0, got: 1 }))
    );
    assert_eq!(trans.run(entry, vec![]), Ok(()));
    trans.table[0].epoch = u64::MAX;
    assert_eq!(
        trans.prepare_for_function_redefine(&printing(1)),
        Err(TranslateError::EpochsExhausted { function: 0 })
    );
    assert!(!trans.discard(0));
    assert!(trans.discard(1));
    assert!(trans.discard(1));
    assert!(trans.discard(7));
    assert_eq!(trans.table[1].epoch, 1);
}

#[test]
fn arguments_are_checked_against_the_declared_types() {
    let mut trans = session();
    assert_eq!(trans.compile_prog(&with_parameters(), false), Ok(()));
    let entry = trans.add_mem_wrapper(&name("main"), false).unwrap();
    trans.finalize_definitions();
    assert_eq!(
        trans.run(entry, vec![Literal::Int(1), Literal::Int(0)]),
        Err(TranslateError::ArgumentType { index: 1 })
    );
    assert_eq!(
        trans.run(entry, vec![Literal::Char('x'), Literal::Float(0)]),
        Err(TranslateError::ArgumentType { index: 0 })
    );
    assert_eq!(trans.run(entry, vec![Literal::Int(1), Literal::Bool(false)]), Ok(()));
    assert_eq!(trans.arguments, vec![Literal::Int(1), Literal::Bool(false)]);
}

#[test]
fn pointer_parameters_cannot_be_passed_in() {
    let program = Program {
        functions: vec![function(
            "main",
            vec![("n", BrilType::Int), ("p", BrilType::Pointer(Box::new(BrilType::Int)))],
            vec![],
        )],
    };
    let mut trans = session();
    assert_eq!(trans.compile_prog(&program, false), Ok(()));
    assert_eq!(
        trans.add_c_main(false),
        Err(TranslateError::Entry(EntryError::PointerParameter { index: 1 }))
    );
    let failure = run_failure(&session(), &program, &words(&["1", "2"]), false, false);
    assert_eq!(failure, Some(TranslateError::Entry(EntryError::PointerParameter { index: 1 })));
    assert!(failure.unwrap().fatal());
    assert_eq!(check_program(&program), failure);
    assert_eq!(check_entry_types(&vec![NativeType::I8, NativeType::F64]), None);
    assert_eq!(
        check_entry_types(&vec![NativeType::Ptr, NativeType::Ptr]),
        Some(EntryError::PointerParameter { index: 0 })
    );
}

#[test]
fn declarations_are_reused_by_name_and_kind() {
    let mut trans = session();
    let unit = || Signature { params: vec![], ret: None };
    let other = || Signature { params: vec![NativeType::I64], ret: None };
    assert_eq!(trans.declare(DeclKind::Function, &name("f"), unit()), Some(0));
    assert_eq!(trans.declare(DeclKind::MemoryEntry, &name("f"), other()), Some(1));
    assert_eq!(trans.declare(DeclKind::Function, &name("f"), unit()), Some(0));
    assert_eq!(trans.declare(DeclKind::Function, &name("f"), other()), None);
    assert_eq!(trans.table.len(), 2);
    assert_eq!(trans.resolve(DeclKind::ProcessEntry, &name("f")), None);
    assert!(same_signature(&unit(), &unit()));
    assert!(!same_signature(&unit(), &other()));
    assert!(!same_signature(&unit(), &Signature { params: vec![], ret: Some(NativeType::I8) }));
    assert!(!trans.is_all_ready());
    assert!(!trans.define(5, build_memory_entry(&vec![], 0), false));
    assert_eq!(find_func(&with_parameters().functions, &name("main")), Some(0));
    assert_eq!(find_func(&with_parameters().functions, &name("other")), None);
}

#[test]
fn copies_of_a_session_are_equal_and_apart() {
    let mut trans = session();
    assert_eq!(jit_run(&mut trans, &with_parameters(), &words(&["42", "true"]), false, false), Ok(()));
    let mut copy = trans.duplicate();
    assert_eq!(copy.actions, trans.actions);
    assert_eq!(copy.arguments, trans.arguments);
    assert_eq!(copy.table.len(), trans.table.len());
    for slot in 0..trans.table.len() {
        assert_eq!(copy.table[slot].name, trans.table[slot].name);
        assert_eq!(copy.table[slot].kind, trans.table[slot].kind);
        assert_eq!(copy.table[slot].state, trans.table[slot].state);
        assert_eq!(copy.table[slot].epoch, trans.table[slot].epoch);
        assert!(same_signature(&copy.table[slot].signature, &trans.table[slot].signature));
        let (a, b) = (copy.table[slot].body.as_ref().unwrap(), trans.table[slot].body.as_ref().unwrap());
        assert_eq!(a.blocks, b.blocks);
        assert_eq!(a.slots, b.slots);
    }
    assert!(copy.discard(0));
    assert_eq!(trans.table[0].epoch, 0);
    assert_eq!(trans.table[0].state, BodyState::Ready);
}

#[test]
fn replay_brings_the_backend_up_to_date_and_starts_over_after_a_discard() {
    let mut trans = session();
    let mut replayer = Replayer::new();
    assert_eq!(jit_run(&mut trans, &printing(1), &vec![], true, false), Ok(()));
    let steps = replayer.replay(&trans.take_actions(), &trans.table);
    assert_eq!(
        steps,
        vec![
            Step::Declare { slot: 0 },
            Step::Declare { slot: 1 },
            Step::Define { slot: 0, dump: true },
            Step::Define { slot: 1, dump: true },
            Step::Finalize,
            Step::Finalize,
            Step::Invoke { slot: 1 },
        ]
    );
    assert!(!replayer.stale);
    assert_eq!(replayer.declared, 2);
    assert_eq!(replayer.defined, vec![true, true]);
    let mut next = printing(2);
    next.functions.push(function("helper", vec![], vec![]));
    assert_eq!(jit_run(&mut trans, &next, &vec![], false, true), Ok(()));
    let actions = trans.take_actions();
    assert_eq!(actions[0], BackendAction::Discard { slot: 0 });
    assert_eq!(
        replayer.replay(&actions, &trans.table),
        vec![
            Step::Reset,
            Step::Declare { slot: 0 },
            Step::Declare { slot: 1 },
            Step::Declare { slot: 2 },
            Step::Define { slot: 0, dump: false },
            Step::Define { slot: 1, dump: false },
            Step::Define { slot: 2, dump: false },
            Step::Finalize,
            Step::Finalize,
            Step::Invoke { slot: 1 },
        ]
    );
    assert_eq!(replayer.defined, vec![true, true, true]);
    // One step of a log: what is declared and defined already is left alone.
    let waiting = vec![Pending { slot: 2, dump: true }];
    let mut partly = Replayer { stale: false, declared: 1, defined: vec![true] };
    assert_eq!(partly.next(BackendAction::Declare { slot: 3 }, &waiting, &trans.table), vec![]);
    assert_eq!(
        partly.next(BackendAction::Finalize, &waiting, &trans.table),
        vec![
            Step::Declare { slot: 1 },
            Step::Declare { slot: 2 },
            Step::Define { slot: 1, dump: false },
            Step::Define { slot: 2, dump: true },
            Step::Finalize,
        ]
    );
    assert_eq!(partly.next(BackendAction::Write, &waiting, &trans.table), vec![Step::Write]);
    assert_eq!(partly.next(BackendAction::Discard { slot: 0 }, &waiting, &trans.table), vec![]);
    assert!(partly.stale);
    assert_eq!(partly.next(BackendAction::Finalize, &waiting, &trans.table)[0], Step::Reset);
    // Ahead of time.
    let mut done = compile_in(session(), &printing(1), false).unwrap();
    assert_eq!(
        Replayer::new().replay(&done.take_actions(), &done.table),
        vec![
            Step::Declare { slot: 0 },
            Step::Declare { slot: 1 },
            Step::Define { slot: 0, dump: false },
            Step::Define { slot: 1, dump: false },
            Step::Finalize,
            Step::Write,
        ]
    );
}
