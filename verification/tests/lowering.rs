use brilift::bindings::Bindings;
use brilift::blocks::{form_blocks, Code};
use brilift::lower::{classify, find_decl, lower_function, signature, BodyState, DeclKind};
use brilift::lower::{FuncDecl, LowerError, LowerErrorKind, Shape};
use brilift::model::{BasicBlock, BrilType, Function, Instruction, Opcode, Param};
use brilift::native::{BinaryOp, Domain, Literal, NativeOp, NativeType, Relation, RuntimeFn};
use brilift::native::Signature;

fn name(text: &str) -> String {
    String::from(text)
}

fn dest(text: &str, ty: BrilType) -> Option<Param> {
    Some(Param { name: name(text), ty })
}

fn names(texts: &[&str]) -> Vec<String> {
    texts.iter().map(|t| name(t)).collect()
}

fn constant(to: &str, ty: BrilType, value: Literal) -> Instruction {
    Instruction {
        op: Opcode::Const,
        dest: dest(to, ty),
        args: vec![],
        funcs: vec![],
        labels: vec![],
        value: Some(value),
    }
}

fn value_op(op: Opcode, to: &str, ty: BrilType, args: &[&str]) -> Instruction {
    Instruction { op, dest: dest(to, ty), args: names(args), funcs: vec![], labels: vec![], value: None }
}

fn effect(op: Opcode, args: &[&str], labels: &[&str]) -> Instruction {
    Instruction { op, dest: None, args: names(args), funcs: vec![], labels: names(labels), value: None }
}

fn call(to: Option<(&str, BrilType)>, callee: &str, args: &[&str]) -> Instruction {
    Instruction {
        op: Opcode::Call,
        dest: to.map(|(n, ty)| Param { name: name(n), ty }),
        args: names(args),
        funcs: vec![name(callee)],
        labels: vec![],
        value: None,
    }
}

fn block(label: Option<&str>, instrs: Vec<Instruction>) -> BasicBlock {
    BasicBlock { label: label.map(name), instrs }
}

fn function(
    fname: &str,
    params: Vec<(&str, BrilType)>,
    ret: Option<BrilType>,
    blocks: Vec<BasicBlock>,
) -> Function {
    Function {
        name: name(fname),
        params: params.into_iter().map(|(n, ty)| Param { name: name(n), ty }).collect(),
        ret,
        blocks,
    }
}

fn declared(fname: &str, params: Vec<NativeType>, ret: Option<NativeType>) -> FuncDecl {
    FuncDecl {
        name: name(fname),
        kind: DeclKind::Function,
        signature: Signature { params, ret },
        state: BodyState::Declared,
        epoch: 0,
        body: None,
    }
}

fn failure(func: &Function, table: &Vec<FuncDecl>) -> LowerError {
    match lower_function(func, table, 8) {
        Ok(_) => panic!("lowering went through"),
        Err(e) => e,
    }
}

#[test]
fn arithmetic_lowers_to_integer_instructions() {
    let func = function(
        "main",
        vec![("a", BrilType::Int), ("b", BrilType::Int)],
        Some(BrilType::Int),
        vec![block(
            None,
            vec![
                value_op(Opcode::Add, "s", BrilType::Int, &["a", "b"]),
                value_op(Opcode::Mul, "p", BrilType::Int, &["s", "b"]),
                value_op(Opcode::Sub, "d", BrilType::Int, &["p", "a"]),
                value_op(Opcode::Div, "q", BrilType::Int, &["d", "b"]),
                effect(Opcode::Ret, &["q"], &[]),
            ],
        )],
    );
    let plan = lower_function(&func, &vec![], 8).unwrap();
    assert_eq!(plan.signature.params, vec![NativeType::I64, NativeType::I64]);
    assert_eq!(plan.signature.ret, Some(NativeType::I64));
    assert_eq!(plan.slots, vec![NativeType::I64; 6]);
    assert_eq!(plan.blocks.len(), 2);
    assert_eq!(
        plan.blocks[0],
        vec![
            NativeOp::Parameter { dst: 0, index: 0 },
            NativeOp::Parameter { dst: 1, index: 1 },
            NativeOp::Jump { target: 1 },
        ]
    );
    assert_eq!(
        plan.blocks[1],
        vec![
            NativeOp::Binary { op: BinaryOp::Iadd, dst: 2, lhs: 0, rhs: 1 },
            NativeOp::Binary { op: BinaryOp::Imul, dst: 3, lhs: 2, rhs: 1 },
            NativeOp::Binary { op: BinaryOp::Isub, dst: 4, lhs: 3, rhs: 0 },
            NativeOp::Binary { op: BinaryOp::Sdiv, dst: 5, lhs: 4, rhs: 1 },
            NativeOp::Return { src: Some(5), ty: Some(NativeType::I64) },
        ]
    );
}

#[test]
fn comparisons_follow_their_operation() {
    let func = function(
        "f",
        vec![("a", BrilType::Int), ("x", BrilType::Float), ("c", BrilType::Char)],
        None,
        vec![block(
            None,
            vec![
                value_op(Opcode::Le, "i", BrilType::Bool, &["a", "a"]),
                value_op(Opcode::Fgt, "j", BrilType::Bool, &["x", "x"]),
                value_op(Opcode::Ceq, "k", BrilType::Bool, &["c", "c"]),
                value_op(Opcode::Fadd, "y", BrilType::Float, &["x", "x"]),
                value_op(Opcode::And, "l", BrilType::Bool, &["i", "j"]),
                value_op(Opcode::Not, "m", BrilType::Bool, &["l"]),
            ],
        )],
    );
    let plan = lower_function(&func, &vec![], 8).unwrap();
    assert_eq!(
        plan.blocks[1],
        vec![
            NativeOp::Compare {
                domain: Domain::Integer,
                relation: Relation::LessOrEqual,
                dst: 3,
                lhs: 0,
                rhs: 0
            },
            NativeOp::Compare {
                domain: Domain::Floating,
                relation: Relation::Greater,
                dst: 4,
                lhs: 1,
                rhs: 1
            },
            NativeOp::Compare {
                domain: Domain::Character,
                relation: Relation::Equal,
                dst: 5,
                lhs: 2,
                rhs: 2
            },
            NativeOp::Binary { op: BinaryOp::Fadd, dst: 6, lhs: 1, rhs: 1 },
            NativeOp::Binary { op: BinaryOp::Band, dst: 7, lhs: 3, rhs: 4 },
            NativeOp::Not { dst: 8, src: 7 },
            NativeOp::Return { src: None, ty: None },
        ]
    );
    assert_eq!(
        plan.slots,
        vec![
            NativeType::I64,
            NativeType::F64,
            NativeType::I32,
            NativeType::I8,
            NativeType::I8,
            NativeType::I8,
            NativeType::F64,
            NativeType::I8,
            NativeType::I8,
        ]
    );
}

#[test]
fn constants_are_materialized_by_declared_type() {
    let func = function(
        "f",
        vec![],
        None,
        vec![block(
            None,
            vec![
                constant("i", BrilType::Int, Literal::Int(-7)),
                constant("x", BrilType::Float, Literal::Int(2)),
                constant("b", BrilType::Bool, Literal::Bool(true)),
                constant("c", BrilType::Char, Literal::Char('é')),
                constant("y", BrilType::Float, Literal::Float(0x3ff8_0000_0000_0000)),
            ],
        )],
    );
    let plan = lower_function(&func, &vec![], 8).unwrap();
    assert_eq!(
        plan.blocks[1],
        vec![
            NativeOp::Constant { dst: 0, ty: NativeType::I64, value: Literal::Int(-7) },
            NativeOp::Constant { dst: 1, ty: NativeType::F64, value: Literal::Int(2) },
            NativeOp::Constant { dst: 2, ty: NativeType::I8, value: Literal::Bool(true) },
            NativeOp::Constant { dst: 3, ty: NativeType::I32, value: Literal::Char('é') },
            NativeOp::Constant {
                dst: 4,
                ty: NativeType::F64,
                value: Literal::Float(0x3ff8_0000_0000_0000)
            },
            NativeOp::Return { src: None, ty: None },
        ]
    );
}

#[test]
fn names_are_flat_and_rebound_in_place() {
    let func = function(
        "f",
        vec![("x", BrilType::Int)],
        None,
        vec![
            block(None, vec![constant("y", BrilType::Int, Literal::Int(1))]),
            block(
                Some("again"),
                vec![
                    value_op(Opcode::Add, "x", BrilType::Int, &["x", "y"]),
                    constant("y", BrilType::Int, Literal::Int(2)),
                    value_op(Opcode::Id, "z", BrilType::Int, &["y"]),
                ],
            ),
        ],
    );
    let bindings = Bindings::of_function(&func);
    assert_eq!(bindings.len(), 3);
    assert_eq!(bindings.slot(&name("x")), Some(0));
    assert_eq!(bindings.slot(&name("y")), Some(1));
    assert_eq!(bindings.slot(&name("z")), Some(2));
    assert_eq!(bindings.slot(&name("w")), None);
    let plan = lower_function(&func, &vec![], 8).unwrap();
    assert_eq!(plan.slots.len(), 3);
    assert_eq!(
        plan.blocks[2],
        vec![
            NativeOp::Binary { op: BinaryOp::Iadd, dst: 0, lhs: 0, rhs: 1 },
            NativeOp::Constant { dst: 1, ty: NativeType::I64, value: Literal::Int(2) },
            NativeOp::Copy { dst: 2, src: 1 },
            NativeOp::Return { src: None, ty: None },
        ]
    );
}

#[test]
fn print_calls_one_routine_per_argument() {
    let func = function(
        "f",
        vec![
            ("i", BrilType::Int),
            ("b", BrilType::Bool),
            ("x", BrilType::Float),
            ("c", BrilType::Char),
            ("p", BrilType::Pointer(Box::new(BrilType::Int))),
        ],
        None,
        vec![block(
            None,
            vec![effect(Opcode::Print, &["i", "b", "x", "c", "p"], &[]), effect(Opcode::Print, &[], &[])],
        )],
    );
    let plan = lower_function(&func, &vec![], 8).unwrap();
    let call = |routine| NativeOp::CallRuntime { routine, dst: None };
    assert_eq!(
        plan.blocks[1],
        vec![
            NativeOp::Argument { src: 0 },
            call(RuntimeFn::PrintInt),
            call(RuntimeFn::PrintSeparator),
            NativeOp::Argument { src: 1 },
            call(RuntimeFn::PrintBool),
            call(RuntimeFn::PrintSeparator),
            NativeOp::Argument { src: 2 },
            call(RuntimeFn::PrintFloat),
            call(RuntimeFn::PrintSeparator),
            NativeOp::Argument { src: 3 },
            call(RuntimeFn::PrintChar),
            call(RuntimeFn::PrintSeparator),
            NativeOp::Argument { src: 4 },
            call(RuntimeFn::PrintPointer),
            call(RuntimeFn::PrintEnd),
            call(RuntimeFn::PrintEnd),
            NativeOp::Return { src: None, ty: None },
        ]
    );
}

#[test]
fn memory_operations_are_sized_by_pointee() {
    let int_ptr = || BrilType::Pointer(Box::new(BrilType::Int));
    let ptr_ptr = || BrilType::Pointer(Box::new(BrilType::Pointer(Box::new(BrilType::Bool))));
    let func = function(
        "f",
        vec![("n", BrilType::Int)],
        None,
        vec![block(
            None,
            vec![
                value_op(Opcode::Alloc, "p", int_ptr(), &["n"]),
                value_op(Opcode::PtrAdd, "q", int_ptr(), &["p", "n"]),
                effect(Opcode::Store, &["q", "n"], &[]),
                value_op(Opcode::Load, "v", BrilType::Int, &["q"]),
                value_op(Opcode::Alloc, "pp", ptr_ptr(), &["n"]),
                effect(Opcode::Free, &["p"], &[]),
                value_op(Opcode::Char2int, "i", BrilType::Int, &["n"]),
                value_op(Opcode::Int2char, "c", BrilType::Char, &["n"]),
                effect(Opcode::Nop, &[], &[]),
            ],
        )],
    );
    let narrow = lower_function(&func, &vec![], 4).unwrap();
    let plan = lower_function(&func, &vec![], 8).unwrap();
    assert_eq!(
        plan.blocks[1],
        vec![
            NativeOp::Argument { src: 0 },
            NativeOp::Immediate { value: 8 },
            NativeOp::CallRuntime { routine: RuntimeFn::Allocate, dst: Some(1) },
            NativeOp::PointerAdd { dst: 2, ptr: 1, offset: 0, scale: 8 },
            NativeOp::Store { ptr: 2, src: 0, ty: NativeType::I64 },
            NativeOp::Load { dst: 3, ptr: 2, ty: NativeType::I64 },
            NativeOp::Argument { src: 0 },
            NativeOp::Immediate { value: 8 },
            NativeOp::CallRuntime { routine: RuntimeFn::Allocate, dst: Some(4) },
            NativeOp::Argument { src: 1 },
            NativeOp::CallRuntime { routine: RuntimeFn::Release, dst: None },
            NativeOp::CharToInt { dst: 5, src: 0 },
            NativeOp::IntToChar { dst: 6, src: 0 },
            NativeOp::Return { src: None, ty: None },
        ]
    );
    assert_eq!(narrow.blocks[1][7], NativeOp::Immediate { value: 4 });
    assert_eq!(narrow.blocks[1][1], NativeOp::Immediate { value: 8 });
}

#[test]
fn control_flow_maps_labels_to_native_blocks() {
    let func = function(
        "f",
        vec![("c", BrilType::Bool)],
        Some(BrilType::Int),
        vec![
            block(None, vec![effect(Opcode::Br, &["c"], &["yes", "no"])]),
            block(Some("yes"), vec![constant("v", BrilType::Int, Literal::Int(1))]),
            block(Some("no"), vec![effect(Opcode::Jmp, &[], &["end"])]),
            block(Some("dead"), vec![constant("v", BrilType::Int, Literal::Int(3))]),
            block(Some("end"), vec![effect(Opcode::Ret, &["v"], &[])]),
        ],
    );
    let plan = lower_function(&func, &vec![], 8).unwrap();
    assert_eq!(plan.blocks.len(), 6);
    assert_eq!(plan.blocks[1], vec![NativeOp::Branch { cond: 0, if_true: 2, if_false: 3 }]);
    assert_eq!(
        plan.blocks[2],
        vec![
            NativeOp::Constant { dst: 1, ty: NativeType::I64, value: Literal::Int(1) },
            NativeOp::Jump { target: 3 },
        ]
    );
    assert_eq!(plan.blocks[3], vec![NativeOp::Jump { target: 5 }]);
    // The block that nothing reaches is lowered like any other.
    assert_eq!(
        plan.blocks[4],
        vec![
            NativeOp::Constant { dst: 1, ty: NativeType::I64, value: Literal::Int(3) },
            NativeOp::Jump { target: 5 },
        ]
    );
    assert_eq!(plan.blocks[5], vec![NativeOp::Return { src: Some(1), ty: Some(NativeType::I64) }]);
}

#[test]
fn function_without_blocks_returns_at_once() {
    let func = function("f", vec![("a", BrilType::Int)], None, vec![]);
    let plan = lower_function(&func, &vec![], 8).unwrap();
    assert_eq!(
        plan.blocks,
        vec![vec![
            NativeOp::Parameter { dst: 0, index: 0 },
            NativeOp::Return { src: None, ty: None }
        ]]
    );
}

#[test]
fn calls_pass_arguments_in_order() {
    let table =
        vec![declared("g", vec![], None), declared("h", vec![NativeType::I64; 2], Some(NativeType::I64))];
    let func = function(
        "f",
        vec![("a", BrilType::Int), ("b", BrilType::Int)],
        None,
        vec![block(
            None,
            vec![
                call(Some(("r", BrilType::Int)), "h", &["b", "a"]),
                call(None, "h", &["a", "a"]),
                call(None, "g", &[]),
            ],
        )],
    );
    let plan = lower_function(&func, &table, 8).unwrap();
    assert_eq!(
        plan.blocks[1],
        vec![
            NativeOp::Argument { src: 1 },
            NativeOp::Argument { src: 0 },
            NativeOp::Call { callee: 1, dst: Some(2) },
            NativeOp::Argument { src: 0 },
            NativeOp::Argument { src: 0 },
            NativeOp::Call { callee: 1, dst: None },
            NativeOp::Call { callee: 0, dst: None },
            NativeOp::Return { src: None, ty: None },
        ]
    );
    assert_eq!(find_decl(&table, DeclKind::Function, &name("h")), Some(1));
    assert_eq!(find_decl(&table, DeclKind::MemoryEntry, &name("h")), None);
}

#[test]
fn undefined_function_is_reported_where_it_is_called() {
    let func = function(
        "f",
        vec![],
        None,
        vec![
            block(None, vec![effect(Opcode::Nop, &[], &[])]),
            block(Some("l"), vec![effect(Opcode::Nop, &[], &[]), call(None, "missing", &[])]),
        ],
    );
    assert_eq!(
        failure(&func, &vec![declared("other", vec![], None)]),
        LowerError { kind: LowerErrorKind::UndefinedFunction, block: 1, instr: 1 }
    );
}

#[test]
fn undefined_label_is_reported() {
    let func =
        function("f", vec![], None, vec![block(Some("here"), vec![effect(Opcode::Jmp, &[], &["there"])])]);
    assert_eq!(
        failure(&func, &vec![]),
        LowerError { kind: LowerErrorKind::UndefinedLabel, block: 0, instr: 0 }
    );
}

#[test]
fn name_that_is_never_defined_is_reported() {
    let func = function(
        "f",
        vec![("a", BrilType::Int)],
        None,
        vec![block(None, vec![value_op(Opcode::Add, "s", BrilType::Int, &["a", "ghost"])])],
    );
    assert_eq!(
        failure(&func, &vec![]),
        LowerError { kind: LowerErrorKind::UndefinedVariable, block: 0, instr: 0 }
    );
}

#[test]
fn name_defined_on_some_path_only_is_not_detected() {
    let func = function(
        "f",
        vec![("c", BrilType::Bool)],
        None,
        vec![
            block(None, vec![effect(Opcode::Br, &["c"], &["set", "use"])]),
            block(Some("set"), vec![constant("v", BrilType::Int, Literal::Int(1))]),
            block(Some("use"), vec![effect(Opcode::Print, &["v"], &[])]),
        ],
    );
    assert!(lower_function(&func, &vec![], 8).is_ok());
}

#[test]
fn malformed_instructions_are_reported() {
    let missing_operand = function(
        "f",
        vec![("a", BrilType::Int)],
        None,
        vec![block(None, vec![value_op(Opcode::Add, "s", BrilType::Int, &["a"])])],
    );
    assert_eq!(failure(&missing_operand, &vec![]).kind, LowerErrorKind::Malformed);
    let missing_dest = function(
        "f",
        vec![("a", BrilType::Int)],
        None,
        vec![block(None, vec![effect(Opcode::Id, &["a"], &[])])],
    );
    assert_eq!(failure(&missing_dest, &vec![]).kind, LowerErrorKind::Malformed);
    let not_a_pointer = function(
        "f",
        vec![("n", BrilType::Int)],
        None,
        vec![block(None, vec![value_op(Opcode::Alloc, "p", BrilType::Int, &["n"])])],
    );
    assert_eq!(failure(&not_a_pointer, &vec![]).kind, LowerErrorKind::Malformed);
    let wrong_arity = function(
        "f",
        vec![("a", BrilType::Int)],
        None,
        vec![block(None, vec![call(None, "g", &["a"])])],
    );
    assert_eq!(
        failure(&wrong_arity, &vec![declared("g", vec![], None)]).kind,
        LowerErrorKind::Malformed
    );
    let result_of_nothing = function(
        "f",
        vec![],
        None,
        vec![block(None, vec![call(Some(("r", BrilType::Int)), "g", &[])])],
    );
    assert_eq!(
        failure(&result_of_nothing, &vec![declared("g", vec![], None)]).kind,
        LowerErrorKind::Malformed
    );
}

#[test]
fn terminator_before_the_end_of_a_block_is_reported() {
    let func = function(
        "f",
        vec![],
        None,
        vec![block(None, vec![effect(Opcode::Ret, &[], &[]), effect(Opcode::Nop, &[], &[])])],
    );
    assert_eq!(
        failure(&func, &vec![]),
        LowerError { kind: LowerErrorKind::MisplacedTerminator, block: 0, instr: 0 }
    );
}

#[test]
fn first_failure_in_program_order_wins() {
    let func = function(
        "f",
        vec![],
        None,
        vec![
            block(None, vec![effect(Opcode::Print, &["ghost"], &[])]),
            block(Some("l"), vec![call(None, "missing", &[])]),
        ],
    );
    assert_eq!(
        failure(&func, &vec![]),
        LowerError { kind: LowerErrorKind::UndefinedVariable, block: 0, instr: 0 }
    );
}

#[test]
fn blocks_are_formed_at_labels_and_after_terminators() {
    let code = vec![
        Code::Instr(constant("a", BrilType::Int, Literal::Int(1))),
        Code::Instr(effect(Opcode::Jmp, &[], &["l"])),
        Code::Instr(constant("dead", BrilType::Int, Literal::Int(2))),
        Code::Label(name("l")),
        Code::Label(name("m")),
        Code::Instr(effect(Opcode::Print, &["a"], &[])),
        Code::Instr(effect(Opcode::Ret, &[], &[])),
    ];
    let blocks = form_blocks(code);
    let shape: Vec<(Option<&str>, Vec<Opcode>)> = blocks
        .iter()
        .map(|b| (b.label.as_deref(), b.instrs.iter().map(|i| i.op).collect()))
        .collect();
    assert_eq!(
        shape,
        vec![
            (None, vec![Opcode::Const, Opcode::Jmp]),
            (None, vec![Opcode::Const]),
            (Some("l"), vec![]),
            (Some("m"), vec![Opcode::Print, Opcode::Ret]),
        ]
    );
    assert_eq!(blocks[1].instrs[0].dest.as_ref().unwrap().name, "dead");
    assert!(form_blocks(vec![]).is_empty());
    let func = function("f", vec![], None, blocks);
    let plan = lower_function(&func, &vec![], 8).unwrap();
    assert_eq!(plan.blocks[3], vec![NativeOp::Jump { target: 4 }]);
}

#[test]
fn types_map_to_fixed_widths() {
    assert_eq!(BrilType::Int.native(), NativeType::I64);
    assert_eq!(BrilType::Bool.native(), NativeType::I8);
    assert_eq!(BrilType::Float.native(), NativeType::F64);
    assert_eq!(BrilType::Char.native(), NativeType::I32);
    let nested = BrilType::Pointer(Box::new(BrilType::Pointer(Box::new(BrilType::Char))));
    assert_eq!(nested.native(), NativeType::Ptr);
    assert_eq!(nested.pointee(), Some(NativeType::Ptr));
    assert_eq!(BrilType::Int.pointee(), None);
    assert_eq!(nested.clone(), nested);
    assert_ne!(nested, BrilType::Pointer(Box::new(BrilType::Char)));
    assert_eq!(NativeType::I8.bytes(8), 1);
    assert_eq!(NativeType::I32.bytes(8), 4);
    assert_eq!(NativeType::I64.bytes(4), 8);
    assert_eq!(NativeType::F64.bytes(4), 8);
    assert_eq!(NativeType::Ptr.bytes(4), 4);
    assert_eq!(NativeType::Ptr.bytes(8), 8);
}

#[test]
fn every_operation_has_its_shape() {
    assert_eq!(classify(Opcode::Add), Shape::Binary(BinaryOp::Iadd));
    assert_eq!(classify(Opcode::Fdiv), Shape::Binary(BinaryOp::Fdiv));
    assert_eq!(classify(Opcode::Or), Shape::Binary(BinaryOp::Bor));
    assert_eq!(classify(Opcode::Clt), Shape::Compare(Domain::Character, Relation::Less));
    assert_eq!(classify(Opcode::Fge), Shape::Compare(Domain::Floating, Relation::GreaterOrEqual));
    assert_eq!(classify(Opcode::Gt), Shape::Compare(Domain::Integer, Relation::Greater));
    assert_eq!(classify(Opcode::Free), Shape::Release);
    assert_eq!(classify(Opcode::Br), Shape::Branch);
    assert!(Opcode::Ret.ends_block() && Opcode::Jmp.ends_block() && Opcode::Br.ends_block());
    assert!(!Opcode::Call.ends_block() && !Opcode::Print.ends_block());
}

#[test]
fn signature_follows_the_declared_types() {
    let func = function(
        "f",
        vec![("c", BrilType::Char), ("p", BrilType::Pointer(Box::new(BrilType::Float)))],
        Some(BrilType::Bool),
        vec![],
    );
    let sig = signature(&func);
    assert_eq!(sig.params, vec![NativeType::I32, NativeType::Ptr]);
    assert_eq!(sig.ret, Some(NativeType::I8));
}
