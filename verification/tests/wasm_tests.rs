use eidos::eir::{BinaryOp, BlockId, FunctionId, Instruction, Literal, Operand, RegisterId, UnaryOp};
use eidos::error::EidosError;
use eidos::backend::WasmValType;
use eidos::types::{Type, TypeIdSource};
use eidos::wasm::{
    calculate_constant_binop, fold_constants_in_block, get_constant_value, WasmCodegen, WasmConst, WasmInstr,
};

fn backend_message<T: std::fmt::Debug>(r: Result<T, EidosError>) -> String {
    match r {
        Err(EidosError::BackendError(m)) => m,
        other => panic!("expected a backend error, got {:?}", other.map(|_| ())),
    }
}

fn reg(n: u32) -> Operand {
    Operand::Register(RegisterId(n))
}

#[test]
fn literals() {
    let mut g = WasmCodegen::new();
    assert_eq!(g.build_literal(&Literal::Int(-3)).unwrap(), vec![WasmInstr::I64Const(-3)]);
    assert_eq!(g.build_literal(&Literal::Float(0x4000_0000_0000_0000)).unwrap(), vec![WasmInstr::F64Const(0x4000_0000_0000_0000)]);
    assert_eq!(g.build_literal(&Literal::Bool(true)).unwrap(), vec![WasmInstr::I32Const(1)]);
    assert_eq!(g.build_literal(&Literal::Char('A' as u32)).unwrap(), vec![WasmInstr::I32Const(65)]);
    assert_eq!(g.build_literal(&Literal::Unit).unwrap(), vec![WasmInstr::I32Const(0)]);
}

#[test]
fn strings_go_to_aligned_data_segments() {
    let mut g = WasmCodegen::new();
    assert_eq!(g.build_literal(&Literal::String("hello".to_string())).unwrap(), vec![WasmInstr::I32Const(0)]);
    assert_eq!(g.build_literal(&Literal::String("é".to_string())).unwrap(), vec![WasmInstr::I32Const(8)]);
    assert_eq!(g.add_string_to_data_section(vec![1, 2, 3]).unwrap(), 12);
    assert_eq!(g.add_string_to_data_section(vec![]).unwrap(), 16);
    let segments = g.data_segments().clone();
    assert_eq!(
        segments,
        vec![
            (0, b"hello".to_vec()),
            (8, "é".as_bytes().to_vec()),
            (12, vec![1, 2, 3]),
            (16, vec![]),
        ]
    );
}

#[test]
fn operands() {
    let mut g = WasmCodegen::new();
    g.add_local(RegisterId(2), 7);
    g.add_global("counter".to_string(), 3);
    g.add_function("f".to_string(), 11);
    g.add_function_ref(FunctionId(5), 12);
    assert_eq!(g.build_operand(&reg(2)).unwrap(), vec![WasmInstr::LocalGet(7)]);
    assert_eq!(g.build_operand(&Operand::Global("counter".to_string())).unwrap(), vec![WasmInstr::GlobalGet(3)]);
    assert_eq!(g.build_operand(&Operand::ExternalFunction("f".to_string())).unwrap(), vec![WasmInstr::I32Const(0)]);
    assert_eq!(g.build_operand(&Operand::Function(FunctionId(5))).unwrap(), vec![WasmInstr::I32Const(1)]);
    assert_eq!(g.function_table().clone(), vec![11, 12]);
    assert_eq!(backend_message(g.build_operand(&reg(9))), "ローカル変数が見つかりません: RegisterId(9)");
    assert_eq!(backend_message(g.build_operand(&Operand::Global("g".to_string()))), "グローバル変数が見つかりません: g");
    assert_eq!(backend_message(g.build_operand(&Operand::Function(FunctionId(4)))), "関数が見つかりません: FunctionId(4)");
    assert_eq!(backend_message(g.build_operand(&Operand::Block(BlockId(0)))), "未対応のオペランド: Block");
}

#[test]
fn binary_and_unary_operations() {
    let mut g = WasmCodegen::new();
    g.add_local(RegisterId(0), 0);
    g.add_local(RegisterId(1), 1);
    let add = Instruction::BinaryOp { op: BinaryOp::Add, lhs: reg(0), rhs: Operand::Literal(Literal::Int(2)), result: RegisterId(1) };
    assert_eq!(
        g.build_instruction(&add).unwrap(),
        vec![WasmInstr::LocalGet(0), WasmInstr::I64Const(2), WasmInstr::I64Add, WasmInstr::LocalSet(1)]
    );
    let lt = Instruction::BinaryOp { op: BinaryOp::Lt, lhs: reg(0), rhs: reg(1), result: RegisterId(1) };
    assert_eq!(
        g.build_instruction(&lt).unwrap(),
        vec![WasmInstr::LocalGet(0), WasmInstr::LocalGet(1), WasmInstr::I64LtS, WasmInstr::LocalSet(1)]
    );
    let shl = Instruction::BinaryOp { op: BinaryOp::Shl, lhs: reg(0), rhs: reg(1), result: RegisterId(1) };
    assert_eq!(backend_message(g.build_instruction(&shl)), "未対応のバイナリ演算子: Shl");
    let neg = Instruction::UnaryOp { op: UnaryOp::Neg, operand: Operand::Literal(Literal::Int(4)), result: RegisterId(0) };
    assert_eq!(
        g.build_instruction(&neg).unwrap(),
        vec![WasmInstr::I64Const(4), WasmInstr::I64Const(-1), WasmInstr::I64Mul, WasmInstr::LocalSet(0)]
    );
    let not = Instruction::UnaryOp { op: UnaryOp::Not, operand: Operand::Literal(Literal::Bool(true)), result: RegisterId(0) };
    assert_eq!(
        g.build_instruction(&not).unwrap(),
        vec![WasmInstr::I32Const(1), WasmInstr::I32Const(1), WasmInstr::I32Xor, WasmInstr::LocalSet(0)]
    );
    let bad = Instruction::UnaryOp { op: UnaryOp::Not, operand: reg(0), result: RegisterId(0) };
    assert_eq!(backend_message(g.build_instruction(&bad)), "論理否定はブール値のみサポートされています");
    let no_local = Instruction::BinaryOp { op: BinaryOp::Sub, lhs: reg(0), rhs: reg(0), result: RegisterId(8) };
    assert_eq!(backend_message(g.build_instruction(&no_local)), "ローカル変数が見つかりません: RegisterId(8)");
}

#[test]
fn memory_calls_and_control() {
    let mut g = WasmCodegen::new();
    g.add_local(RegisterId(0), 0);
    g.add_function("print".to_string(), 4);
    let load = Instruction::Load { address: Operand::Literal(Literal::Int(16)), result: RegisterId(0) };
    assert_eq!(g.build_instruction(&load).unwrap(), vec![WasmInstr::I64Const(16), WasmInstr::I64Load, WasmInstr::LocalSet(0)]);
    let store = Instruction::Store { address: reg(0), value: Operand::Literal(Literal::Int(1)) };
    assert_eq!(g.build_instruction(&store).unwrap(), vec![WasmInstr::LocalGet(0), WasmInstr::I64Const(1), WasmInstr::I64Store]);
    let call = Instruction::Call { function: "print".to_string(), arguments: vec![reg(0)], result: Some(RegisterId(0)) };
    assert_eq!(g.build_instruction(&call).unwrap(), vec![WasmInstr::LocalGet(0), WasmInstr::Call(4), WasmInstr::LocalSet(0)]);
    let call2 = Instruction::Call { function: "print".to_string(), arguments: vec![], result: Some(RegisterId(5)) };
    assert_eq!(g.build_instruction(&call2).unwrap(), vec![WasmInstr::Call(4)]);
    let missing = Instruction::Call { function: "nope".to_string(), arguments: vec![], result: None };
    assert_eq!(backend_message(g.build_instruction(&missing)), "関数が見つかりません: nope");
    assert_eq!(g.build_instruction(&Instruction::Return { value: None }).unwrap(), vec![WasmInstr::Return]);
    assert_eq!(g.build_instruction(&Instruction::Branch { target: BlockId(3) }).unwrap(), vec![WasmInstr::Br(3)]);
    let cond = Instruction::BranchCond { condition: reg(0), true_target: BlockId(1), false_target: BlockId(2) };
    assert_eq!(g.build_instruction(&cond).unwrap(), vec![WasmInstr::LocalGet(0), WasmInstr::IfElseBr(1, 2)]);
    let dbg = Instruction::DebugInfo { info: "x".to_string() };
    assert_eq!(backend_message(g.build_instruction(&dbg)), "未対応の命令: DebugInfo");
}

#[test]
fn allocation() {
    let mut g = WasmCodegen::new();
    g.add_local(RegisterId(0), 2);
    let alloca = Instruction::Alloca { size: 24, result: RegisterId(0) };
    assert_eq!(backend_message(g.build_instruction(&alloca)), "メモリ割り当て関数を宣言できません");
    g.add_function("malloc".to_string(), 9);
    assert_eq!(g.build_instruction(&alloca).unwrap(), vec![WasmInstr::I32Const(24), WasmInstr::Call(9), WasmInstr::LocalSet(2)]);
    g.add_function("__alloc".to_string(), 1);
    assert_eq!(g.build_instruction(&alloca).unwrap(), vec![WasmInstr::I32Const(24), WasmInstr::Call(1), WasmInstr::LocalSet(2)]);
}

#[test]
fn globals() {
    let mut ids = TypeIdSource::new();
    let mut g = WasmCodegen::new();
    let int_ty = Type::integer(&mut ids);
    let float_ty = Type::float(&mut ids);
    let string_ty = Type::string(&mut ids);
    assert_eq!(g.declare_global("a".to_string(), &int_ty, Some(&Literal::Int(5))).unwrap(), 0);
    assert_eq!(g.declare_global("b".to_string(), &float_ty, None).unwrap(), 1);
    assert_eq!(g.declare_global("c".to_string(), &string_ty, Some(&Literal::String("hi".to_string()))).unwrap(), 2);
    assert_eq!(g.declare_global("d".to_string(), &int_ty, Some(&Literal::Bool(true))).unwrap(), 3);
    assert_eq!(
        g.globals().clone(),
        vec![
            (WasmValType::I64, WasmConst::I64(5)),
            (WasmValType::F64, WasmConst::F64(0)),
            (WasmValType::I32, WasmConst::I32(0)),
            (WasmValType::I64, WasmConst::I32(1)),
        ]
    );
    assert_eq!(g.build_operand(&Operand::Global("c".to_string())).unwrap(), vec![WasmInstr::GlobalGet(2)]);
    let unknown = Type::unknown(&mut ids);
    assert_eq!(backend_message(g.declare_global("e".to_string(), &unknown, None)), "未対応の型: ?");
}

#[test]
fn imported_functions() {
    let mut ids = TypeIdSource::new();
    let mut g = WasmCodegen::new();
    let int_ty = Type::integer(&mut ids);
    let unit_ty = Type::unit(&mut ids);
    let float_ty = Type::float(&mut ids);
    assert_eq!(g.declare_function(&"math::sqrt".to_string(), &vec![Type::float(&mut ids)], &float_ty).unwrap(), 0);
    assert_eq!(g.declare_function(&"__trap".to_string(), &vec![], &unit_ty).unwrap(), 1);
    assert_eq!(g.declare_function(&"malloc".to_string(), &vec![Type::integer(&mut ids)], &int_ty).unwrap(), 2);
    assert!(g.memory_imported());
    assert!(g.module_name().is_none());
    assert_eq!(g.declare_function(&"wasi_write".to_string(), &vec![], &unit_ty).unwrap(), 3);
    assert_eq!(g.module_name(), Some(&"wasi_module".to_string()));
    let imports = g.function_imports().clone();
    assert_eq!(imports[0].module, "math");
    assert_eq!(imports[0].params, vec![WasmValType::F64]);
    assert_eq!(imports[0].results, vec![WasmValType::F64]);
    assert_eq!(imports[1].module, "env");
    assert!(imports[1].results.is_empty());
    assert_eq!(imports[2].module, "ext");
    assert_eq!(imports[3].name, "wasi_write");
    let call = Instruction::Call { function: "malloc".to_string(), arguments: vec![Operand::Literal(Literal::Int(8))], result: None };
    assert_eq!(g.build_instruction(&call).unwrap(), vec![WasmInstr::I64Const(8), WasmInstr::Call(2)]);
    let unknown = Type::unknown(&mut ids);
    assert_eq!(backend_message(g.declare_function(&"f".to_string(), &vec![unknown], &unit_ty)), "未対応の型: ?");
}

#[test]
fn constant_values() {
    assert_eq!(get_constant_value(&WasmInstr::I32Const(4)), Some(WasmConst::I32(4)));
    assert_eq!(get_constant_value(&WasmInstr::I64Const(-4)), Some(WasmConst::I64(-4)));
    assert_eq!(get_constant_value(&WasmInstr::F64Const(7)), Some(WasmConst::F64(7)));
    assert_eq!(get_constant_value(&WasmInstr::I64Add), None);
    assert_eq!(get_constant_value(&WasmInstr::LocalGet(0)), None);
}

#[test]
fn constant_binops() {
    let i32c = WasmConst::I32;
    let i64c = WasmConst::I64;
    assert_eq!(calculate_constant_binop(&WasmInstr::I32Add, i32c(i32::MAX), i32c(1)), Some(i32c(i32::MIN)));
    assert_eq!(calculate_constant_binop(&WasmInstr::I32Sub, i32c(3), i32c(5)), Some(i32c(-2)));
    assert_eq!(calculate_constant_binop(&WasmInstr::I32Mul, i32c(6), i32c(7)), Some(i32c(42)));
    assert_eq!(calculate_constant_binop(&WasmInstr::I32DivS, i32c(-7), i32c(2)), Some(i32c(-3)));
    assert_eq!(calculate_constant_binop(&WasmInstr::I32DivS, i32c(i32::MIN), i32c(-1)), Some(i32c(i32::MIN)));
    assert_eq!(calculate_constant_binop(&WasmInstr::I32DivS, i32c(1), i32c(0)), None);
    assert_eq!(calculate_constant_binop(&WasmInstr::I64Add, i64c(2), i64c(3)), Some(i64c(5)));
    assert_eq!(calculate_constant_binop(&WasmInstr::I64Sub, i64c(i64::MIN), i64c(1)), Some(i64c(i64::MAX)));
    assert_eq!(calculate_constant_binop(&WasmInstr::I64Mul, i64c(i64::MAX), i64c(2)), Some(i64c(-2)));
    assert_eq!(calculate_constant_binop(&WasmInstr::I64DivS, i64c(9), i64c(-2)), Some(i64c(-4)));
    assert_eq!(calculate_constant_binop(&WasmInstr::I64DivS, i64c(9), i64c(0)), None);
    assert_eq!(calculate_constant_binop(&WasmInstr::I64RemS, i64c(9), i64c(2)), None);
    assert_eq!(calculate_constant_binop(&WasmInstr::I64Add, i32c(1), i64c(2)), None);
    assert_eq!(calculate_constant_binop(&WasmInstr::I32Add, i64c(1), i64c(2)), None);
}

#[test]
fn folding_generated_code() {
    let mut code = vec![
        WasmInstr::I64Const(2),
        WasmInstr::I64Const(3),
        WasmInstr::I64Add,
        WasmInstr::I64Const(4),
        WasmInstr::I64Mul,
        WasmInstr::LocalSet(0),
        WasmInstr::LocalGet(1),
        WasmInstr::I64Const(1),
        WasmInstr::I64Add,
        WasmInstr::I64Const(1),
        WasmInstr::I64Const(0),
        WasmInstr::I64DivS,
    ];
    fold_constants_in_block(&mut code);
    assert_eq!(
        code,
        vec![
            WasmInstr::I64Const(20),
            WasmInstr::LocalSet(0),
            WasmInstr::LocalGet(1),
            WasmInstr::I64Const(1),
            WasmInstr::I64Add,
            WasmInstr::I64Const(1),
            WasmInstr::I64Const(0),
            WasmInstr::I64DivS,
        ]
    );
    let again = code.clone();
    fold_constants_in_block(&mut code);
    assert_eq!(code, again);
}
