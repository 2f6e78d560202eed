use eidos::ast::{ASTNode, Literal, Node, NodeIdSource, Program};
use eidos::backend::{
    call_convention, convert_arguments, declare_llvm_global, get_operand_type, is_tail_call, select_binary,
    select_unary, store_alignment, load_alignment, type_alignment, store_conversion, CallConv, Conversion, LlvmOp, ValueKind, get_type_size, is_bool_type, is_float_type, is_int_type, llvm_type, wasm_type, CodegenOptions,
    LlvmConst, LlvmType, OutputFormat, Target, WasmValType,
};
use eidos::dsl::extension::DSLExtension;
use eidos::dsl::processor::DSLProcessor;
use eidos::dsl::registry::DSLRegistry;
use eidos::eir::{BinaryOp as EirBinaryOp, Literal as EirLiteral, Operand, RegisterId, UnaryOp as EirUnaryOp};
use eidos::error::{EidosError, SourceLocation};
use eidos::types::{Type, TypeIdSource, TypeKind};

struct Echo;

impl DSLExtension for Echo {
    fn name(&self) -> &str {
        "echo"
    }
    fn description(&self) -> &str {
        "turns its content into a string literal"
    }
    fn process_block(&self, content: &str, _program: &Program) -> Result<ASTNode, EidosError> {
        let mut ids = NodeIdSource::new();
        Ok(ASTNode::new(Node::Literal(Literal::String(content.to_string())), SourceLocation::unknown(), &mut ids))
    }
    fn register_types(&self) -> Vec<(String, Type)> {
        Vec::new()
    }
    fn register_builtins(&self) -> Vec<String> {
        vec!["echo".to_string()]
    }
}

#[test]
fn registry_register_and_unregister() {
    let mut r: DSLRegistry<Echo> = DSLRegistry::new();
    assert!(!r.has_extension("echo"));
    r.register("echo".to_string(), Echo);
    assert!(r.has_extension("echo"));
    assert_eq!(r.get("echo").unwrap().name(), "echo");
    assert_eq!(r.list_extensions(), vec!["echo".to_string()]);
    assert!(r.unregister("echo"));
    assert!(!r.unregister("echo"));
}

#[test]
fn processor_uses_the_extension_and_sets_the_location() {
    let mut p: DSLProcessor<Echo> = DSLProcessor::new();
    assert!(!p.is_dsl_available("echo"));
    p.register_dsl("echo".to_string(), Echo);
    assert!(p.is_dsl_available("echo"));
    assert_eq!(p.list_available_dsls(), vec!["echo".to_string()]);
    let program = Program::new("d.eid".to_string());
    let here = SourceLocation::new("d.eid".to_string(), 3, 4, 5);
    let n = p.process_dsl_block("echo", "hello", &program, here.clone()).unwrap();
    assert_eq!(n.kind, Node::Literal(Literal::String("hello".to_string())));
    assert_eq!(n.location, here);
    match p.process_dsl_block("sql", "x", &program, here) {
        Err(EidosError::DSLError(m)) => assert_eq!(m, "DSL拡張 'sql' が見つかりません"),
        other => panic!("unexpected {:?}", other),
    }
}

#[test]
fn codegen_defaults() {
    let o = CodegenOptions::default();
    assert_eq!(o.format, OutputFormat::Binary);
    assert_eq!(o.target, Target::Native);
    assert_eq!(o.opt_level, 2);
    assert!(!o.debug_info && !o.lto);
}

#[test]
fn llvm_lowering() {
    let mut ids = TypeIdSource::new();
    let f = Type::function(vec![Type::integer(&mut ids), Type::bool(&mut ids)], Type::string(&mut ids), &mut ids);
    assert_eq!(
        llvm_type(&f).unwrap(),
        LlvmType::FunctionPointer(vec![LlvmType::Int(64), LlvmType::Int(1)], Box::new(LlvmType::Pointer(Box::new(LlvmType::Int(8)))))
    );
    assert_eq!(llvm_type(&Type::unit(&mut ids)).unwrap(), LlvmType::Struct(vec![]));
    let bad = Type::tuple(vec![Type::float(&mut ids), Type::unknown(&mut ids)], &mut ids);
    match llvm_type(&bad) {
        Err(EidosError::BackendError(m)) => assert_eq!(m, "未対応の型: ?"),
        other => panic!("unexpected {:?}", other),
    }
}

#[test]
fn wasm_mapping() {
    let mut ids = TypeIdSource::new();
    assert_eq!(wasm_type(&Type::integer(&mut ids)).unwrap(), WasmValType::I64);
    assert_eq!(wasm_type(&Type::float(&mut ids)).unwrap(), WasmValType::F64);
    assert_eq!(wasm_type(&Type::string(&mut ids)).unwrap(), WasmValType::I32);
    assert!(wasm_type(&Type::type_ref("T".to_string(), &mut ids)).is_err());
    assert_eq!(get_type_size(&Type::bool(&mut ids)), 1);
    assert_eq!(get_type_size(&Type::new(TypeKind::TypeParam { name: "T".to_string() }, &mut ids)), 4);
    assert_eq!(get_operand_type(&Operand::Literal(EirLiteral::Int(1))), WasmValType::I64);
    assert_eq!(get_operand_type(&Operand::Register(RegisterId(0))), WasmValType::I32);
    assert!(is_int_type(&Operand::Literal(EirLiteral::Int(1))));
    assert!(!is_float_type(&Operand::Literal(EirLiteral::Int(1))));
    assert!(is_bool_type(&Operand::Literal(EirLiteral::Bool(true))));
}

#[test]
fn llvm_globals() {
    let mut ids = TypeIdSource::new();
    let float_ty = Type::float(&mut ids);
    let g = declare_llvm_global(&"__const_pi".to_string(), &float_ty, Some(&EirLiteral::Float(0x400921FB54442D18))).unwrap();
    assert_eq!(g.name, "__const_pi");
    assert_eq!(g.ty, LlvmType::Double);
    assert_eq!(g.section, Some(".rodata.cst".to_string()));
    assert!(g.constant && g.unnamed_addr && !g.thread_local);
    assert_eq!(g.alignment, 8);
    assert_eq!(g.initializer, LlvmConst::Float(0x400921FB54442D18));

    let int_ty = Type::integer(&mut ids);
    let g = declare_llvm_global(&"counter_tls".to_string(), &int_ty, None).unwrap();
    assert!(g.thread_local);
    assert_eq!(g.section, None);
    assert!(!g.constant && !g.unnamed_addr);
    assert_eq!(g.initializer, LlvmConst::Zero);
    assert_eq!(g.ty, LlvmType::Int(64));

    let string_ty = Type::string(&mut ids);
    let g = declare_llvm_global(&"__bss_buf".to_string(), &string_ty, None).unwrap();
    assert_eq!(g.section, Some(".bss".to_string()));
    assert_eq!(g.alignment, 4);
    assert_eq!(g.ty, LlvmType::Pointer(Box::new(LlvmType::Int(8))));

    let g = declare_llvm_global(&"__thread_msg".to_string(), &string_ty, Some(&EirLiteral::String("ab".to_string()))).unwrap();
    assert!(g.thread_local);
    assert_eq!(g.initializer, LlvmConst::Bytes(vec![97, 98, 0]));
    assert_eq!(g.section, Some(".rodata.cst".to_string()));

    let unit_ty = Type::unit(&mut ids);
    let g = declare_llvm_global(&"__const_u".to_string(), &unit_ty, Some(&EirLiteral::Unit)).unwrap();
    assert_eq!(g.initializer, LlvmConst::EmptyStruct);
    assert_eq!(g.section, Some(".rodata".to_string()));
    assert!(g.constant && !g.unnamed_addr);

    let g = declare_llvm_global(&"flag".to_string(), &Type::bool(&mut ids), Some(&EirLiteral::Bool(true))).unwrap();
    assert_eq!(g.initializer, LlvmConst::Int { width: 1, value: 1 });
    assert_eq!(g.alignment, 4);

    let unknown = Type::unknown(&mut ids);
    match declare_llvm_global(&"x".to_string(), &unknown, None) {
        Err(EidosError::BackendError(m)) => assert_eq!(m, "未対応の型: ?"),
        other => panic!("unexpected {:?}", other),
    }
}

fn backend_text<T: std::fmt::Debug>(r: Result<T, EidosError>) -> String {
    match r {
        Err(EidosError::BackendError(m)) => m,
        other => panic!("expected a backend error, got {:?}", other),
    }
}

#[test]
fn llvm_instruction_selection() {
    assert_eq!(select_binary(EirBinaryOp::Add, ValueKind::Int(64)).unwrap(), LlvmOp::IntAdd);
    assert_eq!(select_binary(EirBinaryOp::Add, ValueKind::Float(64)).unwrap(), LlvmOp::FloatAdd);
    assert_eq!(select_binary(EirBinaryOp::Div, ValueKind::Int(32)).unwrap(), LlvmOp::IntSignedDiv);
    assert_eq!(select_binary(EirBinaryOp::Rem, ValueKind::Int(32)).unwrap(), LlvmOp::IntSignedRem);
    assert_eq!(backend_text(select_binary(EirBinaryOp::Rem, ValueKind::Float(64))), "剰余は整数のみサポートされています");
    assert_eq!(backend_text(select_binary(EirBinaryOp::Sub, ValueKind::Pointer)), "減算は整数か浮動小数点数のみサポートされています");
    assert_eq!(backend_text(select_binary(EirBinaryOp::Shl, ValueKind::Int(64))), "未対応の二項演算子: Shl");
    assert_eq!(select_unary(EirUnaryOp::Neg, ValueKind::Float(64)).unwrap(), LlvmOp::FloatNeg);
    assert_eq!(select_unary(EirUnaryOp::Not, ValueKind::Int(1)).unwrap(), LlvmOp::Not);
    assert_eq!(backend_text(select_unary(EirUnaryOp::Not, ValueKind::Float(64))), "論理否定はブール値のみサポートされています");
    assert_eq!(backend_text(select_unary(EirUnaryOp::Cast, ValueKind::Int(8))), "未対応の単項演算子: Cast");
}

#[test]
fn llvm_value_conversions() {
    let f = "f".to_string();
    assert_eq!(
        convert_arguments(
            &f,
            &vec![ValueKind::Int(32), ValueKind::Int(64), ValueKind::Float(32), ValueKind::Pointer, ValueKind::Int(8)],
            &vec![ValueKind::Int(64), ValueKind::Int(8), ValueKind::Float(64), ValueKind::Pointer, ValueKind::Int(8)],
        )
        .unwrap(),
        vec![Conversion::SignExtend, Conversion::Truncate, Conversion::FloatExtend, Conversion::Keep, Conversion::Keep]
    );
    assert_eq!(
        backend_text(convert_arguments(&f, &vec![ValueKind::Int(8), ValueKind::Pointer], &vec![ValueKind::Int(8), ValueKind::Int(64)])),
        "引数 1 の型を変換できません"
    );
    assert_eq!(
        backend_text(convert_arguments(&f, &vec![ValueKind::Int(8)], &vec![])),
        "関数 f の引数の数が一致しません。期待: 0, 実際: 1"
    );
    assert_eq!(store_conversion(ValueKind::Float(64), ValueKind::Float(32)), Conversion::FloatTruncate);
    assert_eq!(store_conversion(ValueKind::Int(8), ValueKind::Float(32)), Conversion::Keep);
}

#[test]
fn llvm_call_attributes() {
    assert_eq!(call_convention(&"win_stdcall_fn".to_string()), CallConv::X86Stdcall);
    assert_eq!(call_convention(&"g_fastcall".to_string()), CallConv::X86Fastcall);
    assert_eq!(call_convention(&"plain".to_string()), CallConv::Default);
    assert!(is_tail_call(&"loop_tail".to_string()));
    assert!(!is_tail_call(&"tai".to_string()));
}

#[test]
fn llvm_alignments() {
    assert_eq!(type_alignment(&LlvmType::Int(1), 8), 1);
    assert_eq!(type_alignment(&LlvmType::Int(32), 8), 4);
    assert_eq!(type_alignment(&LlvmType::Int(128), 8), 8);
    assert_eq!(type_alignment(&LlvmType::Double, 4), 8);
    assert_eq!(type_alignment(&LlvmType::Pointer(Box::new(LlvmType::Int(8))), 4), 4);
    assert_eq!(type_alignment(&LlvmType::Struct(vec![]), 8), 16);
    let p32 = LlvmType::Pointer(Box::new(LlvmType::Int(32)));
    assert_eq!(load_alignment(&p32, 8), 4);
    assert_eq!(load_alignment(&LlvmType::Int(16), 8), 8);
    assert_eq!(store_alignment(&p32, &LlvmType::Double, 8), 4);
    assert_eq!(store_alignment(&LlvmType::Int(16), &LlvmType::Double, 8), 8);
    assert_eq!(store_alignment(&LlvmType::Int(16), &LlvmType::Int(16), 8), 2);
}
