use eidos::ast::{ASTNode, BinaryOp, FunctionParam, Literal, Node, NodeIdSource, Program, TypeInfo, UnaryOp};
use eidos::error::{EidosError, SourceLocation};
use eidos::type_checker::{count_nodes, program_size, TypeChecker};
use eidos::types::{Type, TypeIdSource, TypeKind};

fn loc(line: usize, column: usize) -> SourceLocation {
    SourceLocation::new("t.eid".to_string(), line, column, 1)
}

fn node(kind: Node, ids: &mut NodeIdSource) -> ASTNode {
    ASTNode::new(kind, loc(1, 1), ids)
}

fn lit(l: Literal, ids: &mut NodeIdSource) -> ASTNode {
    node(Node::Literal(l), ids)
}

fn ident(name: &str, ids: &mut NodeIdSource) -> ASTNode {
    node(Node::Identifier { name: name.to_string(), symbol: None }, ids)
}

fn binary(op: BinaryOp, l: ASTNode, r: ASTNode, ids: &mut NodeIdSource) -> ASTNode {
    node(Node::BinaryExpr { op, left: Box::new(l), right: Box::new(r) }, ids)
}

fn type_of(checker: &mut TypeChecker, n: &ASTNode) -> Result<String, String> {
    match checker.infer_node_type(n) {
        Ok(t) => Ok(t.to_string()),
        Err(EidosError::TypeError(m)) => Err(m),
        Err(e) => Err(format!("unexpected error {:?}", e)),
    }
}

#[test]
fn literal_types() {
    let mut ids = NodeIdSource::new();
    let mut c = TypeChecker::new();
    assert_eq!(type_of(&mut c, &lit(Literal::Int(1), &mut ids)), Ok("int".to_string()));
    assert_eq!(type_of(&mut c, &lit(Literal::Float("1.5".to_string()), &mut ids)), Ok("float".to_string()));
    assert_eq!(type_of(&mut c, &lit(Literal::Bool(true), &mut ids)), Ok("bool".to_string()));
    assert_eq!(type_of(&mut c, &lit(Literal::Char('x'), &mut ids)), Ok("char".to_string()));
    assert_eq!(type_of(&mut c, &lit(Literal::String("s".to_string()), &mut ids)), Ok("string".to_string()));
    assert_eq!(type_of(&mut c, &lit(Literal::Unit, &mut ids)), Ok("()".to_string()));
}

#[test]
fn arithmetic_widens_to_float_and_concatenates_strings() {
    let mut ids = NodeIdSource::new();
    let mut c = TypeChecker::new();
    let e = binary(BinaryOp::Add, lit(Literal::Int(1), &mut ids), lit(Literal::Int(2), &mut ids), &mut ids);
    assert_eq!(type_of(&mut c, &e), Ok("int".to_string()));
    let e = binary(BinaryOp::Mul, lit(Literal::Int(1), &mut ids), lit(Literal::Float("2.0".to_string()), &mut ids), &mut ids);
    assert_eq!(type_of(&mut c, &e), Ok("float".to_string()));
    let e = binary(BinaryOp::Add, lit(Literal::String("a".to_string()), &mut ids), lit(Literal::Int(2), &mut ids), &mut ids);
    assert_eq!(type_of(&mut c, &e), Ok("string".to_string()));
    let e = binary(BinaryOp::Sub, lit(Literal::String("a".to_string()), &mut ids), lit(Literal::Int(2), &mut ids), &mut ids);
    assert_eq!(type_of(&mut c, &e), Err("t.eid:1:1: 不適切な演算: string Sub int".to_string()));
}

#[test]
fn comparison_and_logic() {
    let mut ids = NodeIdSource::new();
    let mut c = TypeChecker::new();
    let e = binary(BinaryOp::Lt, lit(Literal::Int(1), &mut ids), lit(Literal::Float("2.0".to_string()), &mut ids), &mut ids);
    assert_eq!(type_of(&mut c, &e), Ok("bool".to_string()));
    let e = binary(BinaryOp::Eq, lit(Literal::Int(1), &mut ids), lit(Literal::Bool(true), &mut ids), &mut ids);
    assert_eq!(type_of(&mut c, &e), Err("t.eid:1:1: 比較できない型: int Eq bool".to_string()));
    let e = binary(BinaryOp::And, lit(Literal::Bool(true), &mut ids), lit(Literal::Bool(false), &mut ids), &mut ids);
    assert_eq!(type_of(&mut c, &e), Ok("bool".to_string()));
    let e = binary(BinaryOp::Or, lit(Literal::Bool(true), &mut ids), lit(Literal::Int(0), &mut ids), &mut ids);
    assert_eq!(type_of(&mut c, &e), Err("t.eid:1:1: 論理演算子はブール型のみサポート: bool Or int".to_string()));
    let e = binary(BinaryOp::BitAnd, lit(Literal::Int(1), &mut ids), lit(Literal::Int(0), &mut ids), &mut ids);
    assert_eq!(type_of(&mut c, &e), Err("t.eid:1:1: 未サポートの演算子: BitAnd".to_string()));
}

#[test]
fn unary_operators() {
    let mut ids = NodeIdSource::new();
    let mut c = TypeChecker::new();
    let e = node(Node::UnaryExpr { op: UnaryOp::Neg, expr: Box::new(lit(Literal::Int(1), &mut ids)) }, &mut ids);
    assert_eq!(type_of(&mut c, &e), Ok("int".to_string()));
    let e = node(Node::UnaryExpr { op: UnaryOp::Not, expr: Box::new(lit(Literal::Int(1), &mut ids)) }, &mut ids);
    assert_eq!(type_of(&mut c, &e), Err("t.eid:1:1: 論理否定はブール型のみサポート: int".to_string()));
    let e = node(Node::UnaryExpr { op: UnaryOp::BitNot, expr: Box::new(lit(Literal::Int(1), &mut ids)) }, &mut ids);
    assert_eq!(type_of(&mut c, &e), Err("t.eid:1:1: 未サポートの単項演算子: BitNot".to_string()));
}

#[test]
fn undefined_variable() {
    let mut ids = NodeIdSource::new();
    let mut c = TypeChecker::new();
    assert_eq!(type_of(&mut c, &ident("y", &mut ids)), Err("t.eid:1:1: 未定義の変数: y".to_string()));
}

#[test]
fn declaration_then_use() {
    let mut ids = NodeIdSource::new();
    let mut tids = TypeIdSource::new();
    let mut c = TypeChecker::new();
    let decl = node(Node::VarDecl {
        name: "x".to_string(),
        symbol: None,
        type_annotation: None,
        initializer: Some(Box::new(lit(Literal::Float("1.0".to_string()), &mut ids))),
        is_mutable: false,
    }, &mut ids);
    assert_eq!(type_of(&mut c, &decl), Ok("()".to_string()));
    assert_eq!(type_of(&mut c, &ident("x", &mut ids)), Ok("float".to_string()));
    let annotated = node(Node::VarDecl {
        name: "n".to_string(),
        symbol: None,
        type_annotation: Some(Type::integer(&mut tids)),
        initializer: Some(Box::new(lit(Literal::Bool(true), &mut ids))),
        is_mutable: true,
    }, &mut ids);
    assert_eq!(type_of(&mut c, &annotated), Err("t.eid:1:1: 型の不一致: 期待 int, 実際 bool".to_string()));
    let bare = node(Node::VarDecl { name: "z".to_string(), symbol: None, type_annotation: None, initializer: None, is_mutable: false }, &mut ids);
    assert_eq!(type_of(&mut c, &bare), Err("t.eid:1:1: 型注釈か初期化子が必要です".to_string()));
}

#[test]
fn if_expression() {
    let mut ids = NodeIdSource::new();
    let mut c = TypeChecker::new();
    let e = node(Node::IfExpr {
        condition: Box::new(lit(Literal::Bool(true), &mut ids)),
        then_branch: Box::new(lit(Literal::Int(1), &mut ids)),
        else_branch: Some(Box::new(lit(Literal::Int(2), &mut ids))),
    }, &mut ids);
    assert_eq!(type_of(&mut c, &e), Ok("int".to_string()));
    let e = node(Node::IfExpr {
        condition: Box::new(lit(Literal::Int(1), &mut ids)),
        then_branch: Box::new(lit(Literal::Int(1), &mut ids)),
        else_branch: None,
    }, &mut ids);
    assert_eq!(type_of(&mut c, &e), Err("t.eid:1:1: 条件式はブール型である必要があります: int".to_string()));
    let e = node(Node::IfExpr {
        condition: Box::new(lit(Literal::Bool(false), &mut ids)),
        then_branch: Box::new(lit(Literal::Int(1), &mut ids)),
        else_branch: Some(Box::new(lit(Literal::Bool(true), &mut ids))),
    }, &mut ids);
    assert_eq!(type_of(&mut c, &e), Err("t.eid:1:1: if-elseの各分岐の型が一致しません: int と bool".to_string()));
}

#[test]
fn function_definition_and_call() {
    let mut ids = NodeIdSource::new();
    let mut tids = TypeIdSource::new();
    let mut c = TypeChecker::new();
    let body = binary(BinaryOp::Add, ident("a", &mut ids), lit(Literal::Int(1), &mut ids), &mut ids);
    let def = node(Node::FunctionDef {
        name: "inc".to_string(),
        symbol: None,
        params: vec![FunctionParam { name: "a".to_string(), symbol: None, param_type: Some(Type::integer(&mut tids)) }],
        return_type: Some(Type::integer(&mut tids)),
        body: Box::new(body),
    }, &mut ids);
    assert_eq!(type_of(&mut c, &def), Ok("(int) -> int".to_string()));
    let call = node(Node::FunctionCall { callee: Box::new(ident("inc", &mut ids)), args: vec![lit(Literal::Int(3), &mut ids)] }, &mut ids);
    assert_eq!(type_of(&mut c, &call), Ok("int".to_string()));
    let bad = node(Node::FunctionCall { callee: Box::new(ident("inc", &mut ids)), args: vec![lit(Literal::Bool(true), &mut ids)] }, &mut ids);
    assert_eq!(type_of(&mut c, &bad), Err("t.eid:1:1: 引数 #1 の型が一致しません: 期待 int, 実際 bool".to_string()));
    let arity = node(Node::FunctionCall { callee: Box::new(ident("inc", &mut ids)), args: vec![] }, &mut ids);
    assert_eq!(type_of(&mut c, &arity), Err("t.eid:1:1: 引数の数が一致しません: 期待 1, 実際 0".to_string()));
    let not_fn = node(Node::FunctionCall { callee: Box::new(lit(Literal::Int(1), &mut ids)), args: vec![] }, &mut ids);
    assert_eq!(type_of(&mut c, &not_fn), Err("t.eid:1:1: 呼び出し可能でない値: int".to_string()));
}

#[test]
fn function_parameter_needs_annotation() {
    let mut ids = NodeIdSource::new();
    let mut c = TypeChecker::new();
    let def = node(Node::FunctionDef {
        name: "f".to_string(),
        symbol: None,
        params: vec![FunctionParam { name: "p".to_string(), symbol: None, param_type: None }],
        return_type: None,
        body: Box::new(lit(Literal::Unit, &mut ids)),
    }, &mut ids);
    assert_eq!(type_of(&mut c, &def), Err("t.eid:1:1: パラメータpに型注釈が必要です".to_string()));
}

#[test]
fn block_and_assignment() {
    let mut ids = NodeIdSource::new();
    let mut c = TypeChecker::new();
    let decl = node(Node::VarDecl {
        name: "v".to_string(),
        symbol: None,
        type_annotation: None,
        initializer: Some(Box::new(lit(Literal::Int(1), &mut ids))),
        is_mutable: true,
    }, &mut ids);
    let assign = node(Node::Assignment { target: Box::new(ident("v", &mut ids)), value: Box::new(lit(Literal::Int(2), &mut ids)) }, &mut ids);
    let block = node(Node::BlockExpr { statements: vec![decl, assign], result: Some(Box::new(ident("v", &mut ids))) }, &mut ids);
    assert_eq!(type_of(&mut c, &block), Ok("int".to_string()));
    let bad = node(Node::Assignment { target: Box::new(ident("v", &mut ids)), value: Box::new(lit(Literal::Bool(true), &mut ids)) }, &mut ids);
    assert_eq!(type_of(&mut c, &bad), Err("t.eid:1:1: 型の不一致: 期待 int, 実際 bool".to_string()));
    let empty = node(Node::BlockExpr { statements: vec![], result: None }, &mut ids);
    assert_eq!(type_of(&mut c, &empty), Ok("()".to_string()));
}

#[test]
fn other_nodes_are_unknown() {
    let mut ids = NodeIdSource::new();
    let mut c = TypeChecker::new();
    let w = node(Node::WhileLoop { condition: Box::new(lit(Literal::Bool(true), &mut ids)), body: Box::new(lit(Literal::Unit, &mut ids)) }, &mut ids);
    assert_eq!(type_of(&mut c, &w), Ok("?".to_string()));
}

#[test]
fn check_gives_types_to_top_level_nodes() {
    let mut ids = NodeIdSource::new();
    let mut program = Program::new("t.eid".to_string());
    let a = lit(Literal::Int(1), &mut ids);
    let b = lit(Literal::Bool(false), &mut ids);
    let ida = program.add_node(a);
    let idb = program.add_node(b);
    let mut c = TypeChecker::new();
    let typed = c.check(program).unwrap();
    match &typed.get_node(ida).unwrap().type_info {
        TypeInfo::Resolved(t) => assert_eq!(t.kind, TypeKind::Int),
        other => panic!("unexpected {:?}", other),
    }
    match &typed.get_node(idb).unwrap().type_info {
        TypeInfo::Resolved(t) => assert_eq!(t.kind, TypeKind::Bool),
        other => panic!("unexpected {:?}", other),
    }
}

#[test]
fn check_reports_missing_node() {
    let mut program = Program::new("t.eid".to_string());
    program.nodes.push(eidos::ast::NodeId(7));
    let mut c = TypeChecker::new();
    match c.check(program) {
        Err(EidosError::InternalError(m)) => assert_eq!(m, "ノードが見つかりません: NodeId(7)"),
        other => panic!("unexpected {:?}", other),
    }
}

#[test]
fn stdlib_types_are_registered() {
    let mut c = TypeChecker::new();
    c.register_stdlib_types();
    let mut ids = NodeIdSource::new();
    // Registering types does not bind variables.
    assert_eq!(type_of(&mut c, &ident("Vector", &mut ids)), Err("t.eid:1:1: 未定義の変数: Vector".to_string()));
}

#[test]
fn node_counts() {
    let mut ids = NodeIdSource::new();
    let one = lit(Literal::Int(1), &mut ids);
    assert_eq!(count_nodes(&one), 1);
    let a = ident("a", &mut ids);
    let b = lit(Literal::Int(2), &mut ids);
    let sum = binary(BinaryOp::Add, a, b, &mut ids);
    assert_eq!(count_nodes(&sum), 3);
    let c = ident("c", &mut ids);
    let d = lit(Literal::Int(3), &mut ids);
    let inner = binary(BinaryOp::Mul, c, d, &mut ids);
    let neg = node(Node::UnaryExpr { op: UnaryOp::Neg, expr: Box::new(inner) }, &mut ids);
    assert_eq!(count_nodes(&neg), 4);
    let mut p = Program::new("t.eid".to_string());
    assert_eq!(program_size(&p), 0);
    p.add_node(sum);
    p.add_node(neg);
    p.add_node(one);
    assert_eq!(program_size(&p), 8);
}
