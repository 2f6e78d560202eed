use eidos::ast::{ASTNode, FunctionParam, Literal, Node, NodeId, NodeIdSource, Program};
use eidos::error::{EidosError, SourceLocation};
use eidos::semantic::SemanticAnalyzer;
use eidos::symbol::SymbolId;

fn at(line: usize, column: usize, kind: Node, ids: &mut NodeIdSource) -> ASTNode {
    ASTNode::new(kind, SourceLocation::new("s.eid".to_string(), line, column, 1), ids)
}

fn ident(name: &str, ids: &mut NodeIdSource) -> ASTNode {
    at(1, 1, Node::Identifier { name: name.to_string(), symbol: None }, ids)
}

fn lit_int(v: i64, ids: &mut NodeIdSource) -> ASTNode {
    at(1, 1, Node::Literal(Literal::Int(v)), ids)
}

fn var(name: &str, init: Option<ASTNode>, is_mutable: bool, ids: &mut NodeIdSource) -> ASTNode {
    at(
        1,
        1,
        Node::VarDecl {
            name: name.to_string(),
            symbol: None,
            type_annotation: None,
            initializer: init.map(Box::new),
            is_mutable,
        },
        ids,
    )
}

fn block(statements: Vec<ASTNode>, result: Option<ASTNode>, ids: &mut NodeIdSource) -> ASTNode {
    at(1, 1, Node::BlockExpr { statements, result: result.map(Box::new) }, ids)
}

fn function(name: &str, params: &[&str], body: ASTNode, ids: &mut NodeIdSource) -> ASTNode {
    let params = params
        .iter()
        .map(|p| FunctionParam { name: p.to_string(), symbol: None, param_type: None })
        .collect();
    at(1, 1, Node::FunctionDef { name: name.to_string(), symbol: None, params, return_type: None, body: Box::new(body) }, ids)
}

fn call(callee: &str, args: Vec<ASTNode>, ids: &mut NodeIdSource) -> ASTNode {
    let c = ident(callee, ids);
    at(1, 1, Node::FunctionCall { callee: Box::new(c), args }, ids)
}

fn program(nodes: Vec<ASTNode>) -> Program {
    let mut p = Program::new("s.eid".to_string());
    for n in nodes {
        p.add_node(n);
    }
    p
}

fn semantic_error(r: Result<Program, EidosError>) -> String {
    match r {
        Err(EidosError::SemanticError(m)) => m,
        other => panic!("expected a semantic error, got {:?}", other.map(|_| ())),
    }
}

#[test]
fn identifiers_are_bound_to_their_declarations() {
    let mut ids = NodeIdSource::new();
    let decl = var("x", Some(lit_int(1, &mut ids)), false, &mut ids);
    let decl_id = decl.id;
    let use_x = ident("x", &mut ids);
    let use_id = use_x.id;
    let body = block(vec![decl], Some(use_x), &mut ids);
    let f = function("f", &["a"], body, &mut ids);
    let f_id = f.id;
    let c = call("f", vec![lit_int(2, &mut ids)], &mut ids);
    let callee_id = match &c.kind {
        Node::FunctionCall { callee, .. } => callee.id,
        _ => unreachable!(),
    };
    let mut an = SemanticAnalyzer::new();
    assert!(an.analyze(program(vec![f, c])).is_ok());
    assert_eq!(an.node_symbol(f_id), Some(SymbolId(0)));
    assert_eq!(an.node_symbol(callee_id), Some(SymbolId(0)));
    assert_eq!(an.node_symbol(decl_id), Some(SymbolId(2)));
    assert_eq!(an.node_symbol(use_id), Some(SymbolId(2)));
    assert_eq!(an.node_symbol(NodeId(999)), None);
}

#[test]
fn functions_may_refer_to_each_other() {
    let mut ids = NodeIdSource::new();
    let body_a = call("b", vec![], &mut ids);
    let a = function("a", &[], body_a, &mut ids);
    let body_b = call("a", vec![], &mut ids);
    let b = function("b", &[], body_b, &mut ids);
    let mut an = SemanticAnalyzer::new();
    assert!(an.analyze(program(vec![a, b])).is_ok());
}

#[test]
fn parameters_are_visible_in_the_body() {
    let mut ids = NodeIdSource::new();
    let body = ident("p", &mut ids);
    let f = function("f", &["p"], body, &mut ids);
    let mut an = SemanticAnalyzer::new();
    assert!(an.analyze(program(vec![f])).is_ok());
}

#[test]
fn undefined_identifier() {
    let mut ids = NodeIdSource::new();
    let y = at(3, 5, Node::Identifier { name: "y".to_string(), symbol: None }, &mut ids);
    let mut an = SemanticAnalyzer::new();
    assert_eq!(semantic_error(an.analyze(program(vec![y]))), "s.eid:3:5: 未定義の識別子: y");
}

#[test]
fn assignment_to_an_immutable_variable() {
    let mut ids = NodeIdSource::new();
    let decl = var("x", None, false, &mut ids);
    let target = ident("x", &mut ids);
    let value = lit_int(2, &mut ids);
    let asg = at(4, 2, Node::Assignment { target: Box::new(target), value: Box::new(value) }, &mut ids);
    let mut an = SemanticAnalyzer::new();
    assert_eq!(
        semantic_error(an.analyze(program(vec![decl, asg]))),
        "s.eid:4:2: イミュータブルな変数に代入しようとしています: x"
    );
}

#[test]
fn assignment_to_a_mutable_variable() {
    let mut ids = NodeIdSource::new();
    let decl = var("x", None, true, &mut ids);
    let target = ident("x", &mut ids);
    let value = lit_int(2, &mut ids);
    let asg = at(4, 2, Node::Assignment { target: Box::new(target), value: Box::new(value) }, &mut ids);
    let mut an = SemanticAnalyzer::new();
    assert!(an.analyze(program(vec![decl, asg])).is_ok());
}

#[test]
fn duplicate_declaration() {
    let mut ids = NodeIdSource::new();
    let b1 = lit_int(1, &mut ids);
    let f1 = function("f", &[], b1, &mut ids);
    let b2 = lit_int(2, &mut ids);
    let f2 = function("f", &[], b2, &mut ids);
    let mut an = SemanticAnalyzer::new();
    assert_eq!(
        semantic_error(an.analyze(program(vec![f1, f2]))),
        "<unknown>:0:0: シンボル 'f' は現在のスコープですでに宣言されています"
    );
}

#[test]
fn duplicate_parameter() {
    let mut ids = NodeIdSource::new();
    let body = lit_int(1, &mut ids);
    let f = function("f", &["a", "a"], body, &mut ids);
    let mut an = SemanticAnalyzer::new();
    assert_eq!(
        semantic_error(an.analyze(program(vec![f]))),
        "<unknown>:0:0: シンボル 'a' は現在のスコープですでに宣言されています"
    );
}

#[test]
fn block_declarations_stay_in_the_block() {
    let mut ids = NodeIdSource::new();
    let decl = var("x", Some(lit_int(1, &mut ids)), false, &mut ids);
    let b = block(vec![decl], None, &mut ids);
    let x = at(7, 3, Node::Identifier { name: "x".to_string(), symbol: None }, &mut ids);
    let mut an = SemanticAnalyzer::new();
    assert_eq!(semantic_error(an.analyze(program(vec![b, x]))), "s.eid:7:3: 未定義の識別子: x");
}

#[test]
fn inner_declarations_shadow_outer_ones() {
    let mut ids = NodeIdSource::new();
    let outer = var("x", None, false, &mut ids);
    let inner = var("x", None, true, &mut ids);
    let use_x = ident("x", &mut ids);
    let use_id = use_x.id;
    let b = block(vec![inner], Some(use_x), &mut ids);
    let mut an = SemanticAnalyzer::new();
    assert!(an.analyze(program(vec![outer, b])).is_ok());
    assert_eq!(an.node_symbol(use_id), Some(SymbolId(1)));
}

#[test]
fn missing_top_level_node() {
    let mut p = Program::new("s.eid".to_string());
    p.nodes.push(NodeId(41));
    let mut an = SemanticAnalyzer::new();
    match an.analyze(p) {
        Err(EidosError::InternalError(m)) => assert_eq!(m, "ノードが見つかりません: NodeId(41)"),
        other => panic!("unexpected {:?}", other.map(|_| ())),
    }
}

#[test]
fn fresh_analyzer() {
    let an = SemanticAnalyzer::new();
    assert_eq!(an.scope_count(), 1);
}
