use eidos::ast::{Literal, Node, NodeId, TypeInfo};
use eidos::error::EidosError;
use eidos::lexer::Lexer;
use eidos::parser::Parser;

fn parse(src: &str) -> Result<eidos::ast::Program, EidosError> {
    let mut lexer = Lexer::new(src, "p.eid".to_string());
    let tokens = lexer.tokenize().expect("lexing succeeds");
    let mut parser = Parser::new(tokens, "p.eid".to_string());
    parser.parse()
}

#[test]
fn parses_literal_sequence() {
    let program = parse("42 \"s\" true false").unwrap();
    assert_eq!(program.file_path, "p.eid");
    assert_eq!(program.nodes, vec![NodeId(0), NodeId(1), NodeId(2), NodeId(3)]);
    let n0 = program.get_node(NodeId(0)).unwrap();
    assert_eq!(n0.kind, Node::Literal(Literal::Int(42)));
    assert_eq!(n0.type_info, TypeInfo::Unknown);
    assert_eq!((n0.location.line, n0.location.column, n0.location.length), (1, 1, 2));
    assert_eq!(program.get_node(NodeId(1)).unwrap().kind, Node::Literal(Literal::String("s".to_string())));
    assert_eq!(program.get_node(NodeId(2)).unwrap().kind, Node::Literal(Literal::Bool(true)));
    assert_eq!(program.get_node(NodeId(3)).unwrap().kind, Node::Literal(Literal::Bool(false)));
    assert!(program.get_node(NodeId(4)).is_none());
}

#[test]
fn empty_program() {
    let program = parse("  ").unwrap();
    assert!(program.nodes.is_empty());
}

#[test]
fn non_literal_is_an_error() {
    match parse("1 x") {
        Err(EidosError::ParserError(m)) => assert_eq!(m, "p.eid:1:3: 式を解析できません: Identifier(\"x\")"),
        other => panic!("unexpected {:?}", other),
    }
    match parse("+") {
        Err(EidosError::ParserError(m)) => assert_eq!(m, "p.eid:1:1: 式を解析できません: Plus"),
        other => panic!("unexpected {:?}", other),
    }
}
