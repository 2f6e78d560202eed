use eidos::eir::Module;
use eidos::language_def::{
    CodeGenerator, ConditionalConstruct, ControlFlowDefinition, LanguageDefinition, LoopConstruct,
    SemanticsRule, SyntaxRule,
};
use eidos::syntax::{non_terminal, rule, terminal, Associativity, ProductionRule, SyntaxDefinition};
use eidos::type_system::{dynamic_typing, static_typing, InferenceAlgorithm, PrimitiveType, Type, TypeSystemImpl};

fn syntax_rule() -> SyntaxRule {
    SyntaxRule { productions: vec![ProductionRule::new("cond")], precedence: 0, associativity: None }
}

#[test]
fn standard_control_flow_is_valid() {
    let d = ControlFlowDefinition::standard();
    assert!(d.validate().is_ok());
    assert!(d.get_conditional("if-else").is_some());
    assert!(d.get_loop("while").is_some());
    assert!(d.get_loop("repeat").is_none());
}

#[test]
fn duplicate_construct_is_refused() {
    let mut d = ControlFlowDefinition::new();
    let c = ConditionalConstruct { name: "if".to_string(), syntax: syntax_rule(), evaluation: SemanticsRule::new("eval") };
    assert!(d.add_conditional(c).is_ok());
    let again = LoopConstruct {
        name: "if".to_string(),
        syntax: syntax_rule(),
        evaluation: SemanticsRule::new("eval"),
        early_exit: false,
        continuation: false,
    };
    let err = d.add_loop(again).unwrap_err();
    assert_eq!(err.message, "制御フロー構造名 'if' が既に存在します");
    let empty = ConditionalConstruct {
        name: "when".to_string(),
        syntax: SyntaxRule { productions: vec![], precedence: 0, associativity: None },
        evaluation: SemanticsRule::new("eval"),
    };
    assert_eq!(d.add_conditional(empty).unwrap_err().message, "構文ルールが定義されていません");
}

#[test]
fn syntax_validation_messages() {
    let mut s = SyntaxDefinition::new();
    s.add_token("", "x", 1);
    s.add_rule(rule("expr", vec![vec![non_terminal("expr"), terminal("+")], vec![non_terminal("term")]]));
    let errs = s.validate().unwrap_err();
    let msgs: Vec<String> = errs.iter().map(|d| d.message.clone()).collect();
    assert!(msgs.contains(&"Token name cannot be empty".to_string()));
    assert!(msgs.contains(&"Reference to undefined non-terminal: 'term'".to_string()));
    assert!(msgs.contains(&"Grammar must define a 'start' rule".to_string()));
    assert!(msgs.contains(&"Left recursion detected in rule: 'expr'".to_string()));
}

#[test]
fn valid_syntax_definition() {
    let mut s = SyntaxDefinition::new();
    s.add_token("NUM", "[0-9]+", 1);
    s.add_keyword("let");
    s.add_operator("+", 10, Associativity::Left);
    s.add_rule(rule("start", vec![vec![terminal("NUM")]]));
    assert!(s.validate().is_ok());
}

#[test]
fn new_language_needs_a_start_rule() {
    let d = LanguageDefinition::new("lang");
    assert_eq!(d.version, "0.1.0");
    let errs = d.validate().unwrap_err();
    assert!(errs.iter().any(|e| e.message == "Grammar must define a 'start' rule"));
}

#[test]
fn code_generator_targets() {
    let d = LanguageDefinition::new("lang");
    let g = CodeGenerator::new(&d);
    let m = Module::new("m");
    assert_eq!(g.generate_code("llvm", &m), Ok(vec![]));
    assert_eq!(g.generate_code("x86", &m), Err("サポートされていないターゲット: x86".to_string()));
}

#[test]
fn type_system_presets() {
    let s = static_typing();
    assert_eq!(s.inference_algorithm, InferenceAlgorithm::HindleyMilner);
    assert_eq!(s.base_types.len(), 11);
    assert!(s.validate().is_ok());
    let d = dynamic_typing();
    assert_eq!(d.base_types.len(), 1);
}

#[test]
fn indirect_left_recursion_is_reported() {
    let mut s = SyntaxDefinition::new();
    s.add_rule(rule("start", vec![vec![non_terminal("A")]]));
    s.add_rule(rule("A", vec![vec![non_terminal("B"), terminal("x")]]));
    s.add_rule(rule("B", vec![vec![non_terminal("A"), terminal("y")]]));
    let errs = s.validate().unwrap_err();
    let msgs: Vec<String> = errs.iter().map(|d| d.message.clone()).collect();
    assert_eq!(
        msgs,
        vec![
            "Left recursion detected in rule: 'A'".to_string(),
            "Left recursion detected in rule: 'B'".to_string(),
        ]
    );
}

#[test]
fn base_types_behave_as_a_set() {
    let int = || Type::Primitive(PrimitiveType::Integer { bits: 64, signed: true });
    let named = || Type::Named("Point".to_string());
    let once = TypeSystemImpl::new(InferenceAlgorithm::Local).add_base_type(int());
    let twice = TypeSystemImpl::new(InferenceAlgorithm::Local).add_base_type(int()).add_base_type(int());
    assert_eq!(format!("{:?}", once.base_types), format!("{:?}", twice.base_types));
    assert_eq!(twice.base_types.len(), 1);
    let ab = TypeSystemImpl::new(InferenceAlgorithm::Local).add_base_type(int()).add_base_type(named());
    let ba = TypeSystemImpl::new(InferenceAlgorithm::Local).add_base_type(named()).add_base_type(int());
    assert_eq!(ab.base_types.len(), 2);
    assert_eq!(ba.base_types.len(), 2);
    let shown = |t: &Type| format!("{:?}", t);
    let mut xs: Vec<String> = ab.base_types.iter().map(shown).collect();
    let mut ys: Vec<String> = ba.base_types.iter().map(shown).collect();
    xs.sort();
    ys.sort();
    assert_eq!(xs, ys);
}
