use eidos::assoc::AssocMap;
use eidos::error::{EidosError, ErrorCollector, SourceError, SourceLocation};
use eidos::types::{Type, TypeEnvironment, TypeIdSource, TypeKind, TypeId};
use eidos::symbol::SymbolId;

#[test]
fn assoc_map_keeps_insertion_order() {
    let mut m: AssocMap<String, u32> = AssocMap::new();
    m.insert("b".to_string(), 1);
    m.insert("a".to_string(), 2);
    m.insert("b".to_string(), 3);
    assert_eq!(m.get(&"b".to_string()), Some(&3));
    assert_eq!(m.keys(), vec!["b".to_string(), "a".to_string()]);
    assert_eq!(m.replace("a".to_string(), 5), Some(2));
    assert!(m.remove(&"b".to_string()));
    assert!(!m.remove(&"b".to_string()));
    assert!(!m.contains_key(&"b".to_string()));
    assert_eq!(m.keys(), vec!["a".to_string()]);
}

#[test]
fn error_messages() {
    assert_eq!(EidosError::LexerError("x".to_string()).message(), "字句解析エラー: x");
    assert_eq!(EidosError::TypeError("y".to_string()).message(), "型エラー: y");
    assert_eq!(EidosError::MultipleErrors(vec![]).message(), "複合エラー: 複数の問題が検出されました");
}

#[test]
fn source_location_text() {
    let l = SourceLocation::new("a.eid".to_string(), 3, 7, 2);
    assert_eq!(l.to_string(), "a.eid:3:7");
    assert_eq!(SourceLocation::unknown().to_string(), "<unknown>:0:0");
}

#[test]
fn source_error_texts() {
    let e = SourceError::new(EidosError::ParserError("bad".to_string()), "src".to_string(), (0, 1), None, 4, 2);
    assert_eq!(e.file_display(), "<unknown>");
    assert_eq!(e.with_location(), "<unknown>:4: 構文解析エラー: bad");
    let e = SourceError::new(EidosError::DSLError("d".to_string()), "src".to_string(), (0, 1), Some("f.eid".to_string()), 1, 1);
    assert_eq!(e.with_location(), "f.eid:1: DSLエラー: d");
}

#[test]
fn error_collector_cases() {
    let c = ErrorCollector::new();
    assert!(!c.has_errors());
    assert!(c.into_error().is_none());

    let mut c = ErrorCollector::new();
    c.add(EidosError::IOError("io".to_string()));
    assert_eq!(c.count(), 1);
    match c.into_error() {
        Some(EidosError::IOError(m)) => assert_eq!(m, "io"),
        other => panic!("unexpected {:?}", other),
    }

    let mut c = ErrorCollector::new();
    c.add(EidosError::TypeError("a".to_string()));
    c.add(EidosError::TypeError("b".to_string()));
    assert_eq!(c.all_errors().len(), 2);
    match c.into_error() {
        Some(EidosError::MultipleErrors(v)) => assert_eq!(v.len(), 2),
        other => panic!("unexpected {:?}", other),
    }
}

#[test]
fn type_environment_builtins() {
    let mut ids = TypeIdSource::new();
    let mut env = TypeEnvironment::new(&mut ids);
    assert_eq!(env.get_type_by_name("int").unwrap().kind, TypeKind::Int);
    assert_eq!(env.get_type_by_name("string").unwrap().id, TypeId(5));
    assert!(env.get_type_by_name("nothing").is_none());
    let t = Type::type_ref("Point".to_string(), &mut ids);
    let id = env.register_type("Point".to_string(), t);
    assert_eq!(id, TypeId(6));
    env.set_symbol_type(SymbolId(0), id);
    assert_eq!(env.get_symbol_type(SymbolId(0)).unwrap().id, TypeId(6));
    assert!(env.get_symbol_type(SymbolId(1)).is_none());
    assert_eq!(env.get_type_by_id(TypeId(2)).unwrap().kind, TypeKind::Int);
}

#[test]
fn type_display() {
    let mut ids = TypeIdSource::new();
    let i = Type::integer(&mut ids);
    let b = Type::bool(&mut ids);
    let f = Type::function(vec![i, b], Type::unit(&mut ids), &mut ids);
    assert_eq!(f.to_string(), "(int, bool) -> ()");
    let a = Type::array(Type::string(&mut ids), &mut ids);
    assert_eq!(a.to_string(), "[string]");
    let t = Type::tuple(vec![Type::char(&mut ids), Type::float(&mut ids)], &mut ids);
    assert_eq!(t.to_string(), "(char, float)");
    assert_eq!(Type::unknown(&mut ids).to_string(), "?");
    assert_eq!(Type::error(&mut ids).to_string(), "<error>");
    assert_eq!(TypeId(3).to_string(), "Type(3)");
}

#[test]
fn type_ids_are_fresh() {
    let mut ids = TypeIdSource::new();
    let a = Type::integer(&mut ids);
    let b = Type::integer(&mut ids);
    assert_eq!(a.id, TypeId(0));
    assert_eq!(b.id, TypeId(1));
}
