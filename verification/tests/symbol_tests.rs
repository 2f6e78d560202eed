use eidos::symbol::{ScopeId, ScopeKind, SymbolId, SymbolKind, SymbolTable};

#[test]
fn declare_and_lookup() {
    let mut t = SymbolTable::new();
    let x = t.declare_symbol("x".to_string(), SymbolKind::Variable, false, false).unwrap();
    assert_eq!(x, SymbolId(0));
    assert_eq!(t.lookup_symbol("x"), Some(x));
    assert_eq!(t.lookup_symbol("y"), None);
    assert_eq!(t.get_symbol(x).unwrap().name, "x");
    assert_eq!(t.get_symbol(x).unwrap().scope_id, ScopeId(0));
}

#[test]
fn duplicate_declaration_is_refused() {
    let mut t = SymbolTable::new();
    t.declare_symbol("x".to_string(), SymbolKind::Variable, false, false).unwrap();
    assert_eq!(
        t.declare_symbol("x".to_string(), SymbolKind::Function, false, false),
        Err("シンボル 'x' は現在のスコープですでに宣言されています".to_string())
    );
}

#[test]
fn shadowing_and_leaving_a_scope() {
    let mut t = SymbolTable::new();
    let outer = t.declare_symbol("x".to_string(), SymbolKind::Variable, false, false).unwrap();
    let scope = t.enter_scope(ScopeKind::Block);
    assert_eq!(scope, ScopeId(1));
    assert_eq!(t.lookup_symbol("x"), Some(outer));
    let inner = t.declare_symbol("x".to_string(), SymbolKind::Variable, true, false).unwrap();
    let only_inner = t.declare_symbol("y".to_string(), SymbolKind::Variable, true, false).unwrap();
    assert_eq!(t.lookup_symbol("x"), Some(inner));
    assert_eq!(t.lookup_symbol("y"), Some(only_inner));
    assert_eq!(t.exit_scope(), Ok(()));
    assert_eq!(t.current_scope_id(), ScopeId(0));
    assert_eq!(t.lookup_symbol("x"), Some(outer));
    assert_eq!(t.lookup_symbol("y"), None);
}

#[test]
fn leaving_the_global_scope_fails() {
    let mut t = SymbolTable::new();
    assert_eq!(t.exit_scope(), Err("グローバルスコープから抜けることはできません".to_string()));
    assert_eq!(t.current_scope_id(), ScopeId(0));
}

#[test]
fn scopes_and_ids() {
    let mut t = SymbolTable::new();
    let s = t.create_scope(ScopeKind::Function, Some(ScopeId(0)));
    assert_eq!(s, ScopeId(1));
    assert_eq!(t.current_scope_id(), ScopeId(0));
    assert_eq!(t.get_scope(s).unwrap().parent, Some(ScopeId(0)));
    assert!(t.get_scope(ScopeId(5)).is_none());
    assert_eq!(t.scope_count(), 2);
    assert_eq!(SymbolId(3).to_string(), "Symbol(3)");
    assert_eq!(ScopeId(4).to_string(), "Scope(4)");
}

#[test]
fn scope_with_a_parent_that_does_not_exist() {
    let mut t = SymbolTable::new();
    let x = t.declare_symbol("x".to_string(), SymbolKind::Variable, false, false).unwrap();
    let s = t.create_scope(ScopeKind::Block, Some(ScopeId(99)));
    assert_eq!(s, ScopeId(1));
    assert_eq!(t.get_scope(s).unwrap().parent, Some(ScopeId(99)));
    assert_eq!(t.current_scope_id(), ScopeId(0));
    assert_eq!(t.lookup_symbol("x"), Some(x));
    let inner = t.enter_scope(ScopeKind::Function);
    assert_eq!(inner, ScopeId(2));
    assert_eq!(t.lookup_symbol("x"), Some(x));
    assert_eq!(t.exit_scope(), Ok(()));
    assert_eq!(t.current_scope_id(), ScopeId(0));
}
