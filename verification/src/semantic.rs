use vstd::prelude::*;

use crate::assoc::AssocMap;
use crate::ast::{ASTNode, FunctionParam, Node, NodeId, Program};
use crate::error::{location_text, EidosError};
use crate::symbol::{
    duplicate_symbol_message, exit_global_message, find_entry, Scope, ScopeId, ScopeKind, Symbol, SymbolId, SymbolKind,
    SymbolTable, SymbolTableModel,
};
use crate::type_checker::{lemma_nodes_count_step, lemma_program_count_step, missing_node_text, node_count, nodes_count, program_count};
use crate::util::{append_str, push_decimal, string_of};

verus! {

// ---------------------------------------------------------------------------
// The resolution rules.

/// What name resolution sees of a scope: its parent and its names in
/// declaration order.
pub struct ScopeView {
    pub parent: Option<ScopeId>,
    pub names: Seq<(Seq<char>, SymbolId)>,
}

/// The state of an analysis: the scopes, the current one, whether each
/// symbol is mutable, what kind each symbol is and whether it is exported
/// (by symbol id), and the symbol bound to each node (by node id). The scope
/// of a symbol is the one whose names hold it.
#[verifier::ext_equal]
pub struct Analysis {
    pub scopes: Seq<ScopeView>,
    pub current: ScopeId,
    pub mutable: Seq<bool>,
    pub kinds: Seq<SymbolKind>,
    pub exported: Seq<bool>,
    pub bound: Map<usize, SymbolId>,
}

/// What resolution sees of a scope of a symbol table.
pub open spec fn scope_view(s: Scope) -> ScopeView {
    ScopeView { parent: s.parent, names: s.symbols@.map_values(|e: (String, SymbolId)| (e.0@, e.1)) }
}

/// What resolution sees of a symbol table and a binding map.
pub open spec fn analysis_of(m: SymbolTableModel, bound: Map<usize, SymbolId>) -> Analysis {
    Analysis {
        scopes: m.scopes.map_values(|s: Scope| scope_view(s)),
        current: m.current,
        mutable: m.symbols.map_values(|s: Symbol| s.is_mutable),
        kinds: m.symbols.map_values(|s: Symbol| s.kind),
        exported: m.symbols.map_values(|s: Symbol| s.is_exported),
        bound,
    }
}

/// The symbol bound to `name` among the names of a scope; the latest wins.
pub open spec fn find_name(names: Seq<(Seq<char>, SymbolId)>, name: Seq<char>) -> Option<SymbolId>
    decreases names.len(),
{
    if names.len() == 0 {
        None
    } else if names.last().0 == name {
        Some(names.last().1)
    } else {
        find_name(names.drop_last(), name)
    }
}

/// The symbol `name` resolves to from scope `sid` outwards.
pub open spec fn lookup_in(a: Analysis, sid: int, name: Seq<char>) -> Option<SymbolId>
    decreases sid,
{
    if !(0 <= sid < a.scopes.len()) {
        None
    } else {
        match find_name(a.scopes[sid].names, name) {
            Some(id) => Some(id),
            None => match a.scopes[sid].parent {
                Some(p) => if p.0 < sid { lookup_in(a, p.0 as int, name) } else { None },
                None => None,
            },
        }
    }
}

/// Enters a new scope under the current one.
pub open spec fn enter(a: Analysis) -> Analysis {
    Analysis {
        scopes: a.scopes.push(ScopeView { parent: Some(a.current), names: seq![] }),
        current: ScopeId(a.scopes.len() as usize),
        ..a
    }
}

/// Leaves the current scope: its parent becomes current; the error text where it has none.
pub open spec fn leave(a: Analysis) -> (Analysis, Option<Seq<char>>) {
    match a.scopes[a.current.0 as int].parent {
        Some(p) => (Analysis { current: p, ..a }, None),
        None => (a, Some(unlocated(exit_global_message()))),
    }
}

/// An error text without a place.
pub open spec fn unlocated(msg: Seq<char>) -> Seq<char> {
    "<unknown>:0:0: "@ + msg
}

/// Declares `name` in the current scope as a symbol of kind `kind`, not
/// exported, with the next symbol id, and binds node `node` to it; the error
/// text where the current scope already declares it.
pub open spec fn declare(a: Analysis, name: Seq<char>, kind: SymbolKind, mutable: bool, node: Option<NodeId>) -> (Analysis, Option<Seq<char>>) {
    let c = a.current.0 as int;
    if find_name(a.scopes[c].names, name) is Some {
        (a, Some(unlocated(duplicate_symbol_message(name))))
    } else {
        let id = SymbolId(a.mutable.len() as usize);
        let sc = ScopeView { parent: a.scopes[c].parent, names: a.scopes[c].names.push((name, id)) };
        (Analysis {
            scopes: a.scopes.update(c, sc),
            mutable: a.mutable.push(mutable),
            kinds: a.kinds.push(kind),
            exported: a.exported.push(false),
            bound: match node {
                Some(n) => a.bound.insert(n.0, id),
                None => a.bound,
            },
            ..a
        }, None)
    }
}

/// Declares the parameters of a function in order, binding no node.
pub open spec fn declare_params(a: Analysis, ps: Seq<FunctionParam>) -> (Analysis, Option<Seq<char>>)
    decreases ps.len(),
{
    if ps.len() == 0 {
        (a, None)
    } else {
        let (a1, e) = declare(a, ps[0].name@, SymbolKind::Parameter, false, None);
        if e is Some { (a1, e) } else { declare_params(a1, ps.drop_first()) }
    }
}

/// A located error text.
pub open spec fn located(msg: Seq<char>, n: ASTNode) -> Seq<char> {
    location_text(n.location) + ": "@ + msg
}

/// Resolves the names of an expression: binds each identifier to the symbol
/// its name resolves to, declares variables, parameters, and functions and
/// types below the top level, and checks that assignments to a variable are
/// to a mutable one. Returns the state after it and the first error text.
/// Top-level functions and types are declared before, by `register_declarations`.
pub open spec fn resolve(a: Analysis, n: ASTNode, top: bool) -> (Analysis, Option<Seq<char>>)
    decreases n, 1int,
{
    match n.kind {
        Node::Literal(_) => (a, None),
        Node::Identifier { name, .. } => match lookup_in(a, a.current.0 as int, name@) {
            Some(id) => (Analysis { bound: a.bound.insert(n.id.0, id), ..a }, None),
            None => (a, Some(located("未定義の識別子: "@ + name@, n))),
        },
        Node::UnaryExpr { expr, .. } => resolve(a, *expr, false),
        Node::BinaryExpr { left, right, .. } => {
            let (a1, e) = resolve(a, *left, false);
            if e is Some { (a1, e) } else { resolve(a1, *right, false) }
        },
        Node::IfExpr { condition, then_branch, else_branch } => {
            let (a1, e1) = resolve(a, *condition, false);
            if e1 is Some {
                (a1, e1)
            } else {
                let (a2, e2) = resolve(a1, *then_branch, false);
                if e2 is Some {
                    (a2, e2)
                } else {
                    match else_branch {
                        Some(eb) => resolve(a2, *eb, false),
                        None => (a2, None),
                    }
                }
            }
        },
        Node::BlockExpr { statements, result } => {
            let (a1, e1) = resolve_seq(enter(a), statements@);
            if e1 is Some {
                (a1, e1)
            } else {
                let (a2, e2) = match result {
                    Some(r) => resolve(a1, *r, false),
                    None => (a1, None),
                };
                if e2 is Some { (a2, e2) } else { leave(a2) }
            }
        },
        Node::VarDecl { name, initializer, is_mutable, .. } => {
            let (a1, e1) = declare(a, name@, SymbolKind::Variable, is_mutable, Some(n.id));
            if e1 is Some {
                (a1, e1)
            } else {
                match initializer {
                    Some(i) => resolve(a1, *i, false),
                    None => (a1, None),
                }
            }
        },
        Node::FunctionDef { name, params, body, .. } => {
            let (a1, e1) = if top { (a, None) } else { declare(a, name@, SymbolKind::Function, false, Some(n.id)) };
            if e1 is Some {
                (a1, e1)
            } else {
                let (a2, e2) = declare_params(enter(a1), params@);
                if e2 is Some {
                    (a2, e2)
                } else {
                    let (a3, e3) = resolve(a2, *body, false);
                    if e3 is Some { (a3, e3) } else { leave(a3) }
                }
            }
        },
        Node::FunctionCall { callee, args } => {
            let (a1, e1) = resolve(a, *callee, false);
            if e1 is Some { (a1, e1) } else { resolve_seq(a1, args@) }
        },
        Node::Assignment { target, value } => {
            let (a1, e1) = resolve(a, *target, false);
            if e1 is Some {
                (a1, e1)
            } else {
                let immutable = match target.kind {
                    Node::Identifier { name, .. } => match lookup_in(a1, a1.current.0 as int, name@) {
                        Some(id) => !a1.mutable[id.0 as int],
                        None => false,
                    },
                    _ => false,
                };
                if immutable {
                    let name = target.kind->Identifier_name;
                    (a1, Some(located("イミュータブルな変数に代入しようとしています: "@ + name@, n)))
                } else {
                    resolve(a1, *value, false)
                }
            }
        },
        Node::WhileLoop { condition, body } => {
            let (a1, e1) = resolve(a, *condition, false);
            if e1 is Some { (a1, e1) } else { resolve(a1, *body, false) }
        },
        Node::TypeDef { name, .. } => if top { (a, None) } else { declare(a, name@, SymbolKind::Type, false, Some(n.id)) },
        Node::DSLBlock { .. } => (a, None),
    }
}

/// Resolves a list of expressions in order, stopping at the first error.
pub open spec fn resolve_seq(a: Analysis, ss: Seq<ASTNode>) -> (Analysis, Option<Seq<char>>)
    decreases ss, 0int,
{
    if ss.len() == 0 {
        (a, None)
    } else {
        let (a1, e) = resolve(a, ss[0], false);
        if e is Some { (a1, e) } else { resolve_seq(a1, ss.drop_first()) }
    }
}



/// Why analysing a program stopped.
pub enum SemFailure {
    /// A top-level node id with no node.
    Missing(NodeId),
    /// A semantic error, as its text.
    Semantic(Seq<char>),
}

/// Declares the top-level functions and types of `ids` in order, each bound
/// to its node id, before anything else is resolved, so that they can refer
/// to each other.
pub open spec fn register_decls(a: Analysis, ids: Seq<NodeId>, map: Map<usize, ASTNode>) -> (Analysis, Option<SemFailure>)
    decreases ids.len(),
{
    if ids.len() == 0 {
        (a, None)
    } else {
        let id = ids[0];
        if !map.contains_key(id.0) {
            (a, Some(SemFailure::Missing(id)))
        } else {
            let (a1, e) = match map[id.0].kind {
                Node::FunctionDef { name, .. } => declare(a, name@, SymbolKind::Function, false, Some(id)),
                Node::TypeDef { name, .. } => declare(a, name@, SymbolKind::Type, false, Some(id)),
                _ => (a, None),
            };
            match e {
                Some(t) => (a1, Some(SemFailure::Semantic(t))),
                None => register_decls(a1, ids.drop_first(), map),
            }
        }
    }
}

/// Resolves the top-level nodes of `ids` in order.
pub open spec fn analyze_nodes(a: Analysis, ids: Seq<NodeId>, map: Map<usize, ASTNode>) -> (Analysis, Option<SemFailure>)
    decreases ids.len(),
{
    if ids.len() == 0 {
        (a, None)
    } else {
        let id = ids[0];
        if !map.contains_key(id.0) {
            (a, Some(SemFailure::Missing(id)))
        } else {
            let (a1, e) = resolve(a, map[id.0], true);
            match e {
                Some(t) => (a1, Some(SemFailure::Semantic(t))),
                None => analyze_nodes(a1, ids.drop_first(), map),
            }
        }
    }
}

/// Analyses a program: in a new scope, declares its top-level functions and
/// types, resolves its top-level nodes in order, and leaves the scope.
pub open spec fn analyze_program(a: Analysis, ids: Seq<NodeId>, map: Map<usize, ASTNode>) -> (Analysis, Option<SemFailure>) {
    let (a1, f1) = register_decls(enter(a), ids, map);
    if f1 is Some {
        (a1, f1)
    } else {
        let (a2, f2) = analyze_nodes(a1, ids, map);
        if f2 is Some {
            (a2, f2)
        } else {
            match leave(a2) {
                (a3, Some(t)) => (a3, Some(SemFailure::Semantic(t))),
                (a3, None) => (a3, None),
            }
        }
    }
}

// ---------------------------------------------------------------------------
// The symbol table seen through the rules.

proof fn lemma_find_name(entries: Seq<(String, SymbolId)>, name: Seq<char>)
    ensures
        find_name(entries.map_values(|e: (String, SymbolId)| (e.0@, e.1)), name) == find_entry(entries, name),
    decreases entries.len(),
{
    let v = entries.map_values(|e: (String, SymbolId)| (e.0@, e.1));
    if entries.len() > 0 {
        assert(v.drop_last() =~= entries.drop_last().map_values(|e: (String, SymbolId)| (e.0@, e.1)));
        lemma_find_name(entries.drop_last(), name);
    }
}

proof fn lemma_lookup(m: SymbolTableModel, b: Map<usize, SymbolId>, sid: int, name: Seq<char>)
    ensures
        lookup_in(analysis_of(m, b), sid, name) == m.lookup_from(sid, name),
    decreases sid,
{
    let a = analysis_of(m, b);
    if 0 <= sid < m.scopes.len() {
        lemma_find_name(m.scopes[sid].symbols@, name);
        assert(a.scopes[sid] == scope_view(m.scopes[sid]));
        match m.scopes[sid].parent {
            Some(p) => if p.0 < sid {
                lemma_lookup(m, b, p.0 as int, name);
            },
            None => {},
        }
    }
}

proof fn lemma_lookup_from_bound(m: SymbolTableModel, sid: int, name: Seq<char>)
    requires
        m.wf(),
    ensures
        m.lookup_from(sid, name) matches Some(id) ==> id.0 < m.symbols.len(),
    decreases sid,
{
    if 0 <= sid < m.scopes.len() {
        crate::symbol::lemma_find_entry_some_pub(m.scopes[sid].symbols@, name);
        match find_entry(m.scopes[sid].symbols@, name) {
            Some(id) => {
                let j = choose|j: int| 0 <= j < m.scopes[sid].symbols@.len()
                    && (#[trigger] m.scopes[sid].symbols@[j]).0@ == name && m.scopes[sid].symbols@[j].1 == id;
                assert(m.scopes[sid].symbols@[j].1.0 < m.symbols.len());
            },
            None => match m.scopes[sid].parent {
                Some(p) => if p.0 < sid {
                    lemma_lookup_from_bound(m, p.0 as int, name);
                },
                None => {},
            },
        }
    }
}

proof fn lemma_lookup_bound(m: SymbolTableModel, b: Map<usize, SymbolId>, sid: int, name: Seq<char>)
    requires
        m.wf(),
    ensures
        lookup_in(analysis_of(m, b), sid, name) matches Some(id) ==> id.0 < analysis_of(m, b).mutable.len(),
{
    lemma_lookup(m, b, sid, name);
    lemma_lookup_from_bound(m, sid, name);
    assert(analysis_of(m, b).mutable.len() == m.symbols.len());
}

// ---------------------------------------------------------------------------
// The analyzer.

/// Resolves names over a program, with a symbol table, and records the
/// symbol each node is bound to.
pub struct SemanticAnalyzer {
    symbol_table: SymbolTable,
    node_symbols: AssocMap<NodeId, SymbolId>,
}

impl View for SemanticAnalyzer {
    type V = Analysis;

    closed spec fn view(&self) -> Analysis {
        analysis_of(self.symbol_table@, self.node_symbols@)
    }
}

impl SemanticAnalyzer {
    /// Whether the symbol table is well formed.
    pub closed spec fn wf(&self) -> bool {
        self.symbol_table@.wf()
    }

    /// An analyzer with only the global scope, which is current, and no bindings.
    pub fn new() -> (s: Self)
        ensures
            s.wf(),
            s@.scopes == seq![ScopeView { parent: None, names: seq![] }],
            s@.current == ScopeId(0),
            s@.mutable == Seq::<bool>::empty(),
            s@.kinds == Seq::<SymbolKind>::empty(),
            s@.exported == Seq::<bool>::empty(),
            s@.bound == Map::<usize, SymbolId>::empty(),
    {
        let s = SemanticAnalyzer { symbol_table: SymbolTable::new(), node_symbols: AssocMap::new() };
        proof {
            assert(s@.scopes[0].names =~= Seq::<(Seq<char>, SymbolId)>::empty());
            assert(s@.scopes[0] =~= ScopeView { parent: None, names: seq![] });
            assert(s@.scopes =~= seq![ScopeView { parent: None, names: seq![] }]);
            assert(s@.mutable =~= Seq::<bool>::empty());
            assert(s@.kinds =~= Seq::<SymbolKind>::empty());
            assert(s@.exported =~= Seq::<bool>::empty());
        }
        s
    }

    /// The symbol node `id` was bound to, if any.
    pub fn node_symbol(&self, id: NodeId) -> (r: Option<SymbolId>)
        ensures
            r == (if self@.bound.contains_key(id.0) { Some(self@.bound[id.0]) } else { None }),
    {
        match self.node_symbols.get(&id) {
            Some(s) => Some(*s),
            None => None,
        }
    }

    /// The number of scopes made so far.
    pub fn scope_count(&self) -> (n: usize)
        ensures
            n == self@.scopes.len(),
    {
        self.symbol_table.scope_count()
    }

    /// Enters a new scope of the given kind under the current one.
    fn enter_scope(&mut self, kind: ScopeKind)
        requires
            old(self).wf(),
            old(self)@.scopes.len() < usize::MAX,
        ensures
            final(self).wf(),
            final(self)@ == enter(old(self)@),
    {
        let ghost m0 = self.symbol_table@;
        self.symbol_table.enter_scope(kind);
        proof {
            let m1 = self.symbol_table@;
            let a1 = self@;
            let a2 = enter(old(self)@);
            assert(m1.scopes.subrange(0, m0.scopes.len() as int) == m0.scopes);
            assert forall|i: int| 0 <= i < a1.scopes.len() implies a1.scopes[i] == a2.scopes[i] by {
                if i < m0.scopes.len() {
                    assert(m1.scopes[i] == m1.scopes.subrange(0, m0.scopes.len() as int)[i]);
                } else {
                    assert(scope_view(m1.scopes[i]).names =~= Seq::<(Seq<char>, SymbolId)>::empty());
                }
            }
            assert(a1.scopes =~= a2.scopes);
            assert(a1.mutable =~= a2.mutable);
            assert(a1.kinds =~= a2.kinds);
            assert(a1.exported =~= a2.exported);
            assert(a1 =~= a2);
        }
    }

    /// Leaves the current scope; fails where it has no parent.
    fn exit_scope(&mut self) -> (r: Result<(), EidosError>)
        requires
            old(self).wf(),
        ensures
            final(self).wf(),
            final(self)@ == leave(old(self)@).0,
            match leave(old(self)@).1 {
                None => r is Ok,
                Some(t) => r matches Err(EidosError::SemanticError(m)) && m@ == t,
            },
    {
        let ghost m0 = self.symbol_table@;
        let r = self.symbol_table.exit_scope();
        proof {
            assert(old(self)@.scopes[m0.current.0 as int] == scope_view(m0.scopes[m0.current.0 as int]));
            let a1 = self@;
            let a2 = leave(old(self)@).0;
            assert(a1.scopes =~= a2.scopes);
            assert(a1.mutable =~= a2.mutable);
            assert(a1.kinds =~= a2.kinds);
            assert(a1.exported =~= a2.exported);
            assert(a1 =~= a2);
        }
        match r {
            Ok(()) => Ok(()),
            Err(msg) => {
                let mut t = string_of("<unknown>:0:0: ");
                append_str(&mut t, msg.as_str());
                Err(EidosError::SemanticError(t))
            },
        }
    }

    /// Declares `name` in the current scope and binds node `node`, if given, to it.
    fn declare_name(&mut self, name: &String, kind: SymbolKind, mutable: bool, node: Option<NodeId>) -> (r: Result<(), EidosError>)
        requires
            old(self).wf(),
        ensures
            final(self).wf(),
            final(self)@ == declare(old(self)@, name@, kind, mutable, node).0,
            final(self)@.scopes.len() == old(self)@.scopes.len(),
            match declare(old(self)@, name@, kind, mutable, node).1 {
                None => r is Ok,
                Some(t) => r matches Err(EidosError::SemanticError(m)) && m@ == t,
            },
    {
        let ghost m0 = self.symbol_table@;
        let ghost c = m0.current.0 as int;
        proof {
            lemma_find_name(m0.scopes[c].symbols@, name@);
            assert(old(self)@.scopes[c] == scope_view(m0.scopes[c]));
        }
        let r = self.symbol_table.declare_symbol(name.clone(), kind, mutable, false);
        match r {
            Ok(id) => {
                match node {
                    Some(n) => {
                        self.node_symbols.insert(n, id);
                    },
                    None => {},
                }
                proof {
                    let m1 = self.symbol_table@;
                    let a1 = self@;
                    let a2 = declare(old(self)@, name@, kind, mutable, node).0;
                    assert forall|i: int| 0 <= i < a1.scopes.len() implies a1.scopes[i] == a2.scopes[i] by {
                        if i == c {
                            assert(scope_view(m1.scopes[c]).names =~= scope_view(m0.scopes[c]).names.push((name@, id)));
                            assert(scope_view(m1.scopes[c]) =~= a2.scopes[c]);
                        } else {
                            assert(m1.scopes[i] == m0.scopes[i]);
                        }
                    }
                    assert(a1.scopes =~= a2.scopes);
                    assert(a1.mutable =~= a2.mutable);
                    assert(a1.kinds =~= a2.kinds);
                    assert(a1.exported =~= a2.exported);
            assert(a1.kinds =~= a2.kinds);
            assert(a1.exported =~= a2.exported);
                    assert(a1.bound =~= a2.bound);
                    assert(a1 =~= a2);
                }
                Ok(())
            },
            Err(msg) => {
                let mut t = string_of("<unknown>:0:0: ");
                append_str(&mut t, msg.as_str());
                Err(EidosError::SemanticError(t))
            },
        }
    }

    /// The symbol `name` resolves to from the current scope.
    fn resolve_identifier(&self, name: &String) -> (r: Option<SymbolId>)
        requires
            self.wf(),
        ensures
            r == lookup_in(self@, self@.current.0 as int, name@),
    {
        proof {
            lemma_lookup(self.symbol_table@, self.node_symbols@, self.symbol_table@.current.0 as int, name@);
        }
        self.symbol_table.lookup_symbol(name.as_str())
    }

    /// Whether symbol `id`, which must exist, is mutable.
    fn is_mutable(&self, id: SymbolId) -> (r: bool)
        requires
            id.0 < self@.mutable.len(),
        ensures
            r == self@.mutable[id.0 as int],
    {
        match self.symbol_table.get_symbol(id) {
            Some(s) => s.is_mutable,
            None => false,
        }
    }
}


/// What analysing node `n` owes: the state and result that `resolve` gives.
pub open spec fn sem_post(a0: Analysis, a1: Analysis, n: ASTNode, top: bool, r: Result<(), EidosError>) -> bool {
    &&& a1 == resolve(a0, n, top).0
    &&& match resolve(a0, n, top).1 {
        None => r is Ok,
        Some(t) => r matches Err(EidosError::SemanticError(m)) && m@ == t,
    }
}

/// A semantic error at the place of `n`: its message is `msg` followed by `name`.
fn located_error(msg: &str, name: &String, n: &ASTNode) -> (e: EidosError)
    ensures
        e matches EidosError::SemanticError(m) && m@ == located(msg@ + name@, *n),
{
    let mut t = n.location.to_string();
    append_str(&mut t, ": ");
    append_str(&mut t, msg);
    append_str(&mut t, name.as_str());
    proof {
        assert(t@ =~= located(msg@ + name@, *n));
    }
    EidosError::SemanticError(t)
}

impl SemanticAnalyzer {
    /// Resolves the names of node `n`, as `resolve` says.
    pub fn analyze_node(&mut self, n: &ASTNode, top: bool) -> (r: Result<(), EidosError>)
        requires
            old(self).wf(),
            old(self)@.scopes.len() + node_count(*n) < usize::MAX,
        ensures
            final(self).wf(),
            final(self)@.scopes.len() <= old(self)@.scopes.len() + node_count(*n),
            sem_post(old(self)@, final(self)@, *n, top, r),
        decreases n, 2int,
    {
        proof {
            assert(decreases_to!(*n => n.kind));
        }
        match &n.kind {
            Node::Literal(_) => Ok(()),
            Node::Identifier { name, .. } => match self.resolve_identifier(name) {
                Some(id) => {
                    self.node_symbols.insert(n.id, id);
                    proof {
                        assert(self@ =~= Analysis { bound: old(self)@.bound.insert(n.id.0, id), ..old(self)@ });
                    }
                    Ok(())
                },
                None => Err(located_error("未定義の識別子: ", name, n)),
            },
            Node::UnaryExpr { expr, .. } => self.analyze_node(expr, false),
            Node::BinaryExpr { left, right, .. } => {
                match self.analyze_node(left, false) {
                    Ok(()) => {},
                    Err(e) => {
                        return Err(e);
                    },
                }
                self.analyze_node(right, false)
            },
            Node::WhileLoop { condition, body } => {
                match self.analyze_node(condition, false) {
                    Ok(()) => {},
                    Err(e) => {
                        return Err(e);
                    },
                }
                self.analyze_node(body, false)
            },
            Node::IfExpr { condition, then_branch, else_branch } => {
                match self.analyze_node(condition, false) {
                    Ok(()) => {},
                    Err(e) => {
                        return Err(e);
                    },
                }
                match self.analyze_node(then_branch, false) {
                    Ok(()) => {},
                    Err(e) => {
                        return Err(e);
                    },
                }
                match else_branch {
                    Some(eb) => self.analyze_node(eb, false),
                    None => Ok(()),
                }
            },
            Node::VarDecl { name, initializer, is_mutable, .. } => {
                match self.declare_name(name, SymbolKind::Variable, *is_mutable, Some(n.id)) {
                    Ok(()) => {},
                    Err(e) => {
                        return Err(e);
                    },
                }
                match initializer {
                    Some(i) => self.analyze_node(i, false),
                    None => Ok(()),
                }
            },
            Node::TypeDef { name, .. } => {
                if top {
                    Ok(())
                } else {
                    self.declare_name(name, SymbolKind::Type, false, Some(n.id))
                }
            },
            Node::DSLBlock { .. } => Ok(()),
            Node::BlockExpr { statements, result } => self.analyze_block(n, statements, result),
            Node::FunctionCall { callee, args } => self.analyze_call(n, callee, args),
            Node::Assignment { target, value } => self.analyze_assignment(n, top, target, value),
            Node::FunctionDef { name, params, body, .. } => self.analyze_function(n, top, name, params, body),
        }
    }

    /// Resolves the names of `ss[i..]` in order, stopping at the first error.
    fn analyze_seq(&mut self, n: &ASTNode, ss: &Vec<ASTNode>) -> (r: Result<(), EidosError>)
        requires
            old(self).wf(),
            old(self)@.scopes.len() + nodes_count(ss@) < usize::MAX,
            decreases_to!(*n => *ss),
        ensures
            final(self).wf(),
            final(self)@.scopes.len() <= old(self)@.scopes.len() + nodes_count(ss@),
            final(self)@ == resolve_seq(old(self)@, ss@).0,
            match resolve_seq(old(self)@, ss@).1 {
                None => r is Ok,
                Some(t) => r matches Err(EidosError::SemanticError(m)) && m@ == t,
            },
        decreases n, 0int,
    {
        let ghost s = ss@;
        let ghost a0 = self@;
        let ghost c0 = self@.scopes.len();
        let mut i: usize = 0;
        proof {
            assert(s.subrange(0, s.len() as int) =~= s);
        }
        while i < ss.len()
            invariant
                s == ss@,
                a0 == old(self)@,
                c0 == old(self)@.scopes.len(),
                decreases_to!(*n => *ss),
                i <= s.len(),
                self.wf(),
                resolve_seq(a0, s) == resolve_seq(self@, s.subrange(i as int, s.len() as int)),
                self@.scopes.len() + nodes_count(s.subrange(i as int, s.len() as int)) <= c0 + nodes_count(s),
                c0 + nodes_count(s) < usize::MAX,
            decreases s.len() - i,
        {
            proof {
                lemma_nodes_count_step(s, i as int);
                assert(decreases_to!(*ss => ss@));
                assert(decreases_to!(ss@ => ss@[i as int]));
            }
            match self.analyze_node(&ss[i], false) {
                Ok(()) => {},
                Err(e) => {
                    return Err(e);
                },
            }
            i = i + 1;
        }
        proof {
            assert(s.subrange(i as int, s.len() as int) =~= Seq::<ASTNode>::empty());
        }
        Ok(())
    }

    fn analyze_block(&mut self, n: &ASTNode, statements: &Vec<ASTNode>, result: &Option<Box<ASTNode>>) -> (r: Result<(), EidosError>)
        requires
            n.kind == (Node::BlockExpr { statements: *statements, result: *result }),
            old(self).wf(),
            old(self)@.scopes.len() + node_count(*n) < usize::MAX,
        ensures
            final(self).wf(),
            final(self)@.scopes.len() <= old(self)@.scopes.len() + node_count(*n),
            sem_post(old(self)@, final(self)@, *n, false, r),
        decreases n, 1int,
    {
        proof {
            assert(decreases_to!(*n => n.kind));
            assert(decreases_to!(n.kind => *statements));
        }
        self.enter_scope(ScopeKind::Block);
        match self.analyze_seq(n, statements) {
            Ok(()) => {},
            Err(e) => {
                return Err(e);
            },
        }
        match result {
            Some(res) => {
                match self.analyze_node(res, false) {
                    Ok(()) => {},
                    Err(e) => {
                        return Err(e);
                    },
                }
            },
            None => {},
        }
        self.exit_scope()
    }

    fn analyze_call(&mut self, n: &ASTNode, callee: &Box<ASTNode>, args: &Vec<ASTNode>) -> (r: Result<(), EidosError>)
        requires
            n.kind == (Node::FunctionCall { callee: *callee, args: *args }),
            old(self).wf(),
            old(self)@.scopes.len() + node_count(*n) < usize::MAX,
        ensures
            final(self).wf(),
            final(self)@.scopes.len() <= old(self)@.scopes.len() + node_count(*n),
            sem_post(old(self)@, final(self)@, *n, false, r),
        decreases n, 1int,
    {
        proof {
            assert(decreases_to!(*n => n.kind));
            assert(decreases_to!(n.kind => *args));
        }
        match self.analyze_node(callee, false) {
            Ok(()) => {},
            Err(e) => {
                return Err(e);
            },
        }
        self.analyze_seq(n, args)
    }

    fn analyze_assignment(&mut self, n: &ASTNode, top: bool, target: &Box<ASTNode>, value: &Box<ASTNode>) -> (r: Result<(), EidosError>)
        requires
            n.kind == (Node::Assignment { target: *target, value: *value }),
            old(self).wf(),
            old(self)@.scopes.len() + node_count(*n) < usize::MAX,
        ensures
            final(self).wf(),
            final(self)@.scopes.len() <= old(self)@.scopes.len() + node_count(*n),
            sem_post(old(self)@, final(self)@, *n, top, r),
        decreases n, 1int,
    {
        proof {
            assert(decreases_to!(*n => n.kind));
        }
        match self.analyze_node(target, false) {
            Ok(()) => {},
            Err(e) => {
                return Err(e);
            },
        }
        match &target.kind {
            Node::Identifier { name, .. } => match self.resolve_identifier(name) {
                Some(id) => {
                    proof {
                        lemma_lookup_bound(self.symbol_table@, self.node_symbols@, self.symbol_table@.current.0 as int, name@);
                    }
                    if !self.is_mutable(id) {
                        return Err(located_error("イミュータブルな変数に代入しようとしています: ", name, n));
                    }
                },
                None => {},
            },
            _ => {},
        }
        self.analyze_node(value, false)
    }

    fn analyze_function(&mut self, n: &ASTNode, top: bool, name: &String, params: &Vec<FunctionParam>, body: &Box<ASTNode>) -> (r: Result<(), EidosError>)
        requires
            n.kind matches Node::FunctionDef { name: nm, params: ps, body: b, .. } && nm == *name && ps == *params && b == *body,
            old(self).wf(),
            old(self)@.scopes.len() + node_count(*n) < usize::MAX,
        ensures
            final(self).wf(),
            final(self)@.scopes.len() <= old(self)@.scopes.len() + node_count(*n),
            sem_post(old(self)@, final(self)@, *n, top, r),
        decreases n, 1int,
    {
        proof {
            assert(decreases_to!(*n => n.kind));
        }
        if !top {
            match self.declare_name(name, SymbolKind::Function, false, Some(n.id)) {
                Ok(()) => {},
                Err(e) => {
                    return Err(e);
                },
            }
        }
        let ghost pre = self@;
        self.enter_scope(ScopeKind::Function);
        let ghost a1 = self@;
        let ghost ps = params@;
        let mut i: usize = 0;
        proof {
            assert(ps.subrange(0, ps.len() as int) =~= ps);
        }
        while i < params.len()
            invariant
                ps == params@,
                i <= ps.len(),
                self.wf(),
                declare_params(a1, ps) == declare_params(self@, ps.subrange(i as int, ps.len() as int)),
                self@.scopes.len() == a1.scopes.len(),
                a1 == enter(pre),
                pre == (if top { old(self)@ } else { declare(old(self)@, name@, SymbolKind::Function, false, Some(n.id)).0 }),
                !top ==> declare(old(self)@, name@, SymbolKind::Function, false, Some(n.id)).1 is None,
                pre.scopes.len() == old(self)@.scopes.len(),
                n.kind matches Node::FunctionDef { name: nm, params: ps2, body: b, .. } && nm == *name && ps2 == *params && b == *body,
                old(self)@.scopes.len() + node_count(*n) < usize::MAX,
            decreases ps.len() - i,
        {
            proof {
                assert(ps.subrange(i as int, ps.len() as int).drop_first() =~= ps.subrange(i + 1, ps.len() as int));
                assert(ps.subrange(i as int, ps.len() as int)[0] == ps[i as int]);
            }
            match self.declare_name(&params[i].name, SymbolKind::Parameter, false, None) {
                Ok(()) => {},
                Err(e) => {
                    return Err(e);
                },
            }
            i = i + 1;
        }
        proof {
            assert(ps.subrange(i as int, ps.len() as int) =~= Seq::<FunctionParam>::empty());
        }
        match self.analyze_node(body, false) {
            Ok(()) => {},
            Err(e) => {
                return Err(e);
            },
        }
        self.exit_scope()
    }
}


impl SemanticAnalyzer {
    /// Analyses `program` as `analyze_program` says, and gives it back when
    /// no error stops it.
    pub fn analyze(&mut self, program: Program) -> (r: Result<Program, EidosError>)
        requires
            old(self).wf(),
            old(self)@.scopes.len() + 1 + program_count(program.nodes@, program.node_map@) < usize::MAX,
        ensures
            final(self).wf(),
            final(self)@ == analyze_program(old(self)@, program.nodes@, program.node_map@).0,
            match analyze_program(old(self)@, program.nodes@, program.node_map@).1 {
                None => r == Ok::<Program, EidosError>(program),
                Some(SemFailure::Missing(id)) => r matches Err(EidosError::InternalError(m)) && m@ == missing_node_text(id),
                Some(SemFailure::Semantic(t)) => r matches Err(EidosError::SemanticError(m)) && m@ == t,
            },
    {
        let ghost ids = program.nodes@;
        let ghost map = program.node_map@;
        self.enter_scope(ScopeKind::Global);
        let ghost a0 = self@;
        let mut i: usize = 0;
        proof {
            assert(ids.subrange(0, ids.len() as int) =~= ids);
        }
        while i < program.nodes.len()
            invariant
                ids == program.nodes@,
                map == program.node_map@,
                a0 == enter(old(self)@),
                i <= ids.len(),
                self.wf(),
                register_decls(a0, ids, map) == register_decls(self@, ids.subrange(i as int, ids.len() as int), map),
                self@.scopes.len() == a0.scopes.len(),
            decreases ids.len() - i,
        {
            let id = program.nodes[i];
            proof {
                assert(ids.subrange(i as int, ids.len() as int).drop_first() =~= ids.subrange(i + 1, ids.len() as int));
                assert(ids.subrange(i as int, ids.len() as int)[0] == id);
            }
            match program.get_node(id) {
                None => {
                    return Err(missing_error(id));
                },
                Some(node) => {
                    let res = match &node.kind {
                        Node::FunctionDef { name, .. } => self.declare_name(name, SymbolKind::Function, false, Some(id)),
                        Node::TypeDef { name, .. } => self.declare_name(name, SymbolKind::Type, false, Some(id)),
                        _ => Ok(()),
                    };
                    match res {
                        Ok(()) => {},
                        Err(e) => {
                            return Err(e);
                        },
                    }
                },
            }
            i = i + 1;
        }
        proof {
            assert(ids.subrange(i as int, ids.len() as int) =~= Seq::<NodeId>::empty());
        }
        let ghost a1 = self@;
        let mut j: usize = 0;
        proof {
            assert(ids.subrange(0, ids.len() as int) =~= ids);
        }
        while j < program.nodes.len()
            invariant
                ids == program.nodes@,
                map == program.node_map@,
                a0 == enter(old(self)@),
                register_decls(a0, ids, map) == (a1, None::<SemFailure>),
                j <= ids.len(),
                self.wf(),
                analyze_nodes(a1, ids, map) == analyze_nodes(self@, ids.subrange(j as int, ids.len() as int), map),
                self@.scopes.len() + program_count(ids.subrange(j as int, ids.len() as int), map) <= a1.scopes.len() + program_count(ids, map),
                a1.scopes.len() == old(self)@.scopes.len() + 1,
                old(self)@.scopes.len() + 1 + program_count(ids, map) < usize::MAX,
            decreases ids.len() - j,
        {
            let id = program.nodes[j];
            proof {
                lemma_program_count_step(ids, j as int, map);
                assert(ids.subrange(j as int, ids.len() as int).drop_first() =~= ids.subrange(j + 1, ids.len() as int));
                assert(ids.subrange(j as int, ids.len() as int)[0] == id);
            }
            match program.get_node(id) {
                None => {
                    return Err(missing_error(id));
                },
                Some(node) => {
                    match self.analyze_node(node, true) {
                        Ok(()) => {},
                        Err(e) => {
                            return Err(e);
                        },
                    }
                },
            }
            j = j + 1;
        }
        proof {
            assert(ids.subrange(j as int, ids.len() as int) =~= Seq::<NodeId>::empty());
        }
        match self.exit_scope() {
            Ok(()) => Ok(program),
            Err(e) => Err(e),
        }
    }
}

/// The error for a top-level id without a node.
fn missing_error(id: NodeId) -> (e: EidosError)
    ensures
        e matches EidosError::InternalError(m) && m@ == missing_node_text(id),
{
    let mut m = string_of("ノードが見つかりません: NodeId(");
    push_decimal(&mut m, id.0);
    append_str(&mut m, ")");
    proof {
        assert(m@ =~= missing_node_text(id));
    }
    EidosError::InternalError(m)
}


// ---------------------------------------------------------------------------
// Laws.

/// A variable declared in the current scope, where that scope does not
/// declare its name yet, is what its name refers to right after: the
/// identifier that follows the declaration is bound to the new symbol.
pub proof fn lemma_declared_then_resolved(a: Analysis, d: ASTNode, u: ASTNode)
    requires
        0 <= a.current.0 < a.scopes.len(),
        a.mutable.len() < usize::MAX,
        d.kind matches Node::VarDecl { name, initializer: None, .. } && u.kind matches Node::Identifier { name: n2, .. } && n2@ == name@,
        d.kind matches Node::VarDecl { name, .. } && find_name(a.scopes[a.current.0 as int].names, name@) is None,
    ensures
        resolve_seq(a, seq![d, u]).1 is None,
        resolve_seq(a, seq![d, u]).0.bound[u.id.0] == SymbolId(a.mutable.len() as usize),
{
    let x = d.kind->VarDecl_name;
    let id = SymbolId(a.mutable.len() as usize);
    let (a1, e1) = resolve(a, d, false);
    assert(e1 is None);
    let c = a.current.0 as int;
    assert(a1.scopes[c].names == a.scopes[c].names.push((x@, id)));
    assert(find_name(a1.scopes[c].names, x@) == Some(id));
    assert(lookup_in(a1, c, x@) == Some(id));
    let (a2, e2) = resolve(a1, u, false);
    assert(e2 is None && a2.bound[u.id.0] == id);
    let s = seq![d, u];
    let t = seq![u];
    assert(s[0] == d);
    assert(s.drop_first() =~= t);
    assert(t[0] == u);
    assert(t.drop_first() =~= Seq::<ASTNode>::empty());
    assert(resolve_seq(a2, t.drop_first()) == (a2, None::<Seq<char>>));
    assert(resolve_seq(a1, t) == (a2, None::<Seq<char>>));
    assert(resolve_seq(a, s) == resolve_seq(a1, t));
}

/// Assigning to a variable declared immutable just before, in a scope that
/// did not declare its name yet, is an error at the assignment.
pub proof fn lemma_immutable_assignment_refused(a: Analysis, d: ASTNode, asg: ASTNode)
    requires
        0 <= a.current.0 < a.scopes.len(),
        a.mutable.len() < usize::MAX,
        d.kind matches Node::VarDecl { name, initializer: None, is_mutable: false, .. }
            && find_name(a.scopes[a.current.0 as int].names, name@) is None,
        asg.kind matches Node::Assignment { target, .. } && target.kind matches Node::Identifier { name: n2, .. }
            && n2@ == d.kind->VarDecl_name@,
    ensures
        resolve_seq(a, seq![d, asg]).1 == Some(located(
            "イミュータブルな変数に代入しようとしています: "@ + d.kind->VarDecl_name@, asg)),
{
    let x = d.kind->VarDecl_name;
    let id = SymbolId(a.mutable.len() as usize);
    let (a1, e1) = resolve(a, d, false);
    let c = a.current.0 as int;
    assert(a1.scopes[c].names == a.scopes[c].names.push((x@, id)));
    assert(lookup_in(a1, c, x@) == Some(id));
    assert(a1.mutable[id.0 as int] == false);
    let target = asg.kind->Assignment_target;
    let (a2, e2) = resolve(a1, *target, false);
    assert(e2 is None);
    assert(a2.scopes == a1.scopes && a2.current == a1.current && a2.mutable == a1.mutable);
    assert(lookup_in(a2, c, x@) == Some(id));
    let s = seq![d, asg];
    let t = seq![asg];
    assert(s[0] == d);
    assert(s.drop_first() =~= t);
    assert(t[0] == asg);
    assert(resolve_seq(a1, t) == resolve(a1, asg, false));
    assert(resolve_seq(a, s) == resolve_seq(a1, t));
}


/// What resolving keeps of the state: scopes are only added, those below
/// `k` are untouched, no scope changes its parent, the current scope stays
/// at or above `k`, and is back where it was when no error stopped it.
pub open spec fn framed(a: Analysis, b: Analysis, e: Option<Seq<char>>, k: int) -> bool {
    &&& b.scopes.len() >= a.scopes.len()
    &&& forall|i: int| 0 <= i < k ==> #[trigger] b.scopes[i] == a.scopes[i]
    &&& forall|i: int| 0 <= i < a.scopes.len() ==> (#[trigger] b.scopes[i]).parent == a.scopes[i].parent
    &&& k <= b.current.0 < b.scopes.len()
    &&& e is None ==> b.current == a.current
}

proof fn lemma_declare_framed(a: Analysis, name: Seq<char>, kind: SymbolKind, mutable: bool, node: Option<NodeId>, k: int)
    requires
        0 <= k <= a.current.0 < a.scopes.len(),
    ensures
        framed(a, declare(a, name, kind, mutable, node).0, declare(a, name, kind, mutable, node).1, k),
        declare(a, name, kind, mutable, node).0.scopes.len() == a.scopes.len(),
{
}

proof fn lemma_params_framed(a: Analysis, ps: Seq<FunctionParam>, k: int)
    requires
        0 <= k <= a.current.0 < a.scopes.len(),
    ensures
        framed(a, declare_params(a, ps).0, declare_params(a, ps).1, k),
        declare_params(a, ps).0.scopes.len() == a.scopes.len(),
    decreases ps.len(),
{
    if ps.len() > 0 {
        lemma_declare_framed(a, ps[0].name@, SymbolKind::Parameter, false, None, k);
        let (a1, e) = declare(a, ps[0].name@, SymbolKind::Parameter, false, None);
        if e is None {
            lemma_params_framed(a1, ps.drop_first(), k);
        }
    }
}

proof fn lemma_framed_trans(a: Analysis, b: Analysis, c: Analysis, e1: Option<Seq<char>>, e2: Option<Seq<char>>, k: int)
    requires
        framed(a, b, e1, k),
        framed(b, c, e2, k),
        e1 is None,
    ensures
        framed(a, c, e2, k),
{
    assert forall|i: int| 0 <= i < a.scopes.len() implies (#[trigger] c.scopes[i]).parent == a.scopes[i].parent by {
        assert(b.scopes[i].parent == a.scopes[i].parent);
    }
    assert forall|i: int| 0 <= i < k implies #[trigger] c.scopes[i] == a.scopes[i] by {
        assert(b.scopes[i] == a.scopes[i]);
    }
}

proof fn lemma_enter_framed(a: Analysis, b: Analysis, e: Option<Seq<char>>, k: int)
    requires
        0 <= k <= a.current.0 < a.scopes.len(),
        a.scopes.len() < usize::MAX,
        framed(enter(a), b, e, k),
    ensures
        e is None ==> framed(a, leave(b).0, leave(b).1, k) && leave(b).1 is None,
        e is Some ==> framed(a, b, e, k) || (b.current.0 >= k && b.scopes.len() >= a.scopes.len()),
{
    let a1 = enter(a);
    assert forall|i: int| 0 <= i < a.scopes.len() implies (#[trigger] b.scopes[i]).parent == a.scopes[i].parent by {
        assert(a1.scopes[i] == a.scopes[i]);
    }
    assert forall|i: int| 0 <= i < k implies #[trigger] b.scopes[i] == a.scopes[i] by {
        assert(a1.scopes[i] == a.scopes[i]);
    }
    if e is None {
        assert(b.current == a1.current);
        assert(b.scopes[a.scopes.len() as int].parent == a1.scopes[a.scopes.len() as int].parent);
    }
}

/// Resolving keeps the state framed as `framed` says, and adds at most one
/// scope per node.
#[verifier::rlimit(60)]
#[verifier::spinoff_prover]
proof fn lemma_resolve_framed(a: Analysis, n: ASTNode, top: bool, k: int)
    requires
        0 <= k <= a.current.0 < a.scopes.len(),
        a.scopes.len() + node_count(n) < usize::MAX,
    ensures
        framed(a, resolve(a, n, top).0, resolve(a, n, top).1, k),
        resolve(a, n, top).0.scopes.len() <= a.scopes.len() + node_count(n),
    decreases n, 1int,
{
    match n.kind {
        Node::Literal(_) => {},
        Node::Identifier { .. } => {},
        Node::DSLBlock { .. } => {},
        Node::UnaryExpr { expr, .. } => {
            lemma_resolve_framed(a, *expr, false, k);
        },
        Node::BinaryExpr { left, right, .. } => {
            lemma_resolve_framed(a, *left, false, k);
            let (a1, e) = resolve(a, *left, false);
            if e is None {
                lemma_resolve_framed(a1, *right, false, k);
                lemma_framed_trans(a, a1, resolve(a1, *right, false).0, e, resolve(a1, *right, false).1, k);
            }
        },
        Node::WhileLoop { condition, body } => {
            lemma_resolve_framed(a, *condition, false, k);
            let (a1, e) = resolve(a, *condition, false);
            if e is None {
                lemma_resolve_framed(a1, *body, false, k);
                lemma_framed_trans(a, a1, resolve(a1, *body, false).0, e, resolve(a1, *body, false).1, k);
            }
        },
        Node::IfExpr { condition, then_branch, else_branch } => {
            lemma_resolve_framed(a, *condition, false, k);
            let (a1, e1) = resolve(a, *condition, false);
            if e1 is None {
                lemma_resolve_framed(a1, *then_branch, false, k);
                let (a2, e2) = resolve(a1, *then_branch, false);
                lemma_framed_trans(a, a1, a2, e1, e2, k);
                if e2 is None {
                    match else_branch {
                        Some(eb) => {
                            lemma_resolve_framed(a2, *eb, false, k);
                            lemma_framed_trans(a, a2, resolve(a2, *eb, false).0, e2, resolve(a2, *eb, false).1, k);
                        },
                        None => {},
                    }
                }
            }
        },
        Node::VarDecl { name, initializer, is_mutable, .. } => {
            lemma_declare_framed(a, name@, SymbolKind::Variable, is_mutable, Some(n.id), k);
            let (a1, e1) = declare(a, name@, SymbolKind::Variable, is_mutable, Some(n.id));
            if e1 is None {
                match initializer {
                    Some(i) => {
                        lemma_resolve_framed(a1, *i, false, k);
                        lemma_framed_trans(a, a1, resolve(a1, *i, false).0, e1, resolve(a1, *i, false).1, k);
                    },
                    None => {},
                }
            }
        },
        Node::TypeDef { name, .. } => {
            if !top {
                lemma_declare_framed(a, name@, SymbolKind::Function, false, Some(n.id), k);
            }
        },
        Node::FunctionCall { callee, args } => {
            lemma_resolve_framed(a, *callee, false, k);
            let (a1, e1) = resolve(a, *callee, false);
            if e1 is None {
                lemma_resolve_seq_framed(a1, args@, k, n);
                lemma_framed_trans(a, a1, resolve_seq(a1, args@).0, e1, resolve_seq(a1, args@).1, k);
            }
        },
        Node::Assignment { target, value } => {
            lemma_resolve_framed(a, *target, false, k);
            let (a1, e1) = resolve(a, *target, false);
            if e1 is None {
                lemma_resolve_framed(a1, *value, false, k);
                lemma_framed_trans(a, a1, resolve(a1, *value, false).0, e1, resolve(a1, *value, false).1, k);
            }
        },
        Node::BlockExpr { statements, result } => {
            let a0 = enter(a);
            lemma_resolve_seq_framed(a0, statements@, k, n);
            let (a1, e1) = resolve_seq(a0, statements@);
            if e1 is None {
                let (a2, e2) = match result {
                    Some(r) => resolve(a1, *r, false),
                    None => (a1, None),
                };
                match result {
                    Some(r) => {
                        lemma_resolve_framed(a1, *r, false, k);
                        lemma_framed_trans(a0, a1, a2, e1, e2, k);
                    },
                    None => {},
                }
                lemma_enter_framed(a, a2, e2, k);
            } else {
                lemma_enter_framed(a, a1, e1, k);
            }
        },
        Node::FunctionDef { name, params, body, .. } => {
            let (a1, e1) = if top { (a, None) } else { declare(a, name@, SymbolKind::Function, false, Some(n.id)) };
            if !top {
                lemma_declare_framed(a, name@, SymbolKind::Function, false, Some(n.id), k);
            }
            if e1 is None {
                let a0 = enter(a1);
                lemma_params_framed(a0, params@, k);
                let (a2, e2) = declare_params(a0, params@);
                if e2 is None {
                    lemma_resolve_framed(a2, *body, false, k);
                    lemma_framed_trans(a0, a2, resolve(a2, *body, false).0, e2, resolve(a2, *body, false).1, k);
                    lemma_enter_framed(a1, resolve(a2, *body, false).0, resolve(a2, *body, false).1, k);
                } else {
                    lemma_enter_framed(a1, a2, e2, k);
                }
                if !top {
                    let r = resolve(a, n, top);
                    if r.1 is None {
                        lemma_framed_trans(a, a1, r.0, e1, r.1, k);
                    }
                }
            }
        },
    }
}

proof fn lemma_resolve_seq_framed(a: Analysis, ss: Seq<ASTNode>, k: int, owner: ASTNode)
    requires
        0 <= k <= a.current.0 < a.scopes.len(),
        a.scopes.len() + nodes_count(ss) < usize::MAX,
        decreases_to!(owner => ss),
    ensures
        framed(a, resolve_seq(a, ss).0, resolve_seq(a, ss).1, k),
        resolve_seq(a, ss).0.scopes.len() <= a.scopes.len() + nodes_count(ss),
    decreases owner, 0int, ss.len(),
{
    if ss.len() > 0 {
        assert(decreases_to!(ss => ss[0]));
        lemma_resolve_framed(a, ss[0], false, k);
        let (a1, e) = resolve(a, ss[0], false);
        if e is None {
            lemma_resolve_seq_framed(a1, ss.drop_first(), k, owner);
            lemma_framed_trans(a, a1, resolve_seq(a1, ss.drop_first()).0, e, resolve_seq(a1, ss.drop_first()).1, k);
        }
    }
}


proof fn lemma_lookup_same(a: Analysis, b: Analysis, sid: int, name: Seq<char>)
    requires
        sid < a.scopes.len(),
        sid < b.scopes.len(),
        forall|i: int| 0 <= i <= sid ==> #[trigger] b.scopes[i] == a.scopes[i],
    ensures
        lookup_in(b, sid, name) == lookup_in(a, sid, name),
    decreases sid,
{
    if 0 <= sid {
        assert(b.scopes[sid] == a.scopes[sid]);
        match a.scopes[sid].parent {
            Some(p) => if p.0 < sid {
                lemma_lookup_same(a, b, p.0 as int, name);
            },
            None => {},
        }
    }
}

/// A name declared inside a block is not visible after it: an identifier
/// that follows a block, and whose name the block's surroundings do not
/// declare, is undefined, whatever the block declares.
pub proof fn lemma_block_scoped(a: Analysis, blk: ASTNode, u: ASTNode)
    requires
        0 <= a.current.0 < a.scopes.len(),
        a.scopes.len() + node_count(blk) < usize::MAX,
        blk.kind is BlockExpr,
        resolve(a, blk, false).1 is None,
        u.kind matches Node::Identifier { name, .. } && lookup_in(a, a.current.0 as int, name@) is None,
    ensures
        resolve_seq(a, seq![blk, u]).1 == Some(located("未定義の識別子: "@ + u.kind->Identifier_name@, u)),
{
    let k = a.current.0 + 1;
    let a0 = enter(a);
    let statements = blk.kind->BlockExpr_statements;
    let result = blk.kind->BlockExpr_result;
    assert(decreases_to!(blk => blk.kind));
    assert(decreases_to!(blk.kind => statements));
    assert(decreases_to!(statements => statements@));
    lemma_resolve_seq_framed(a0, statements@, k, blk);
    let (a1, e1) = resolve_seq(a0, statements@);
    assert(e1 is None);
    let (a2, e2) = match result {
        Some(r) => resolve(a1, *r, false),
        None => (a1, None),
    };
    match result {
        Some(r) => {
            lemma_resolve_framed(a1, *r, false, k);
            lemma_framed_trans(a0, a1, a2, e1, e2, k);
        },
        None => {},
    }
    assert(e2 is None);
    assert(a2.current == a0.current);
    assert(a2.scopes[a.scopes.len() as int].parent == a0.scopes[a.scopes.len() as int].parent);
    let b = leave(a2).0;
    assert(b.current == a.current);
    assert(resolve(a, blk, false).0 == b);
    let x = u.kind->Identifier_name;
    lemma_lookup_same(a, b, a.current.0 as int, x@);
    let s = seq![blk, u];
    let t = seq![u];
    assert(s[0] == blk);
    assert(s.drop_first() =~= t);
    assert(t[0] == u);
    assert(resolve_seq(b, t) == resolve(b, u, false));
    assert(resolve_seq(a, s) == resolve_seq(b, t));
}

/// The node ids of the identifiers that occur in an expression, in every
/// branch and sub-expression, outside embedded DSL blocks.
pub open spec fn ident_ids(n: ASTNode) -> Set<usize>
    decreases n, 1int,
{
    match n.kind {
        Node::Identifier { .. } => set![n.id.0],
        Node::Literal(_) => Set::empty(),
        Node::UnaryExpr { expr, .. } => ident_ids(*expr),
        Node::BinaryExpr { left, right, .. } => ident_ids(*left).union(ident_ids(*right)),
        Node::IfExpr { condition, then_branch, else_branch } => ident_ids(*condition).union(ident_ids(*then_branch)).union(
            match else_branch {
                Some(e) => ident_ids(*e),
                None => Set::empty(),
            },
        ),
        Node::BlockExpr { statements, result } => idents_of(statements@).union(
            match result {
                Some(r) => ident_ids(*r),
                None => Set::empty(),
            },
        ),
        Node::VarDecl { initializer, .. } => match initializer {
            Some(i) => ident_ids(*i),
            None => Set::empty(),
        },
        Node::FunctionDef { body, .. } => ident_ids(*body),
        Node::FunctionCall { callee, args } => ident_ids(*callee).union(idents_of(args@)),
        Node::Assignment { target, value } => ident_ids(*target).union(ident_ids(*value)),
        Node::WhileLoop { condition, body } => ident_ids(*condition).union(ident_ids(*body)),
        Node::TypeDef { .. } => Set::empty(),
        Node::DSLBlock { .. } => Set::empty(),
    }
}

/// The node ids of the identifiers that occur in a list of expressions.
pub open spec fn idents_of(ss: Seq<ASTNode>) -> Set<usize>
    decreases ss, 0int,
{
    if ss.len() == 0 {
        Set::empty()
    } else {
        ident_ids(ss[0]).union(idents_of(ss.drop_first()))
    }
}

proof fn lemma_declare_params_keeps_bound(a: Analysis, ps: Seq<FunctionParam>)
    ensures
        declare_params(a, ps).0.bound == a.bound,
    decreases ps.len(),
{
    if ps.len() > 0 {
        lemma_declare_params_keeps_bound(declare(a, ps[0].name@, SymbolKind::Parameter, false, None).0, ps.drop_first());
    }
}

/// Resolution binds every identifier: where it succeeds, each identifier
/// that occurs anywhere in the expression (an `else` branch included) is
/// bound to a symbol, and no binding made before is lost.
pub proof fn lemma_resolve_binds_every_identifier(a: Analysis, n: ASTNode, top: bool)
    ensures
        a.bound.dom().subset_of(resolve(a, n, top).0.bound.dom()),
        resolve(a, n, top).1 is None ==> ident_ids(n).subset_of(resolve(a, n, top).0.bound.dom()),
    decreases n, 1int,
{
    match n.kind {
        Node::UnaryExpr { expr, .. } => lemma_resolve_binds_every_identifier(a, *expr, false),
        Node::BinaryExpr { left, right, .. } => {
            lemma_resolve_binds_every_identifier(a, *left, false);
            let (a1, e) = resolve(a, *left, false);
            if e is None {
                lemma_resolve_binds_every_identifier(a1, *right, false);
            }
        },
        Node::IfExpr { condition, then_branch, else_branch } => {
            lemma_resolve_binds_every_identifier(a, *condition, false);
            let (a1, e1) = resolve(a, *condition, false);
            if e1 is None {
                lemma_resolve_binds_every_identifier(a1, *then_branch, false);
                let (a2, e2) = resolve(a1, *then_branch, false);
                if e2 is None {
                    match else_branch {
                        Some(eb) => lemma_resolve_binds_every_identifier(a2, *eb, false),
                        None => {},
                    }
                }
            }
        },
        Node::BlockExpr { statements, result } => {
            lemma_resolve_seq_binds_every_identifier(enter(a), statements@);
            let (a1, e1) = resolve_seq(enter(a), statements@);
            if e1 is None {
                match result {
                    Some(r) => lemma_resolve_binds_every_identifier(a1, *r, false),
                    None => {},
                }
            }
        },
        Node::VarDecl { name, initializer, is_mutable, .. } => {
            let (a1, e1) = declare(a, name@, SymbolKind::Variable, is_mutable, Some(n.id));
            if e1 is None {
                match initializer {
                    Some(i) => lemma_resolve_binds_every_identifier(a1, *i, false),
                    None => {},
                }
            }
        },
        Node::FunctionDef { name, params, body, .. } => {
            let (a1, e1) = if top { (a, None) } else { declare(a, name@, SymbolKind::Function, false, Some(n.id)) };
            if e1 is None {
                lemma_declare_params_keeps_bound(enter(a1), params@);
                let (a2, e2) = declare_params(enter(a1), params@);
                if e2 is None {
                    lemma_resolve_binds_every_identifier(a2, *body, false);
                }
            }
        },
        Node::FunctionCall { callee, args } => {
            lemma_resolve_binds_every_identifier(a, *callee, false);
            let (a1, e1) = resolve(a, *callee, false);
            if e1 is None {
                lemma_resolve_seq_binds_every_identifier(a1, args@);
            }
        },
        Node::Assignment { target, value } => {
            lemma_resolve_binds_every_identifier(a, *target, false);
            let (a1, e1) = resolve(a, *target, false);
            if e1 is None {
                lemma_resolve_binds_every_identifier(a1, *value, false);
            }
        },
        Node::WhileLoop { condition, body } => {
            lemma_resolve_binds_every_identifier(a, *condition, false);
            let (a1, e1) = resolve(a, *condition, false);
            if e1 is None {
                lemma_resolve_binds_every_identifier(a1, *body, false);
            }
        },
        _ => {},
    }
}

/// Resolution of a list binds every identifier of every expression in it.
pub proof fn lemma_resolve_seq_binds_every_identifier(a: Analysis, ss: Seq<ASTNode>)
    ensures
        a.bound.dom().subset_of(resolve_seq(a, ss).0.bound.dom()),
        resolve_seq(a, ss).1 is None ==> idents_of(ss).subset_of(resolve_seq(a, ss).0.bound.dom()),
    decreases ss, 0int,
{
    if ss.len() > 0 {
        lemma_resolve_binds_every_identifier(a, ss[0], false);
        let (a1, e) = resolve(a, ss[0], false);
        if e is None {
            lemma_resolve_seq_binds_every_identifier(a1, ss.drop_first());
        }
    }
}

/// A name resolves to the symbol declared last under it in the innermost
/// scope that declares it: the latest declaration in a scope wins.
pub proof fn lemma_find_name_latest(names: Seq<(Seq<char>, SymbolId)>, x: Seq<char>, id: SymbolId, y: Seq<char>)
    ensures
        find_name(names.push((x, id)), x) == Some(id),
        y != x ==> find_name(names.push((x, id)), y) == find_name(names, y),
        find_name(Seq::<(Seq<char>, SymbolId)>::empty(), x) is None,
{
    assert(names.push((x, id)).drop_last() =~= names);
}

/// An identifier is bound to the symbol its name resolves to from the
/// current scope, and an identifier whose name resolves to none is an error.
pub proof fn lemma_identifier_resolution(a: Analysis, n: ASTNode, top: bool)
    ensures
        n.kind matches Node::Identifier { name, .. } ==> (match lookup_in(a, a.current.0 as int, name@) {
            Some(id) => resolve(a, n, top).1 is None && resolve(a, n, top).0.bound == a.bound.insert(n.id.0, id),
            None => resolve(a, n, top).1 is Some,
        }),
{
}

/// Declaring a name the current scope already declares is refused and
/// changes nothing; declaring a new one adds a symbol of the given kind and
/// mutability, not exported, that the name then resolves to in the current
/// scope, and binds the declaring node to it.
pub proof fn lemma_declare_meaning(a: Analysis, name: Seq<char>, kind: SymbolKind, mutable: bool, node: NodeId)
    requires
        0 <= a.current.0 < a.scopes.len(),
    ensures
        find_name(a.scopes[a.current.0 as int].names, name) is Some ==> declare(a, name, kind, mutable, Some(node)).1 is Some
            && declare(a, name, kind, mutable, Some(node)).0 == a,
        find_name(a.scopes[a.current.0 as int].names, name) is None ==> ({
            let (b, e) = declare(a, name, kind, mutable, Some(node));
            let id = SymbolId(a.mutable.len() as usize);
            &&& e is None
            &&& b.mutable == a.mutable.push(mutable)
            &&& b.kinds == a.kinds.push(kind)
            &&& b.exported == a.exported.push(false)
            &&& b.bound == a.bound.insert(node.0, id)
            &&& find_name(b.scopes[b.current.0 as int].names, name) == Some(id)
            &&& b.current == a.current
        }),
{
    let c = a.current.0 as int;
    if find_name(a.scopes[c].names, name) is None {
        let id = SymbolId(a.mutable.len() as usize);
        lemma_find_name_latest(a.scopes[c].names, name, id, name);
    }
}

/// Resolving a name from a scope gives the scope's own symbol of that name
/// where it declares one, and otherwise what its enclosing scope gives.
pub proof fn lemma_lookup_in_meaning(a: Analysis, sid: int, name: Seq<char>, q: usize)
    requires
        0 <= sid < a.scopes.len(),
    ensures
        find_name(a.scopes[sid].names, name) matches Some(id) ==> lookup_in(a, sid, name) == Some(id),
        (find_name(a.scopes[sid].names, name) is None && a.scopes[sid].parent == Some(ScopeId(q)) && q < sid)
            ==> lookup_in(a, sid, name) == lookup_in(a, q as int, name),
        (find_name(a.scopes[sid].names, name) is None && a.scopes[sid].parent is None) ==> lookup_in(a, sid, name) is None,
{
}

} // verus!
