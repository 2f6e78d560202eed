use vstd::prelude::*;

use crate::util::{push_decimal, decimal, string_of, append_str};

verus! {

/// Identifier of a symbol.
#[derive(Debug, Clone, Copy, PartialEq, Eq, Hash, Structural)]
pub struct SymbolId(pub usize);

impl SymbolId {
    /// Display form, `Symbol(n)`.
    pub fn to_string(&self) -> (r: String)
        ensures
            r@ == "Symbol("@ + decimal(self.0 as nat) + ")"@,
    {
        let mut s = string_of("Symbol(");
        push_decimal(&mut s, self.0);
        append_str(&mut s, ")");
        s
    }
}

/// Kind of a scope.
#[derive(Debug, Clone, Copy, PartialEq, Eq, Structural)]
pub enum ScopeKind {
    Global,
    Function,
    Block,
    Module,
}

/// Kind of an identifier.
#[derive(Debug, Clone, Copy, PartialEq, Eq, Structural)]
pub enum SymbolKind {
    Variable,
    Function,
    Parameter,
    Type,
    Module,
    EnumVariant,
    DSLSymbol,
}

/// A declared symbol.
#[derive(Debug, Clone, PartialEq, Eq)]
pub struct Symbol {
    pub id: SymbolId,
    pub name: String,
    pub kind: SymbolKind,
    pub scope_id: ScopeId,
    pub is_mutable: bool,
    pub is_exported: bool,
}

/// Identifier of a scope.
#[derive(Debug, Clone, Copy, PartialEq, Eq, Hash, Structural)]
pub struct ScopeId(pub usize);

impl ScopeId {
    /// Display form, `Scope(n)`.
    pub fn to_string(&self) -> (r: String)
        ensures
            r@ == "Scope("@ + decimal(self.0 as nat) + ")"@,
    {
        let mut s = string_of("Scope(");
        push_decimal(&mut s, self.0);
        append_str(&mut s, ")");
        s
    }
}

/// A scope: its kind, its enclosing scope and the names declared directly in it.
/// `symbols` holds each name at most once.
#[derive(Debug, Clone)]
pub struct Scope {
    pub id: ScopeId,
    pub kind: ScopeKind,
    pub parent: Option<ScopeId>,
    pub symbols: Vec<(String, SymbolId)>,
}

/// The symbol bound to `name` in a list of (name, symbol) entries, if any.
pub open spec fn find_entry(entries: Seq<(String, SymbolId)>, name: Seq<char>) -> Option<SymbolId>
    decreases entries.len(),
{
    if entries.len() == 0 {
        None
    } else if entries.last().0@ == name {
        Some(entries.last().1)
    } else {
        find_entry(entries.drop_last(), name)
    }
}

/// The abstract state of a symbol table.
pub struct SymbolTableModel {
    /// All symbols, indexed by their id.
    pub symbols: Seq<Symbol>,
    /// All scopes, indexed by their id.
    pub scopes: Seq<Scope>,
    /// The scope in which declarations are made.
    pub current: ScopeId,
}

impl SymbolTableModel {
    /// The symbol that `name` resolves to when looked up from scope `sid`: the
    /// innermost enclosing scope that declares it wins.
    pub open spec fn lookup_from(self, sid: int, name: Seq<char>) -> Option<SymbolId>
        decreases sid,
    {
        if !(0 <= sid < self.scopes.len()) {
            None
        } else {
            match find_entry(self.scopes[sid].symbols@, name) {
                Some(id) => Some(id),
                None => match self.scopes[sid].parent {
                    Some(p) => if p.0 < sid { self.lookup_from(p.0 as int, name) } else { None },
                    None => None,
                },
            }
        }
    }

    /// The symbol that `name` resolves to from the current scope.
    pub open spec fn lookup(self, name: Seq<char>) -> Option<SymbolId> {
        self.lookup_from(self.current.0 as int, name)
    }

    /// Whether the current scope itself declares `name`.
    pub open spec fn declared_in_current(self, name: Seq<char>) -> bool {
        find_entry(self.scopes[self.current.0 as int].symbols@, name) is Some
    }

    /// Well-formedness: ids are positions, the current scope and its
    /// enclosing scopes exist, each parent coming before its child, and every
    /// entry of a scope names a symbol of that scope, each name once. A scope
    /// off that chain may name any parent, even one that does not exist.
    pub open spec fn wf(self) -> bool {
        &&& self.scopes.len() > 0
        &&& self.current.0 < self.scopes.len()
        &&& forall|i: int| 0 <= i < self.scopes.len() ==> (#[trigger] self.scopes[i]).id.0 == i
        &&& chain_ok(self.scopes, self.current.0 as int)
        &&& forall|i: int| 0 <= i < self.symbols.len() ==> {
            &&& (#[trigger] self.symbols[i]).id.0 == i
            &&& self.symbols[i].scope_id.0 < self.scopes.len()
        }
        &&& forall|i: int, j: int| 0 <= i < self.scopes.len() && 0 <= j < self.scopes[i].symbols@.len() ==> {
            let e = #[trigger] self.scopes[i].symbols@[j];
            &&& e.1.0 < self.symbols.len()
            &&& self.symbols[e.1.0 as int].name@ == e.0@
            &&& self.symbols[e.1.0 as int].scope_id.0 == i
        }
        &&& forall|i: int, j: int, k: int| 0 <= i < self.scopes.len() && 0 <= j < k < self.scopes[i].symbols@.len()
            ==> (#[trigger] self.scopes[i].symbols@[j]).0@ != (#[trigger] self.scopes[i].symbols@[k]).0@
    }
}

/// Whether scope `sid` exists and so does every scope enclosing it, each
/// parent coming before its child.
pub open spec fn chain_ok(scopes: Seq<Scope>, sid: int) -> bool
    decreases sid,
{
    &&& 0 <= sid < scopes.len()
    &&& match scopes[sid].parent {
        Some(p) => p.0 < sid && chain_ok(scopes, p.0 as int),
        None => true,
    }
}

/// A chain that holds in some scopes holds in any that keep their parents
/// and the number of scopes up to it.
proof fn lemma_chain_ok_keep(a: Seq<Scope>, b: Seq<Scope>, sid: int)
    requires
        chain_ok(a, sid),
        sid < b.len(),
        forall|i: int| 0 <= i <= sid ==> (#[trigger] b[i]).parent == a[i].parent,
    ensures
        chain_ok(b, sid),
    decreases sid,
{
    match a[sid].parent {
        Some(p) => {
            lemma_chain_ok_keep(a, b, p.0 as int);
        },
        None => {},
    }
}

/// The error text of a declaration whose name is already declared in the current scope.
pub open spec fn duplicate_symbol_message(name: Seq<char>) -> Seq<char> {
    "シンボル '"@ + name + "' は現在のスコープですでに宣言されています"@
}

/// The error text of leaving a scope that has no parent.
pub open spec fn exit_global_message() -> Seq<char> {
    "グローバルスコープから抜けることはできません"@
}

/// A symbol table: nested scopes and the symbols declared in them.
#[derive(Debug, Clone)]
pub struct SymbolTable {
    symbols: Vec<Symbol>,
    scopes: Vec<Scope>,
    current_scope: ScopeId,
}

impl View for SymbolTable {
    type V = SymbolTableModel;

    closed spec fn view(&self) -> SymbolTableModel {
        SymbolTableModel { symbols: self.symbols@, scopes: self.scopes@, current: self.current_scope }
    }
}

proof fn lemma_find_entry_some(entries: Seq<(String, SymbolId)>, name: Seq<char>)
    ensures
        find_entry(entries, name) matches Some(id) ==> exists|j: int| 0 <= j < entries.len()
            && (#[trigger] entries[j]).0@ == name && entries[j].1 == id,
        find_entry(entries, name) is None ==> forall|j: int| 0 <= j < entries.len()
            ==> (#[trigger] entries[j]).0@ != name,
    decreases entries.len(),
{
    if entries.len() > 0 {
        lemma_find_entry_some(entries.drop_last(), name);
        if find_entry(entries, name) is None {
            assert forall|j: int| 0 <= j < entries.len() implies (#[trigger] entries[j]).0@ != name by {
                if j < entries.len() - 1 {
                    assert(entries[j] == entries.drop_last()[j]);
                }
            }
        } else if entries.last().0@ != name {
            let id = find_entry(entries, name).unwrap();
            let j = choose|j: int| 0 <= j < entries.drop_last().len()
                && (#[trigger] entries.drop_last()[j]).0@ == name && entries.drop_last()[j].1 == id;
            assert(entries[j] == entries.drop_last()[j]);
        }
    }
}

/// An entry that `find_entry` finds is an entry of the list.
pub(crate) proof fn lemma_find_entry_some_pub(entries: Seq<(String, SymbolId)>, name: Seq<char>)
    ensures
        find_entry(entries, name) matches Some(id) ==> exists|j: int| 0 <= j < entries.len()
            && (#[trigger] entries[j]).0@ == name && entries[j].1 == id,
{
    lemma_find_entry_some(entries, name);
}

proof fn lemma_find_entry_push(entries: Seq<(String, SymbolId)>, e: (String, SymbolId), name: Seq<char>)
    ensures
        find_entry(entries.push(e), name) == if e.0@ == name { Some(e.1) } else { find_entry(entries, name) },
{
    assert(entries.push(e).drop_last() =~= entries);
}

/// Finds `name` among the entries of a scope.
fn find_in_scope(entries: &Vec<(String, SymbolId)>, name: &String) -> (r: Option<SymbolId>)
    ensures
        r == find_entry(entries@, name@),
{
    let mut i = entries.len();
    assert(entries@.subrange(0, i as int) =~= entries@);
    while i > 0
        invariant
            i <= entries@.len(),
            find_entry(entries@, name@) == find_entry(entries@.subrange(0, i as int), name@),
        decreases i,
    {
        let ghost sub = entries@.subrange(0, i as int);
        assert(sub.drop_last() =~= entries@.subrange(0, i - 1));
        if entries[i - 1].0 == *name {
            return Some(entries[i - 1].1);
        }
        i = i - 1;
    }
    assert(entries@.subrange(0, 0) =~= Seq::<(String, SymbolId)>::empty());
    None
}

impl SymbolTable {
    /// A table holding only the global scope, which is current.
    pub fn new() -> (t: Self)
        ensures
            t@.wf(),
            t@.symbols.len() == 0,
            t@.scopes.len() == 1,
            t@.scopes[0].kind == ScopeKind::Global,
            t@.scopes[0].parent is None,
            t@.scopes[0].symbols@.len() == 0,
            t@.current == ScopeId(0),
    {
        let mut table = SymbolTable { symbols: Vec::new(), scopes: Vec::new(), current_scope: ScopeId(0) };
        let global_scope_id = table.create_scope(ScopeKind::Global, None);
        table.current_scope = global_scope_id;
        table
    }

    /// Number of scopes created so far.
    pub fn scope_count(&self) -> (n: usize)
        ensures
            n == self@.scopes.len(),
    {
        self.scopes.len()
    }

    /// Creates a new empty scope with the given kind and parent, without
    /// entering it. Its id is the number of scopes created before it.
    pub fn create_scope(&mut self, kind: ScopeKind, parent: Option<ScopeId>) -> (id: ScopeId)
        requires
            old(self)@.wf() || (old(self)@.scopes.len() == 0 && old(self)@.symbols.len() == 0
                && old(self)@.current == ScopeId(0)),
            old(self)@.scopes.len() < usize::MAX,
        ensures
            id.0 == old(self)@.scopes.len(),
            final(self)@.scopes == old(self)@.scopes.push(final(self)@.scopes.last()),
            final(self)@.scopes.last().id == id,
            final(self)@.scopes.last().kind == kind,
            final(self)@.scopes.last().parent == parent,
            final(self)@.scopes.last().symbols@.len() == 0,
            final(self)@.symbols == old(self)@.symbols,
            final(self)@.current == old(self)@.current,
            old(self)@.wf() ==> final(self)@.wf(),
    {
        let id = ScopeId(self.scopes.len());
        let scope = Scope { id, kind, parent, symbols: Vec::new() };
        self.scopes.push(scope);
        proof {
            let m = self@;
            assert forall|i: int, j: int| 0 <= i < m.scopes.len() && 0 <= j < m.scopes[i].symbols@.len()
                implies {
                    let e = #[trigger] m.scopes[i].symbols@[j];
                    &&& e.1.0 < m.symbols.len()
                    &&& m.symbols[e.1.0 as int].name@ == e.0@
                    &&& m.symbols[e.1.0 as int].scope_id.0 == i
                } by {
                assert(i < m.scopes.len() - 1);
                assert(m.scopes[i] == old(self)@.scopes[i]);
            }
            if old(self)@.wf() {
                lemma_chain_ok_keep(old(self)@.scopes, m.scopes, m.current.0 as int);
            }
        }
        id
    }

    /// The current scope.
    pub fn current_scope(&self) -> (s: &Scope)
        requires
            self@.wf(),
        ensures
            *s == self@.scopes[self@.current.0 as int],
    {
        &self.scopes[self.current_scope.0]
    }

    /// The id of the current scope.
    pub fn current_scope_id(&self) -> (id: ScopeId)
        ensures
            id == self@.current,
    {
        self.current_scope
    }

    /// Creates a scope whose parent is the current scope and makes it current.
    pub fn enter_scope(&mut self, kind: ScopeKind) -> (id: ScopeId)
        requires
            old(self)@.wf(),
            old(self)@.scopes.len() < usize::MAX,
        ensures
            final(self)@.wf(),
            id.0 == old(self)@.scopes.len(),
            final(self)@.scopes.len() == old(self)@.scopes.len() + 1,
            final(self)@.scopes.subrange(0, old(self)@.scopes.len() as int) == old(self)@.scopes,
            final(self)@.scopes.last().kind == kind,
            final(self)@.scopes.last().parent == Some(old(self)@.current),
            final(self)@.scopes.last().symbols@.len() == 0,
            final(self)@.symbols == old(self)@.symbols,
            final(self)@.current == id,
    {
        let parent = self.current_scope;
        let new_scope_id = self.create_scope(kind, Some(parent));
        proof {
            assert(self@.scopes[new_scope_id.0 as int].parent == Some(parent));
            lemma_chain_ok_keep(old(self)@.scopes, self@.scopes, parent.0 as int);
        }
        self.current_scope = new_scope_id;
        proof {
            assert(self@.scopes.subrange(0, old(self)@.scopes.len() as int) =~= old(self)@.scopes);
        }
        new_scope_id
    }

    /// Makes the parent of the current scope current; fails when the current
    /// scope has no parent.
    pub fn exit_scope(&mut self) -> (r: Result<(), String>)
        requires
            old(self)@.wf(),
        ensures
            final(self)@.wf(),
            final(self)@.symbols == old(self)@.symbols,
            final(self)@.scopes == old(self)@.scopes,
            match old(self)@.scopes[old(self)@.current.0 as int].parent {
                Some(p) => r is Ok && final(self)@.current == p,
                None => r matches Err(msg) && msg@ == exit_global_message()
                    && final(self)@.current == old(self)@.current,
            },
    {
        let current = self.current_scope();
        match current.parent {
            Some(parent_id) => {
                self.current_scope = parent_id;
                Ok(())
            },
            None => Err(string_of("グローバルスコープから抜けることはできません")),
        }
    }

    /// Declares `name` in the current scope. Fails, leaving the table
    /// unchanged, when the current scope already declares it.
    pub fn declare_symbol(
        &mut self,
        name: String,
        kind: SymbolKind,
        is_mutable: bool,
        is_exported: bool,
    ) -> (r: Result<SymbolId, String>)
        requires
            old(self)@.wf(),
        ensures
            final(self)@.wf(),
            final(self)@.current == old(self)@.current,
            final(self)@.scopes.len() == old(self)@.scopes.len(),
            old(self)@.declared_in_current(name@) ==> {
                &&& r matches Err(msg) && msg@ == duplicate_symbol_message(name@)
                &&& final(self)@ == old(self)@
            },
            !old(self)@.declared_in_current(name@) ==> (r matches Ok(id) && {
                &&& id.0 == old(self)@.symbols.len()
                &&& final(self)@.symbols == old(self)@.symbols.push(Symbol {
                    id,
                    name,
                    kind,
                    scope_id: old(self)@.current,
                    is_mutable,
                    is_exported,
                })
                &&& forall|i: int| 0 <= i < old(self)@.scopes.len() && i != old(self)@.current.0
                    ==> #[trigger] final(self)@.scopes[i] == old(self)@.scopes[i]
                &&& final(self)@.scopes[old(self)@.current.0 as int].symbols@
                    == old(self)@.scopes[old(self)@.current.0 as int].symbols@.push((name, id))
                &&& final(self)@.scopes[old(self)@.current.0 as int].id == old(self)@.current
                &&& final(self)@.scopes[old(self)@.current.0 as int].kind
                    == old(self)@.scopes[old(self)@.current.0 as int].kind
                &&& final(self)@.scopes[old(self)@.current.0 as int].parent
                    == old(self)@.scopes[old(self)@.current.0 as int].parent
                &&& final(self)@.lookup(name@) == Some(id)
            }),
    {
        let current_scope = self.current_scope;
        if find_in_scope(&self.scopes[current_scope.0].symbols, &name).is_some() {
            let mut msg = string_of("シンボル '");
            append_str(&mut msg, name.as_str());
            append_str(&mut msg, "' は現在のスコープですでに宣言されています");
            return Err(msg);
        }
        let id = SymbolId(self.symbols.len());
        let symbol = Symbol {
            id,
            name: name.clone(),
            kind,
            scope_id: current_scope,
            is_mutable,
            is_exported,
        };
        self.symbols.push(symbol);
        let ghost old_scopes = self.scopes@;
        let ghost c = current_scope.0 as int;
        self.scopes[current_scope.0].symbols.push((name, id));
        proof {
            let o = old(self)@;
            let m = self@;
            lemma_find_entry_some(o.scopes[c].symbols@, name@);
            assert forall|i: int, j: int| 0 <= i < m.scopes.len() && 0 <= j < m.scopes[i].symbols@.len()
                implies {
                    let e = #[trigger] m.scopes[i].symbols@[j];
                    &&& e.1.0 < m.symbols.len()
                    &&& m.symbols[e.1.0 as int].name@ == e.0@
                    &&& m.symbols[e.1.0 as int].scope_id.0 == i
                } by {
                if i == c && j == o.scopes[c].symbols@.len() {
                } else {
                    assert(m.scopes[i].symbols@[j] == o.scopes[i].symbols@[j]);
                }
            }
            assert forall|i: int, j: int, k: int| 0 <= i < m.scopes.len() && 0 <= j < k < m.scopes[i].symbols@.len()
                implies (#[trigger] m.scopes[i].symbols@[j]).0@ != (#[trigger] m.scopes[i].symbols@[k]).0@ by {
                assert(m.scopes[i].symbols@[j] == o.scopes[i].symbols@[j]);
                if i == c && k == o.scopes[c].symbols@.len() {
                } else {
                    assert(m.scopes[i].symbols@[k] == o.scopes[i].symbols@[k]);
                }
            }
            lemma_find_entry_push(o.scopes[c].symbols@, (name, id), name@);
            assert(m.scopes[c].symbols@ == o.scopes[c].symbols@.push((name, id)));
            assert forall|i: int| 0 <= i <= c implies (#[trigger] m.scopes[i]).parent == o.scopes[i].parent by {
                if i != c {
                    assert(m.scopes[i] == o.scopes[i]);
                }
            }
            lemma_chain_ok_keep(o.scopes, m.scopes, c);
        }
        Ok(id)
    }

    /// Resolves `name` from the current scope outwards.
    pub fn lookup_symbol(&self, name: &str) -> (r: Option<SymbolId>)
        requires
            self@.wf(),
        ensures
            r == self@.lookup(name@),
    {
        let n = string_of(name);
        let mut current_scope_id = self.current_scope;
        loop
            invariant
                self@.wf(),
                n@ == name@,
                current_scope_id.0 < self@.scopes.len(),
                chain_ok(self@.scopes, current_scope_id.0 as int),
                self@.lookup(name@) == self@.lookup_from(current_scope_id.0 as int, name@),
            decreases current_scope_id.0,
        {
            let scope = &self.scopes[current_scope_id.0];
            if let Some(symbol_id) = find_in_scope(&scope.symbols, &n) {
                return Some(symbol_id);
            }
            match scope.parent {
                Some(p) => {
                    current_scope_id = p;
                },
                None => {
                    return None;
                },
            }
        }
    }

    /// The symbol with the given id, if it exists.
    pub fn get_symbol(&self, id: SymbolId) -> (r: Option<&Symbol>)
        ensures
            r matches Some(s) ==> id.0 < self@.symbols.len() && *s == self@.symbols[id.0 as int],
            r is None ==> id.0 >= self@.symbols.len(),
    {
        if id.0 < self.symbols.len() {
            Some(&self.symbols[id.0])
        } else {
            None
        }
    }

    /// The scope with the given id, if it exists.
    pub fn get_scope(&self, id: ScopeId) -> (r: Option<&Scope>)
        ensures
            r matches Some(s) ==> id.0 < self@.scopes.len() && *s == self@.scopes[id.0 as int],
            r is None ==> id.0 >= self@.scopes.len(),
    {
        if id.0 < self.scopes.len() {
            Some(&self.scopes[id.0])
        } else {
            None
        }
    }
}


/// Scopes `a` and `b` agree on the first `n` scopes.
pub open spec fn same_prefix(a: Seq<Scope>, b: Seq<Scope>, n: int) -> bool {
    &&& 0 <= n <= a.len()
    &&& n <= b.len()
    &&& forall|i: int| 0 <= i < n ==> #[trigger] a[i] == b[i]
}

/// Resolution from a scope depends only on that scope and the scopes before it.
pub proof fn lemma_lookup_prefix(m1: SymbolTableModel, m2: SymbolTableModel, sid: int, name: Seq<char>)
    requires
        m1.wf(),
        same_prefix(m1.scopes, m2.scopes, m1.scopes.len() as int),
        0 <= sid < m1.scopes.len(),
    ensures
        m2.lookup_from(sid, name) == m1.lookup_from(sid, name),
    decreases sid,
{
    assert(m1.scopes[sid] == m2.scopes[sid]);
    match find_entry(m1.scopes[sid].symbols@, name) {
        Some(_) => {},
        None => match m1.scopes[sid].parent {
            Some(p) => {
                if p.0 < sid {
                    lemma_lookup_prefix(m1, m2, p.0 as int, name);
                }
            },
            None => {},
        },
    }
}

/// Entering a scope changes what no name resolves to: the new scope is empty
/// and its parent is the scope that was current.
pub proof fn lemma_enter_keeps_lookup(m: SymbolTableModel, m1: SymbolTableModel, name: Seq<char>)
    requires
        m.wf(),
        m1.scopes.len() == m.scopes.len() + 1,
        m1.scopes.subrange(0, m.scopes.len() as int) == m.scopes,
        m1.scopes.last().parent == Some(m.current),
        m1.scopes.last().symbols@.len() == 0,
        m1.current.0 == m.scopes.len(),
    ensures
        m1.lookup(name) == m.lookup(name),
{
    assert forall|i: int| 0 <= i < m.scopes.len() implies #[trigger] m.scopes[i] == m1.scopes[i] by {
        assert(m1.scopes.subrange(0, m.scopes.len() as int)[i] == m1.scopes[i]);
    }
    let last = m1.scopes.last();
    assert(last == m1.scopes[m.scopes.len() as int]);
    assert(find_entry(last.symbols@, name) is None);
    lemma_lookup_prefix(m, m1, m.current.0 as int, name);
}

/// Leaving a scope that was entered makes the scope current again that was
/// current before entering it.
pub proof fn lemma_enter_then_exit(m: SymbolTableModel, m1: SymbolTableModel, m2: SymbolTableModel)
    requires
        m.wf(),
        m1.scopes.len() == m.scopes.len() + 1,
        m1.scopes.last().parent == Some(m.current),
        m1.current.0 == m.scopes.len(),
        m2.scopes == m1.scopes,
        m2.current == match m1.scopes[m1.current.0 as int].parent {
            Some(p) => p,
            None => m1.current,
        },
    ensures
        m2.current == m.current,
{
    assert(m1.scopes.last() == m1.scopes[m1.current.0 as int]);
}

/// A table that keeps the scopes of `m` and its current scope, whatever
/// scopes came after them and whatever was declared there, resolves every
/// name as `m` does: a declaration in an inner scope does not leak out once
/// that scope is left.
pub proof fn lemma_inner_declaration_invisible(m: SymbolTableModel, m3: SymbolTableModel, name: Seq<char>)
    requires
        m.wf(),
        m3.wf(),
        same_prefix(m.scopes, m3.scopes, m.scopes.len() as int),
        m3.current == m.current,
    ensures
        m3.lookup(name) == m.lookup(name),
{
    lemma_lookup_prefix(m, m3, m.current.0 as int, name);
}

/// Whether each table of `ms` keeps the symbols of the one before it, with
/// at most one more at the end: what every operation of a symbol table does.
pub open spec fn symbols_grow(ms: Seq<SymbolTableModel>) -> bool {
    forall|i: int| 0 <= i < ms.len() - 1 ==> {
        ||| (#[trigger] ms[i + 1]).symbols == ms[i].symbols
        ||| exists|s: Symbol| ms[i + 1].symbols == ms[i].symbols.push(s)
    }
}

/// A declared symbol keeps its record: once the table holds symbol `id`, every
/// later table holds the same symbol under that id.
pub proof fn lemma_declared_symbol_kept(ms: Seq<SymbolTableModel>, k: int, id: int, j: int)
    requires
        symbols_grow(ms),
        0 <= k <= j < ms.len(),
        0 <= id < ms[k].symbols.len(),
    ensures
        id < ms[j].symbols.len(),
        ms[j].symbols[id] == ms[k].symbols[id],
    decreases j - k,
{
    if j > k {
        lemma_declared_symbol_kept(ms, k, id, j - 1);
        let i = j - 1;
        assert(ms[i + 1] == ms[j]);
        if ms[j].symbols != ms[i].symbols {
            let s = choose|s: Symbol| ms[i + 1].symbols == ms[i].symbols.push(s);
            assert(ms[j].symbols[id] == ms[i].symbols[id]);
        }
    }
}
/// A scope's entries give the symbol of the latest entry with the name, and
/// some symbol wherever an entry has the name.
pub proof fn lemma_find_entry_meaning(es: Seq<(String, SymbolId)>, name: Seq<char>)
    ensures
        find_entry(es, name) matches Some(id) ==> exists|k: int| 0 <= k < es.len() && es[k].0@ == name && es[k].1 == id
            && forall|j: int| k < j < es.len() ==> (#[trigger] es[j]).0@ != name,
        (exists|k: int| 0 <= k < es.len() && (#[trigger] es[k]).0@ == name) ==> find_entry(es, name) is Some,
    decreases es.len(),
{
    if es.len() > 0 {
        let p = es.drop_last();
        lemma_find_entry_meaning(p, name);
        if es.last().0@ == name {
            let k = es.len() - 1;
            assert(es[k].0@ == name && es[k].1 == es.last().1);
        } else {
            if find_entry(es, name) is Some {
                let id = find_entry(es, name)->0;
                let k = choose|k: int| 0 <= k < p.len() && p[k].0@ == name && p[k].1 == id
                    && forall|j: int| k < j < p.len() ==> (#[trigger] p[j]).0@ != name;
                assert(es[k] == p[k]);
                assert forall|j: int| k < j < es.len() implies (#[trigger] es[j]).0@ != name by {
                    if j < es.len() - 1 {
                        assert(es[j] == p[j]);
                    }
                }
            }
            if exists|k: int| 0 <= k < es.len() && (#[trigger] es[k]).0@ == name {
                let k = choose|k: int| 0 <= k < es.len() && (#[trigger] es[k]).0@ == name;
                assert(k < es.len() - 1);
                assert(p[k] == es[k]);
            }
        }
    }
}

/// Looking a name up from a scope gives the scope's own symbol of that name
/// where it declares one, and otherwise what its enclosing scope gives.
pub proof fn lemma_lookup_from_meaning(m: SymbolTableModel, sid: int, name: Seq<char>, q: usize)
    requires
        0 <= sid < m.scopes.len(),
    ensures
        find_entry(m.scopes[sid].symbols@, name) matches Some(id) ==> m.lookup_from(sid, name) == Some(id),
        (find_entry(m.scopes[sid].symbols@, name) is None && m.scopes[sid].parent == Some(ScopeId(q)) && q < sid)
            ==> m.lookup_from(sid, name) == m.lookup_from(q as int, name),
        (find_entry(m.scopes[sid].symbols@, name) is None && m.scopes[sid].parent is None) ==> m.lookup_from(sid, name) is None,
{
}

} // verus!
