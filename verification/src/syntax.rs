use vstd::prelude::*;

use crate::assoc::AssocMap;
use crate::diagnostic::ErrorDiagnostic;
use crate::language_def::{
    ErrorRecoveryStrategy as ParserRecovery, LRVariant, Lexer, Parser, ParserType, TokenDefinition,
};
use crate::util::{append_str, str_eq, string_of};

verus! {

/// A grammar symbol.
#[derive(Debug)]
pub enum Symbol {
    Terminal(String),
    NonTerminal(String),
    Epsilon,
    ZeroOrMore(Box<Symbol>),
    OneOrMore(Box<Symbol>),
    Optional(Box<Symbol>),
    Choice(Vec<Symbol>),
    Group(Vec<Symbol>),
}

/// Whether two symbols have the same structure and names.
pub open spec fn same_symbol(a: Symbol, b: Symbol) -> bool
    decreases a,
{
    match (a, b) {
        (Symbol::Terminal(x), Symbol::Terminal(y)) => x@ == y@,
        (Symbol::NonTerminal(x), Symbol::NonTerminal(y)) => x@ == y@,
        (Symbol::Epsilon, Symbol::Epsilon) => true,
        (Symbol::ZeroOrMore(x), Symbol::ZeroOrMore(y)) => same_symbol(*x, *y),
        (Symbol::OneOrMore(x), Symbol::OneOrMore(y)) => same_symbol(*x, *y),
        (Symbol::Optional(x), Symbol::Optional(y)) => same_symbol(*x, *y),
        (Symbol::Choice(x), Symbol::Choice(y)) => same_symbols(x@, y@),
        (Symbol::Group(x), Symbol::Group(y)) => same_symbols(x@, y@),
        _ => false,
    }
}

/// Whether two lists of symbols agree element by element.
pub open spec fn same_symbols(a: Seq<Symbol>, b: Seq<Symbol>) -> bool
    decreases a,
{
    &&& a.len() == b.len()
    &&& (a.len() > 0 ==> same_symbol(a[0], b[0]) && same_symbols(a.drop_first(), b.drop_first()))
}

/// Whether two lists of alternatives agree.
pub open spec fn same_alternatives(a: Seq<Vec<Symbol>>, b: Seq<Vec<Symbol>>) -> bool {
    &&& a.len() == b.len()
    &&& forall|i: int| 0 <= i < a.len() ==> same_symbols((#[trigger] a[i])@, b[i]@)
}

/// Whether two rules agree in name, alternatives, action and follow set.
pub open spec fn same_rule(a: ProductionRule, b: ProductionRule) -> bool {
    &&& a.name@ == b.name@
    &&& same_alternatives(a.alternatives@, b.alternatives@)
    &&& a.semantic_action == b.semantic_action
    &&& match (a.follow_set, b.follow_set) {
        (Some(x), Some(y)) => x@ == y@,
        (None, None) => true,
        _ => false,
    }
}

/// Whether two lists of rules agree element by element.
pub open spec fn same_rules(a: Seq<ProductionRule>, b: Seq<ProductionRule>) -> bool {
    &&& a.len() == b.len()
    &&& forall|i: int| 0 <= i < a.len() ==> same_rule(#[trigger] a[i], b[i])
}

proof fn lemma_same_symbols_push(a: Seq<Symbol>, b: Seq<Symbol>, x: Symbol, y: Symbol)
    requires
        same_symbols(a, b),
        same_symbol(x, y),
    ensures
        same_symbols(a.push(x), b.push(y)),
    decreases a.len(),
{
    if a.len() > 0 {
        lemma_same_symbols_push(a.drop_first(), b.drop_first(), x, y);
        assert(a.push(x).drop_first() =~= a.drop_first().push(x));
        assert(b.push(y).drop_first() =~= b.drop_first().push(y));
        assert(a.push(x)[0] == a[0] && b.push(y)[0] == b[0]);
    } else {
        assert(a.push(x).drop_first() =~= Seq::<Symbol>::empty());
        assert(b.push(y).drop_first() =~= Seq::<Symbol>::empty());
        assert(same_symbols(Seq::<Symbol>::empty(), Seq::<Symbol>::empty()));
        assert(a.push(x)[0] == x && b.push(y)[0] == y);
    }
}

impl Symbol {
    /// A copy of this symbol.
    pub fn copy(&self) -> (r: Symbol)
        ensures
            same_symbol(r, *self),
        decreases self,
    {
        match self {
            Symbol::Terminal(s) => Symbol::Terminal(s.clone()),
            Symbol::NonTerminal(s) => Symbol::NonTerminal(s.clone()),
            Symbol::Epsilon => Symbol::Epsilon,
            Symbol::ZeroOrMore(b) => Symbol::ZeroOrMore(Box::new((**b).copy())),
            Symbol::OneOrMore(b) => Symbol::OneOrMore(Box::new((**b).copy())),
            Symbol::Optional(b) => Symbol::Optional(Box::new((**b).copy())),
            Symbol::Choice(v) => Symbol::Choice(copy_symbols(v)),
            Symbol::Group(v) => Symbol::Group(copy_symbols(v)),
        }
    }
}

/// A copy of a list of symbols.
pub fn copy_symbols(v: &Vec<Symbol>) -> (r: Vec<Symbol>)
    ensures
        same_symbols(r@, v@),
    decreases v,
{
    let mut r: Vec<Symbol> = Vec::new();
    let mut i: usize = 0;
    while i < v.len()
        invariant
            i <= v@.len(),
            same_symbols(r@, v@.subrange(0, i as int)),
        decreases v@.len() - i,
    {
        proof {
            assert(decreases_to!(v => v@));
            assert(decreases_to!(v@ => v@[i as int]));
        }
        let s = v[i].copy();
        let ghost prev = r@;
        r.push(s);
        proof {
            lemma_same_symbols_push(prev, v@.subrange(0, i as int), s, v@[i as int]);
            assert(v@.subrange(0, i as int).push(v@[i as int]) =~= v@.subrange(0, i + 1));
        }
        i = i + 1;
    }
    proof {
        assert(v@.subrange(0, i as int) =~= v@);
    }
    r
}

/// A copy of a list of strings.
pub fn copy_strings(v: &Vec<String>) -> (r: Vec<String>)
    ensures
        r@ == v@,
{
    let mut r: Vec<String> = Vec::new();
    let mut i: usize = 0;
    while i < v.len()
        invariant
            i <= v@.len(),
            r@ == v@.subrange(0, i as int),
        decreases v@.len() - i,
    {
        r.push(v[i].clone());
        i = i + 1;
        proof {
            assert(r@ =~= v@.subrange(0, i as int));
        }
    }
    proof {
        assert(v@.subrange(0, i as int) =~= v@);
    }
    r
}

/// Kind of context-free grammar.
#[derive(Debug, Clone, Copy, PartialEq, Eq, Structural)]
pub enum GrammarType {
    LL(usize),
    LR(LRType),
}

/// Kind of LR grammar.
#[derive(Debug, Clone, Copy, PartialEq, Eq, Structural)]
pub enum LRType {
    SLR,
    LALR,
    CLR,
}

/// How a generated parser recovers from syntax errors.
#[derive(Debug, Clone, Copy, PartialEq, Eq, Structural)]
pub enum ErrorRecoveryStrategy {
    Panic,
    PhraseLevel,
    ErrorProductions,
}

/// Operator associativity.
#[derive(Debug, Clone, Copy, PartialEq, Eq, Structural)]
pub enum Associativity {
    Left,
    Right,
    NonAssociative,
}

/// Precedence and associativity of each operator.
#[derive(Debug)]
pub struct OperatorTable {
    pub precedence: AssocMap<String, u32>,
    pub associativity: AssocMap<String, Associativity>,
}

impl OperatorTable {
    pub fn new() -> (t: Self)
        ensures
            t.precedence@ == Map::<Seq<char>, u32>::empty(),
            t.associativity@ == Map::<Seq<char>, Associativity>::empty(),
    {
        OperatorTable { precedence: AssocMap::new(), associativity: AssocMap::new() }
    }

    /// Sets the precedence and associativity of `op`, replacing earlier settings.
    pub fn add_operator(&mut self, op: &str, precedence: u32, associativity: Associativity)
        ensures
            final(self).precedence@ == old(self).precedence@.insert(op@, precedence),
            final(self).associativity@ == old(self).associativity@.insert(op@, associativity),
    {
        self.precedence.insert(string_of(op), precedence);
        self.associativity.insert(string_of(op), associativity);
    }
}

/// A production rule: a non-terminal and its alternatives.
/// `follow_set` is a list of distinct terminal names.
#[derive(Debug)]
pub struct ProductionRule {
    pub name: String,
    pub alternatives: Vec<Vec<Symbol>>,
    pub semantic_action: Option<String>,
    pub follow_set: Option<Vec<String>>,
}

impl ProductionRule {
    /// A rule without alternatives.
    pub fn new(name: &str) -> (r: Self)
        ensures
            r.name@ == name@,
            r.alternatives@.len() == 0,
            r.semantic_action is None,
            r.follow_set is None,
    {
        ProductionRule { name: string_of(name), alternatives: Vec::new(), semantic_action: None, follow_set: None }
    }

    /// Appends an alternative.
    pub fn add_alternative(&mut self, symbols: Vec<Symbol>)
        ensures
            final(self).alternatives@ == old(self).alternatives@.push(symbols),
            final(self).name == old(self).name,
            final(self).semantic_action == old(self).semantic_action,
            final(self).follow_set == old(self).follow_set,
    {
        self.alternatives.push(symbols);
    }

    /// Sets the semantic action.
    pub fn set_semantic_action(&mut self, action: &str)
        ensures
            final(self).semantic_action matches Some(a) && a@ == action@,
            final(self).name == old(self).name,
            final(self).alternatives == old(self).alternatives,
            final(self).follow_set == old(self).follow_set,
    {
        self.semantic_action = Some(string_of(action));
    }

    /// A copy of this rule.
    pub fn copy(&self) -> (r: Self)
        ensures
            same_rule(r, *self),
    {
        let mut alternatives: Vec<Vec<Symbol>> = Vec::new();
        let mut i: usize = 0;
        while i < self.alternatives.len()
            invariant
                i <= self.alternatives@.len(),
                same_alternatives(alternatives@, self.alternatives@.subrange(0, i as int)),
            decreases self.alternatives@.len() - i,
        {
            alternatives.push(copy_symbols(&self.alternatives[i]));
            i = i + 1;
            proof {
                let a = alternatives@;
                let b = self.alternatives@.subrange(0, i as int);
                assert forall|k: int| 0 <= k < a.len() implies same_symbols((#[trigger] a[k])@, b[k]@) by {
                    if k < i - 1 {
                        assert(b[k] == self.alternatives@.subrange(0, i - 1)[k]);
                    }
                }
            }
        }
        proof {
            assert(self.alternatives@.subrange(0, i as int) =~= self.alternatives@);
        }
        let semantic_action = match &self.semantic_action {
            Some(a) => Some(a.clone()),
            None => None,
        };
        let follow_set = match &self.follow_set {
            Some(f) => Some(copy_strings(f)),
            None => None,
        };
        ProductionRule { name: self.name.clone(), alternatives, semantic_action, follow_set }
    }
}

/// A copy of a list of rules.
pub fn copy_rules(v: &Vec<ProductionRule>) -> (r: Vec<ProductionRule>)
    ensures
        same_rules(r@, v@),
{
    let mut r: Vec<ProductionRule> = Vec::new();
    let mut i: usize = 0;
    while i < v.len()
        invariant
            i <= v@.len(),
            same_rules(r@, v@.subrange(0, i as int)),
        decreases v@.len() - i,
    {
        r.push(v[i].copy());
        i = i + 1;
        proof {
            let a = r@;
            let b = v@.subrange(0, i as int);
            assert forall|k: int| 0 <= k < a.len() implies same_rule(#[trigger] a[k], b[k]) by {
                if k < i - 1 {
                    assert(b[k] == v@.subrange(0, i - 1)[k]);
                }
            }
        }
    }
    proof {
        assert(v@.subrange(0, i as int) =~= v@);
    }
    r
}

/// A copy of a list of token definitions.
pub fn copy_tokens(v: &Vec<TokenDefinition>) -> (r: Vec<TokenDefinition>)
    ensures
        r@ == v@,
{
    let mut r: Vec<TokenDefinition> = Vec::new();
    let mut i: usize = 0;
    while i < v.len()
        invariant
            i <= v@.len(),
            r@ == v@.subrange(0, i as int),
        decreases v@.len() - i,
    {
        r.push(TokenDefinition { name: v[i].name.clone(), pattern: v[i].pattern.clone(), priority: v[i].priority });
        i = i + 1;
        proof {
            assert(r@ =~= v@.subrange(0, i as int));
        }
    }
    proof {
        assert(v@.subrange(0, i as int) =~= v@);
    }
    r
}

/// A node of a syntax tree.
#[derive(Debug)]
pub struct SyntaxNode {
    pub kind: String,
    pub value: Option<String>,
    pub children: Vec<SyntaxNode>,
    pub location: Option<SourceLocation>,
}

/// A span of source text.
#[derive(Debug, Clone, Copy, PartialEq, Eq, Structural)]
pub struct SourceLocation {
    pub start_line: usize,
    pub start_column: usize,
    pub end_line: usize,
    pub end_column: usize,
}

// ---------------------------------------------------------------------------
// What `SyntaxDefinition::validate` reports.

/// The complaints about one token definition.
pub open spec fn token_errors_of(t: TokenDefinition) -> Seq<Seq<char>> {
    (if t.name@.len() == 0 { seq!["Token name cannot be empty"@] } else { seq![] })
        + (if t.pattern@.len() == 0 {
            seq!["Token pattern for '"@ + t.name@ + "' cannot be empty"@]
        } else {
            seq![]
        })
}

/// The complaints about a list of token definitions, in order.
pub open spec fn token_errors(tokens: Seq<TokenDefinition>) -> Seq<Seq<char>>
    decreases tokens.len(),
{
    if tokens.len() == 0 {
        seq![]
    } else {
        token_errors(tokens.drop_last()) + token_errors_of(tokens.last())
    }
}

/// Whether some rule has the given name.
pub open spec fn has_rule(rules: Seq<ProductionRule>, name: Seq<char>) -> bool {
    exists|k: int| 0 <= k < rules.len() && (#[trigger] rules[k]).name@ == name
}

/// The complaint about a symbol of a right-hand side, if it names a non-terminal
/// that no rule defines.
pub open spec fn undefined_of(rules: Seq<ProductionRule>, s: Symbol) -> Seq<Seq<char>> {
    match s {
        Symbol::NonTerminal(name) => if has_rule(rules, name@) {
            seq![]
        } else {
            seq!["Reference to undefined non-terminal: '"@ + name@ + "'"@]
        },
        _ => seq![],
    }
}

/// The complaints about the symbols of one alternative, in order.
pub open spec fn undefined_in_alt(rules: Seq<ProductionRule>, alt: Seq<Symbol>) -> Seq<Seq<char>>
    decreases alt.len(),
{
    if alt.len() == 0 {
        seq![]
    } else {
        undefined_in_alt(rules, alt.drop_last()) + undefined_of(rules, alt.last())
    }
}

/// The complaints about the alternatives of one rule, in order.
pub open spec fn undefined_in_alts(rules: Seq<ProductionRule>, alts: Seq<Vec<Symbol>>) -> Seq<Seq<char>>
    decreases alts.len(),
{
    if alts.len() == 0 {
        seq![]
    } else {
        undefined_in_alts(rules, alts.drop_last()) + undefined_in_alt(rules, alts.last()@)
    }
}

/// The complaints about undefined non-terminals in the rules `rs`, in order.
pub open spec fn undefined_refs(rules: Seq<ProductionRule>, rs: Seq<ProductionRule>) -> Seq<Seq<char>>
    decreases rs.len(),
{
    if rs.len() == 0 {
        seq![]
    } else {
        undefined_refs(rules, rs.drop_last()) + undefined_in_alts(rules, rs.last().alternatives@)
    }
}

/// The non-terminal that an alternative starts with, if any.
pub open spec fn first_non_terminal(alt: Seq<Symbol>) -> Option<Seq<char>> {
    if alt.len() > 0 {
        match alt[0] {
            Symbol::NonTerminal(n) => Some(n@),
            _ => None,
        }
    } else {
        None
    }
}

/// The index of the first rule named `name`.
pub open spec fn find_rule(rules: Seq<ProductionRule>, name: Seq<char>) -> Option<int>
    decreases rules.len(),
{
    if rules.len() == 0 {
        None
    } else if rules[0].name@ == name {
        Some(0)
    } else {
        match find_rule(rules.drop_first(), name) {
            Some(i) => Some(i + 1),
            None => None,
        }
    }
}

/// The number of rules whose name is not in `avoid`.
pub open spec fn unvisited(rules: Seq<ProductionRule>, avoid: Set<Seq<char>>) -> nat
    decreases rules.len(),
{
    if rules.len() == 0 {
        0
    } else {
        unvisited(rules.drop_last(), avoid) + if avoid.contains(rules.last().name@) { 0nat } else { 1nat }
    }
}

/// Whether, from rule `r` and without entering a rule whose name is in
/// `avoid`, following the leading non-terminals of alternatives (each name
/// standing for the first rule of that name) reaches a leading non-terminal
/// named `target`. A rule `t` is left-recursive, directly or through other
/// rules, when this holds from `t` itself with `target` its own name.
pub open spec fn left_recursive(rules: Seq<ProductionRule>, target: Seq<char>, r: ProductionRule, avoid: Set<Seq<char>>) -> bool
    decreases unvisited(rules, avoid),
    via left_recursive_decreases
{
    if avoid.contains(r.name@) || !has_rule(rules, r.name@) {
        false
    } else {
        exists|i: int| 0 <= i < r.alternatives@.len() && match first_non_terminal((#[trigger] r.alternatives@[i])@) {
            Some(n) => n == target || match find_rule(rules, n) {
                Some(j) => left_recursive(rules, target, rules[j], avoid.insert(r.name@)),
                None => false,
            },
            None => false,
        }
    }
}

proof fn lemma_unvisited_insert(rules: Seq<ProductionRule>, avoid: Set<Seq<char>>, x: Seq<char>)
    ensures
        unvisited(rules, avoid.insert(x)) <= unvisited(rules, avoid),
        !avoid.contains(x) && has_rule(rules, x) ==> unvisited(rules, avoid.insert(x)) < unvisited(rules, avoid),
    decreases rules.len(),
{
    if rules.len() > 0 {
        lemma_unvisited_insert(rules.drop_last(), avoid, x);
        if !avoid.contains(x) && has_rule(rules, x) && rules.last().name@ != x {
            let k = choose|k: int| 0 <= k < rules.len() && (#[trigger] rules[k]).name@ == x;
            assert(rules.drop_last()[k] == rules[k]);
        }
    }
}

proof fn lemma_find_rule(rules: Seq<ProductionRule>, name: Seq<char>)
    ensures
        find_rule(rules, name) matches Some(j) ==> 0 <= j < rules.len() && rules[j].name@ == name
            && forall|k: int| 0 <= k < j ==> (#[trigger] rules[k]).name@ != name,
        find_rule(rules, name) is None ==> !has_rule(rules, name),
    decreases rules.len(),
{
    if rules.len() > 0 {
        lemma_find_rule(rules.drop_first(), name);
        if find_rule(rules, name) is None {
            assert forall|k: int| 0 <= k < rules.len() implies (#[trigger] rules[k]).name@ != name by {
                if k > 0 {
                    assert(rules[k] == rules.drop_first()[k - 1]);
                }
            }
        }
        if let Some(j) = find_rule(rules, name) {
            if j > 0 {
                assert forall|k: int| 0 <= k < j implies (#[trigger] rules[k]).name@ != name by {
                    if k > 0 {
                        assert(rules[k] == rules.drop_first()[k - 1]);
                    }
                }
            }
        }
    }
}

#[via_fn]
proof fn left_recursive_decreases(rules: Seq<ProductionRule>, target: Seq<char>, r: ProductionRule, avoid: Set<Seq<char>>) {
    lemma_unvisited_insert(rules, avoid, r.name@);
    assert forall|n: Seq<char>| (#[trigger] find_rule(rules, n)) is Some implies
        0 <= find_rule(rules, n).unwrap() < rules.len() by {
        lemma_find_rule(rules, n);
    }
}

/// A rule of the grammar one of whose alternatives starts with its own name
/// is left-recursive; so is one whose alternative starts with another rule
/// (the first of that name) one of whose alternatives starts with the first
/// rule's name.
pub proof fn lemma_left_recursion_detected(rules: Seq<ProductionRule>, p: int, i: int, q: int, k: int)
    requires
        0 <= p < rules.len(),
        0 <= i < rules[p].alternatives@.len(),
    ensures
        first_non_terminal(rules[p].alternatives@[i]@) == Some(rules[p].name@) ==> left_recursive(
            rules,
            rules[p].name@,
            rules[p],
            Set::empty(),
        ),
        (first_non_terminal(rules[p].alternatives@[i]@) matches Some(b) && b != rules[p].name@ && find_rule(rules, b) == Some(q)
            && 0 <= k < rules[q].alternatives@.len() && first_non_terminal(rules[q].alternatives@[k]@) == Some(rules[p].name@))
            ==> left_recursive(rules, rules[p].name@, rules[p], Set::empty()),
{
    let r = rules[p];
    let t = r.name@;
    assert(has_rule(rules, t)) by {
        assert(rules[p].name@ == t);
    }
    if first_non_terminal(r.alternatives@[i]@) == Some(t) {
        assert(match first_non_terminal((r.alternatives@[i])@) {
            Some(n) => n == t || match find_rule(rules, n) {
                Some(j) => left_recursive(rules, t, rules[j], Set::empty().insert(t)),
                None => false,
            },
            None => false,
        });
    }
    if first_non_terminal(r.alternatives@[i]@) matches Some(b) && b != t && find_rule(rules, b) == Some(q)
        && 0 <= k < rules[q].alternatives@.len() && first_non_terminal(rules[q].alternatives@[k]@) == Some(t) {
        let b = first_non_terminal(r.alternatives@[i]@)->0;
        lemma_find_rule(rules, b);
        let rq = rules[q];
        let av = Set::<Seq<char>>::empty().insert(t);
        assert(rq.name@ == b);
        assert(!av.contains(rq.name@));
        assert(has_rule(rules, rq.name@)) by {
            assert(rules[q].name@ == b);
        }
        assert(match first_non_terminal((rq.alternatives@[k])@) {
            Some(n) => n == t || match find_rule(rules, n) {
                Some(j) => left_recursive(rules, t, rules[j], av.insert(rq.name@)),
                None => false,
            },
            None => false,
        });
        assert(left_recursive(rules, t, rq, av));
        assert(match first_non_terminal((r.alternatives@[i])@) {
            Some(n) => n == t || match find_rule(rules, n) {
                Some(j) => left_recursive(rules, t, rules[j], Set::empty().insert(t)),
                None => false,
            },
            None => false,
        });
    }
}

/// A rule none of whose alternatives starts with a non-terminal is not
/// left-recursive.
pub proof fn lemma_no_leading_non_terminal(rules: Seq<ProductionRule>, t: Seq<char>, r: ProductionRule, avoid: Set<Seq<char>>)
    requires
        forall|i: int| 0 <= i < r.alternatives@.len() ==> first_non_terminal(#[trigger] r.alternatives@[i]@) is None,
    ensures
        !left_recursive(rules, t, r, avoid),
{
}

/// The complaints about left recursion in the rules `rs`, in order.
pub open spec fn left_recursion_errors(rules: Seq<ProductionRule>, rs: Seq<ProductionRule>) -> Seq<Seq<char>>
    decreases rs.len(),
{
    if rs.len() == 0 {
        seq![]
    } else {
        left_recursion_errors(rules, rs.drop_last()) + if left_recursive(rules, rs.last().name@, rs.last(), Set::empty()) {
            seq!["Left recursion detected in rule: '"@ + rs.last().name@ + "'"@]
        } else {
            seq![]
        }
    }
}

/// Everything that `validate` reports about a syntax definition, in order.
pub open spec fn syntax_errors(d: SyntaxDefinition) -> Seq<Seq<char>> {
    token_errors(d.tokens@)
        + undefined_refs(d.rules@, d.rules@)
        + (if has_rule(d.rules@, "start"@) { seq![] } else { seq!["Grammar must define a 'start' rule"@] })
        + (if d.grammar_type is LL { left_recursion_errors(d.rules@, d.rules@) } else { seq![] })
}

/// The diagnostics that `validate` produces from a list of messages.
pub open spec fn syntax_diagnostics(ms: Seq<Seq<char>>, ds: Seq<ErrorDiagnostic>) -> bool {
    &&& ds.len() == ms.len()
    &&& forall|i: int| 0 <= i < ds.len() ==> {
        &&& (#[trigger] ds[i]).message@ == ms[i]
        &&& ds[i].detail@ == "SyntaxDefinition"@
        &&& ds[i].location is None
        &&& ds[i].severity == crate::diagnostic::Severity::Error
    }
}

fn push_syntax_error(errors: &mut Vec<ErrorDiagnostic>, message: String)
    ensures
        final(errors)@ == old(errors)@.push(final(errors)@.last()),
        final(errors)@.last().message == message,
        final(errors)@.last().detail@ == "SyntaxDefinition"@,
        final(errors)@.last().location is None,
        final(errors)@.last().severity == crate::diagnostic::Severity::Error,
{
    let d = ErrorDiagnostic::new(message, string_of("SyntaxDefinition"), None);
    errors.push(d);
}

proof fn lemma_syntax_diagnostics_push(ms: Seq<Seq<char>>, ds: Seq<ErrorDiagnostic>, m: Seq<char>, d: ErrorDiagnostic)
    requires
        syntax_diagnostics(ms, ds),
        d.message@ == m,
        d.detail@ == "SyntaxDefinition"@,
        d.location is None,
        d.severity == crate::diagnostic::Severity::Error,
    ensures
        syntax_diagnostics(ms.push(m), ds.push(d)),
{
    assert forall|i: int| 0 <= i < ds.push(d).len() implies {
        &&& (#[trigger] ds.push(d)[i]).message@ == ms.push(m)[i]
        &&& ds.push(d)[i].detail@ == "SyntaxDefinition"@
        &&& ds.push(d)[i].location is None
        &&& ds.push(d)[i].severity == crate::diagnostic::Severity::Error
    } by {
        if i < ds.len() {
            assert(ds.push(d)[i] == ds[i]);
        }
    }
}

/// Whether some rule is named `name`.
fn has_rule_named(rules: &Vec<ProductionRule>, name: &String) -> (r: Option<usize>)
    ensures
        r matches Some(j) ==> find_rule(rules@, name@) == Some(j as int),
        r is None ==> find_rule(rules@, name@) is None && !has_rule(rules@, name@),
{
    proof {
        lemma_find_rule(rules@, name@);
    }
    let mut i: usize = 0;
    while i < rules.len()
        invariant
            i <= rules@.len(),
            forall|k: int| 0 <= k < i ==> (#[trigger] rules@[k]).name@ != name@,
            find_rule(rules@, name@) matches Some(j) ==> 0 <= j < rules@.len() && rules@[j].name@ == name@
                && forall|k: int| 0 <= k < j ==> (#[trigger] rules@[k]).name@ != name@,
            find_rule(rules@, name@) is None ==> !has_rule(rules@, name@),
        decreases rules@.len() - i,
    {
        if rules[i].name == *name {
            return Some(i);
        }
        i = i + 1;
    }
    None
}

/// The definition of a language's syntax.
#[derive(Debug)]
pub struct SyntaxDefinition {
    pub tokens: Vec<TokenDefinition>,
    pub keywords: AssocMap<String, ()>,
    pub rules: Vec<ProductionRule>,
    pub operators: OperatorTable,
    pub grammar_type: GrammarType,
    pub error_recovery: ErrorRecoveryStrategy,
    pub error_messages: AssocMap<String, String>,
}

impl SyntaxDefinition {
    /// An empty LL(1) definition with panic-mode recovery.
    pub fn new() -> (d: Self)
        ensures
            d.tokens@.len() == 0,
            d.keywords@ == Map::<Seq<char>, ()>::empty(),
            d.rules@.len() == 0,
            d.operators.precedence@ == Map::<Seq<char>, u32>::empty(),
            d.operators.associativity@ == Map::<Seq<char>, Associativity>::empty(),
            d.grammar_type == GrammarType::LL(1),
            d.error_recovery == ErrorRecoveryStrategy::Panic,
            d.error_messages@ == Map::<Seq<char>, String>::empty(),
    {
        SyntaxDefinition {
            tokens: Vec::new(),
            keywords: AssocMap::new(),
            rules: Vec::new(),
            operators: OperatorTable::new(),
            grammar_type: GrammarType::LL(1),
            error_recovery: ErrorRecoveryStrategy::Panic,
            error_messages: AssocMap::new(),
        }
    }

    /// Appends a token definition.
    pub fn add_token(&mut self, name: &str, pattern: &str, priority: u32)
        ensures
            final(self).tokens@.len() == old(self).tokens@.len() + 1,
            final(self).tokens@.drop_last() == old(self).tokens@,
            final(self).tokens@.last().name@ == name@,
            final(self).tokens@.last().pattern@ == pattern@,
            final(self).tokens@.last().priority == priority,
            final(self).keywords == old(self).keywords,
            final(self).rules == old(self).rules,
            final(self).operators == old(self).operators,
            final(self).grammar_type == old(self).grammar_type,
            final(self).error_recovery == old(self).error_recovery,
            final(self).error_messages == old(self).error_messages,
    {
        self.tokens.push(TokenDefinition { name: string_of(name), pattern: string_of(pattern), priority });
        proof {
            assert(self.tokens@.drop_last() =~= old(self).tokens@);
        }
    }

    /// Adds a keyword.
    pub fn add_keyword(&mut self, keyword: &str)
        ensures
            final(self).keywords@ == old(self).keywords@.insert(keyword@, ()),
            final(self).tokens == old(self).tokens,
            final(self).rules == old(self).rules,
            final(self).operators == old(self).operators,
            final(self).grammar_type == old(self).grammar_type,
            final(self).error_recovery == old(self).error_recovery,
            final(self).error_messages == old(self).error_messages,
    {
        self.keywords.insert(string_of(keyword), ());
    }

    /// Appends a rule.
    pub fn add_rule(&mut self, rule: ProductionRule)
        ensures
            final(self).rules@ == old(self).rules@.push(rule),
            final(self).tokens == old(self).tokens,
            final(self).keywords == old(self).keywords,
            final(self).operators == old(self).operators,
            final(self).grammar_type == old(self).grammar_type,
            final(self).error_recovery == old(self).error_recovery,
            final(self).error_messages == old(self).error_messages,
    {
        self.rules.push(rule);
    }

    /// Sets an operator's precedence and associativity.
    pub fn add_operator(&mut self, op: &str, precedence: u32, associativity: Associativity)
        ensures
            final(self).operators.precedence@ == old(self).operators.precedence@.insert(op@, precedence),
            final(self).operators.associativity@ == old(self).operators.associativity@.insert(op@, associativity),
            final(self).tokens == old(self).tokens,
            final(self).keywords == old(self).keywords,
            final(self).rules == old(self).rules,
            final(self).grammar_type == old(self).grammar_type,
            final(self).error_recovery == old(self).error_recovery,
            final(self).error_messages == old(self).error_messages,
    {
        self.operators.add_operator(op, precedence, associativity);
    }

    fn check_tokens(&self, errors: &mut Vec<ErrorDiagnostic>)
        requires
            syntax_diagnostics(seq![], old(errors)@),
        ensures
            syntax_diagnostics(token_errors(self.tokens@), final(errors)@),
    {
        let mut i: usize = 0;
        while i < self.tokens.len()
            invariant
                i <= self.tokens@.len(),
                syntax_diagnostics(token_errors(self.tokens@.subrange(0, i as int)), errors@),
            decreases self.tokens@.len() - i,
        {
            let token = &self.tokens[i];
            let ghost before = token_errors(self.tokens@.subrange(0, i as int));
            proof {
                assert(self.tokens@.subrange(0, i + 1).drop_last() =~= self.tokens@.subrange(0, i as int));
            }
            if token.name.as_str().is_empty() {
                let ghost ds = errors@;
                push_syntax_error(errors, string_of("Token name cannot be empty"));
                proof {
                    lemma_syntax_diagnostics_push(before, ds, "Token name cannot be empty"@, errors@.last());
                    assert(errors@ == ds.push(errors@.last()));
                }
            }
            let ghost mid = if token.name@.len() == 0 { before.push("Token name cannot be empty"@) } else { before };
            if token.pattern.as_str().is_empty() {
                let mut m = string_of("Token pattern for '");
                append_str(&mut m, token.name.as_str());
                append_str(&mut m, "' cannot be empty");
                let ghost ds = errors@;
                let ghost mm = m@;
                push_syntax_error(errors, m);
                proof {
                    lemma_syntax_diagnostics_push(mid, ds, mm, errors@.last());
                    assert(errors@ == ds.push(errors@.last()));
                }
            }
            proof {
                assert(token_errors(self.tokens@.subrange(0, i + 1)) =~= before + token_errors_of(*token));
            }
            i = i + 1;
        }
        proof {
            assert(self.tokens@.subrange(0, i as int) =~= self.tokens@);
        }
    }

    fn check_alternative(&self, alt: &Vec<Symbol>, errors: &mut Vec<ErrorDiagnostic>, Ghost(ms): Ghost<Seq<Seq<char>>>)
        requires
            syntax_diagnostics(ms, old(errors)@),
        ensures
            syntax_diagnostics(ms + undefined_in_alt(self.rules@, alt@), final(errors)@),
    {
        let mut i: usize = 0;
        while i < alt.len()
            invariant
                i <= alt@.len(),
                syntax_diagnostics(ms + undefined_in_alt(self.rules@, alt@.subrange(0, i as int)), errors@),
            decreases alt@.len() - i,
        {
            let ghost before = ms + undefined_in_alt(self.rules@, alt@.subrange(0, i as int));
            proof {
                assert(alt@.subrange(0, i + 1).drop_last() =~= alt@.subrange(0, i as int));
                assert(alt@.subrange(0, i + 1).last() == alt@[i as int]);
            }
            match &alt[i] {
                Symbol::NonTerminal(name) => {
                    proof {
                        lemma_find_rule(self.rules@, name@);
                    }
                    if has_rule_named(&self.rules, name).is_none() {
                        let mut m = string_of("Reference to undefined non-terminal: '");
                        append_str(&mut m, name.as_str());
                        append_str(&mut m, "'");
                        let ghost ds = errors@;
                        let ghost mm = m@;
                        push_syntax_error(errors, m);
                        proof {
                            lemma_syntax_diagnostics_push(before, ds, mm, errors@.last());
                            assert(errors@ == ds.push(errors@.last()));
                        }
                    }
                },
                _ => {},
            }
            proof {
                assert(ms + undefined_in_alt(self.rules@, alt@.subrange(0, i + 1))
                    =~= before + undefined_of(self.rules@, alt@[i as int]));
            }
            i = i + 1;
        }
        proof {
            assert(alt@.subrange(0, i as int) =~= alt@);
        }
    }

    fn check_rule_references(&self, errors: &mut Vec<ErrorDiagnostic>, Ghost(ms): Ghost<Seq<Seq<char>>>)
        requires
            syntax_diagnostics(ms, old(errors)@),
        ensures
            syntax_diagnostics(ms + undefined_refs(self.rules@, self.rules@), final(errors)@),
    {
        let mut i: usize = 0;
        while i < self.rules.len()
            invariant
                i <= self.rules@.len(),
                syntax_diagnostics(ms + undefined_refs(self.rules@, self.rules@.subrange(0, i as int)), errors@),
            decreases self.rules@.len() - i,
        {
            let rule = &self.rules[i];
            let ghost before = ms + undefined_refs(self.rules@, self.rules@.subrange(0, i as int));
            let mut j: usize = 0;
            while j < rule.alternatives.len()
                invariant
                    j <= rule.alternatives@.len(),
                    syntax_diagnostics(before + undefined_in_alts(self.rules@, rule.alternatives@.subrange(0, j as int)), errors@),
                decreases rule.alternatives@.len() - j,
            {
                let ghost b2 = before + undefined_in_alts(self.rules@, rule.alternatives@.subrange(0, j as int));
                self.check_alternative(&rule.alternatives[j], errors, Ghost(b2));
                proof {
                    let s = rule.alternatives@.subrange(0, j + 1);
                    assert(s.drop_last() =~= rule.alternatives@.subrange(0, j as int));
                    assert(before + undefined_in_alts(self.rules@, s) =~= b2 + undefined_in_alt(self.rules@, rule.alternatives@[j as int]@));
                }
                j = j + 1;
            }
            proof {
                assert(rule.alternatives@.subrange(0, j as int) =~= rule.alternatives@);
                let s = self.rules@.subrange(0, i + 1);
                assert(s.drop_last() =~= self.rules@.subrange(0, i as int));
                assert(ms + undefined_refs(self.rules@, s) =~= before + undefined_in_alts(self.rules@, rule.alternatives@));
            }
            i = i + 1;
        }
        proof {
            assert(self.rules@.subrange(0, i as int) =~= self.rules@);
        }
    }

    /// Checks the definition: token names and patterns are not empty, every
    /// non-terminal used in an alternative has a rule, a `start` rule exists,
    /// and, for an LL grammar, no rule is left-recursive. Reports every problem, in that order.
    pub fn validate(&self) -> (r: Result<(), Vec<ErrorDiagnostic>>)
        ensures
            syntax_errors(*self).len() == 0 ==> r is Ok,
            syntax_errors(*self).len() > 0 ==> (r matches Err(ds) && syntax_diagnostics(syntax_errors(*self), ds@)),
    {
        let mut errors: Vec<ErrorDiagnostic> = Vec::new();
        self.check_tokens(&mut errors);
        let ghost m1 = token_errors(self.tokens@);
        self.check_rule_references(&mut errors, Ghost(m1));
        let ghost m2 = m1 + undefined_refs(self.rules@, self.rules@);
        let start = string_of("start");
        if has_rule_named(&self.rules, &start).is_none() {
            let ghost ds = errors@;
            push_syntax_error(&mut errors, string_of("Grammar must define a 'start' rule"));
            proof {
                lemma_syntax_diagnostics_push(m2, ds, "Grammar must define a 'start' rule"@, errors@.last());
                assert(errors@ == ds.push(errors@.last()));
            }
        } else {
            proof {
                lemma_find_rule(self.rules@, "start"@);
            }
        }
        let ghost m3 = m2 + (if has_rule(self.rules@, "start"@) { seq![] } else { seq!["Grammar must define a 'start' rule"@] });
        proof {
            if has_rule(self.rules@, "start"@) {
                assert(m3 =~= m2);
            } else {
                assert(m3 =~= m2.push("Grammar must define a 'start' rule"@));
            }
        }
        if let GrammarType::LL(_) = self.grammar_type {
            let mut i: usize = 0;
            while i < self.rules.len()
                invariant
                    i <= self.rules@.len(),
                    self.grammar_type is LL,
                    syntax_diagnostics(m3 + left_recursion_errors(self.rules@, self.rules@.subrange(0, i as int)), errors@),
                decreases self.rules@.len() - i,
            {
                let ghost before = m3 + left_recursion_errors(self.rules@, self.rules@.subrange(0, i as int));
                let mut visited: Vec<String> = Vec::new();
                proof {
                    assert(self.rules@[i as int] == self.rules@[i as int]);
                    assert(has_rule(self.rules@, self.rules@[i as int].name@));
                    assert(name_set(visited@) =~= Set::<Seq<char>>::empty());
                }
                let lr = self.has_left_recursion(&self.rules[i].name, &self.rules[i], &mut visited);
                if lr {
                    let mut m = string_of("Left recursion detected in rule: '");
                    append_str(&mut m, self.rules[i].name.as_str());
                    append_str(&mut m, "'");
                    let ghost ds = errors@;
                    let ghost mm = m@;
                    push_syntax_error(&mut errors, m);
                    proof {
                        lemma_syntax_diagnostics_push(before, ds, mm, errors@.last());
                        assert(errors@ == ds.push(errors@.last()));
                    }
                }
                proof {
                    let s = self.rules@.subrange(0, i + 1);
                    assert(s.drop_last() =~= self.rules@.subrange(0, i as int));
                    assert(s.last() == self.rules@[i as int]);
                    if lr {
                        assert(m3 + left_recursion_errors(self.rules@, s) =~= before.push(
                            "Left recursion detected in rule: '"@ + self.rules@[i as int].name@ + "'"@));
                    } else {
                        assert(m3 + left_recursion_errors(self.rules@, s) =~= before);
                    }
                }
                i = i + 1;
            }
            proof {
                assert(self.rules@.subrange(0, i as int) =~= self.rules@);
                assert(syntax_errors(*self) =~= m3 + left_recursion_errors(self.rules@, self.rules@));
            }
        } else {
            proof {
                assert(syntax_errors(*self) =~= m3);
            }
        }
        if errors.len() == 0 {
            Ok(())
        } else {
            Err(errors)
        }
    }

    /// Whether a chain of leading non-terminals from `rule` reaches `target`,
    /// avoiding the rules named in `visited`.
    fn has_left_recursion(&self, target: &String, rule: &ProductionRule, visited: &mut Vec<String>) -> (r: bool)
        requires
            has_rule(self.rules@, rule.name@),
        ensures
            r == left_recursive(self.rules@, target@, *rule, name_set(old(visited)@)),
            !r ==> final(visited)@ == old(visited)@,
        decreases unvisited(self.rules@, name_set(old(visited)@)),
    {
        let ghost avoid = name_set(visited@);
        if contains_name(visited, &rule.name) {
            return false;
        }
        visited.push(rule.name.clone());
        proof {
            assert forall|n: Seq<char>| name_set(visited@).contains(n) <==> avoid.insert(rule.name@).contains(n) by {
                if name_set(visited@).contains(n) {
                    let k = choose|k: int| 0 <= k < visited@.len() && (#[trigger] visited@[k])@ == n;
                    if k < old(visited)@.len() {
                        assert(visited@[k] == old(visited)@[k]);
                    }
                }
                if avoid.contains(n) {
                    let k = choose|k: int| 0 <= k < old(visited)@.len() && (#[trigger] old(visited)@[k])@ == n;
                    assert(visited@[k] == old(visited)@[k]);
                }
                if n == rule.name@ {
                    assert(visited@[visited@.len() - 1]@ == n);
                }
            }
            assert(name_set(visited@) =~= avoid.insert(rule.name@));
            lemma_unvisited_insert(self.rules@, avoid, rule.name@);
        }
        let mut i: usize = 0;
        while i < rule.alternatives.len()
            invariant
                has_rule(self.rules@, rule.name@),
                !avoid.contains(rule.name@),
                avoid == name_set(old(visited)@),
                i <= rule.alternatives@.len(),
                visited@ == old(visited)@.push(rule.name),
                name_set(visited@) == avoid.insert(rule.name@),
                unvisited(self.rules@, avoid.insert(rule.name@)) < unvisited(self.rules@, avoid),
                forall|k: int| 0 <= k < i ==> !match first_non_terminal((#[trigger] rule.alternatives@[k])@) {
                    Some(n) => n == target@ || match find_rule(self.rules@, n) {
                        Some(j) => left_recursive(self.rules@, target@, self.rules@[j], avoid.insert(rule.name@)),
                        None => false,
                    },
                    None => false,
                },
            decreases rule.alternatives@.len() - i,
        {
            let alternative = &rule.alternatives[i];
            if alternative.len() > 0 {
                match &alternative[0] {
                    Symbol::NonTerminal(name) => {
                        if *name == *target {
                            proof {
                                assert(first_non_terminal(rule.alternatives@[i as int]@) == Some(name@));
                            }
                            return true;
                        }
                        match has_rule_named(&self.rules, name) {
                            Some(j) => {
                                proof {
                                    lemma_find_rule(self.rules@, name@);
                                    assert(has_rule(self.rules@, self.rules@[j as int].name@));
                                }
                                if self.has_left_recursion(target, &self.rules[j], visited) {
                                    proof {
                                        assert(first_non_terminal(rule.alternatives@[i as int]@) == Some(name@));
                                    }
                                    return true;
                                }
                            },
                            None => {},
                        }
                    },
                    _ => {},
                }
            }
            i = i + 1;
        }
        visited.pop();
        proof {
            assert(visited@ =~= old(visited)@);
        }
        false
    }

    /// A lexer for the token definitions; `WHITESPACE` and `COMMENT` tokens are skipped.
    pub fn generate_lexer(&self) -> (l: Lexer)
        ensures
            l.token_definitions@ == self.tokens@,
            forall|k: Seq<char>| l.skip_tokens@.contains_key(k) <==>
                (k == "WHITESPACE"@ || k == "COMMENT"@) && exists|i: int| 0 <= i < self.tokens@.len()
                    && (#[trigger] self.tokens@[i]).name@ == k,
    {
        let mut skip_tokens: AssocMap<String, ()> = AssocMap::new();
        let mut i: usize = 0;
        while i < self.tokens.len()
            invariant
                i <= self.tokens@.len(),
                forall|k: Seq<char>| skip_tokens@.contains_key(k) <==>
                    (k == "WHITESPACE"@ || k == "COMMENT"@) && exists|j: int| 0 <= j < i
                        && (#[trigger] self.tokens@[j]).name@ == k,
            decreases self.tokens@.len() - i,
        {
            let token = &self.tokens[i];
            if str_eq(token.name.as_str(), "WHITESPACE") || str_eq(token.name.as_str(), "COMMENT") {
                skip_tokens.insert(token.name.clone(), ());
            }
            proof {
                assert forall|k: Seq<char>| skip_tokens@.contains_key(k) <==>
                    (k == "WHITESPACE"@ || k == "COMMENT"@) && exists|j: int| 0 <= j < i + 1
                        && (#[trigger] self.tokens@[j]).name@ == k by {
                    if (k == "WHITESPACE"@ || k == "COMMENT"@) && exists|j: int| 0 <= j < i + 1 && (#[trigger] self.tokens@[j]).name@ == k {
                        let j = choose|j: int| 0 <= j < i + 1 && (#[trigger] self.tokens@[j]).name@ == k;
                        if j < i {
                            assert(exists|j2: int| 0 <= j2 < i && (#[trigger] self.tokens@[j2]).name@ == k);
                        }
                    }
                }
            }
            i = i + 1;
        }
        Lexer { token_definitions: copy_tokens(&self.tokens), skip_tokens }
    }

    /// A parser for the rules: predictive LL(1) for an LL(1) grammar,
    /// recursive descent for other LL grammars, and the matching LR variant otherwise.
    pub fn generate_parser(&self) -> (p: Parser)
        ensures
            same_rules(p.grammar_rules@, self.rules@),
            p.parser_type == match self.grammar_type {
                GrammarType::LL(k) => if k == 1 { ParserType::PredictiveLL(1) } else { ParserType::RecursiveDescent },
                GrammarType::LR(LRType::SLR) => ParserType::LR(LRVariant::SLR),
                GrammarType::LR(LRType::LALR) => ParserType::LR(LRVariant::LALR),
                GrammarType::LR(LRType::CLR) => ParserType::LR(LRVariant::CanonicalLR),
            },
            p.error_recovery == match self.error_recovery {
                ErrorRecoveryStrategy::Panic => ParserRecovery::Panic,
                ErrorRecoveryStrategy::PhraseLevel => ParserRecovery::PhraseLevel,
                ErrorRecoveryStrategy::ErrorProductions => ParserRecovery::ErrorProduction,
            },
    {
        Parser {
            grammar_rules: copy_rules(&self.rules),
            parser_type: match self.grammar_type {
                GrammarType::LL(k) => {
                    if k == 1 {
                        ParserType::PredictiveLL(1)
                    } else {
                        ParserType::RecursiveDescent
                    }
                },
                GrammarType::LR(lr_type) => match lr_type {
                    LRType::SLR => ParserType::LR(LRVariant::SLR),
                    LRType::LALR => ParserType::LR(LRVariant::LALR),
                    LRType::CLR => ParserType::LR(LRVariant::CanonicalLR),
                },
            },
            error_recovery: match self.error_recovery {
                ErrorRecoveryStrategy::Panic => ParserRecovery::Panic,
                ErrorRecoveryStrategy::PhraseLevel => ParserRecovery::PhraseLevel,
                ErrorRecoveryStrategy::ErrorProductions => ParserRecovery::ErrorProduction,
            },
        }
    }
}

/// The set of names in a list.
pub open spec fn name_set(v: Seq<String>) -> Set<Seq<char>> {
    Set::new(|n: Seq<char>| exists|i: int| 0 <= i < v.len() && (#[trigger] v[i])@ == n)
}

fn contains_name(v: &Vec<String>, name: &String) -> (r: bool)
    ensures
        r == name_set(v@).contains(name@),
{
    let mut i: usize = 0;
    while i < v.len()
        invariant
            i <= v@.len(),
            forall|k: int| 0 <= k < i ==> (#[trigger] v@[k])@ != name@,
        decreases v@.len() - i,
    {
        if v[i] == *name {
            return true;
        }
        i = i + 1;
    }
    false
}

// ---------------------------------------------------------------------------
// Constructors for grammar descriptions.

/// A terminal symbol.
pub fn terminal(name: &str) -> (s: Symbol)
    ensures
        s matches Symbol::Terminal(n) && n@ == name@,
{
    Symbol::Terminal(string_of(name))
}

/// A non-terminal symbol.
pub fn non_terminal(name: &str) -> (s: Symbol)
    ensures
        s matches Symbol::NonTerminal(n) && n@ == name@,
{
    Symbol::NonTerminal(string_of(name))
}

/// The empty string.
pub fn epsilon() -> (s: Symbol)
    ensures
        s == Symbol::Epsilon,
{
    Symbol::Epsilon
}

/// Zero or more repetitions of a symbol.
pub fn zero_or_more(symbol: Symbol) -> (s: Symbol)
    ensures
        s == Symbol::ZeroOrMore(Box::new(symbol)),
{
    Symbol::ZeroOrMore(Box::new(symbol))
}

/// One or more repetitions of a symbol.
pub fn one_or_more(symbol: Symbol) -> (s: Symbol)
    ensures
        s == Symbol::OneOrMore(Box::new(symbol)),
{
    Symbol::OneOrMore(Box::new(symbol))
}

/// An optional symbol.
pub fn optional(symbol: Symbol) -> (s: Symbol)
    ensures
        s == Symbol::Optional(Box::new(symbol)),
{
    Symbol::Optional(Box::new(symbol))
}

/// A choice among symbols.
pub fn choice(symbols: Vec<Symbol>) -> (s: Symbol)
    ensures
        s == Symbol::Choice(symbols),
{
    Symbol::Choice(symbols)
}

/// A group of symbols.
pub fn group(symbols: Vec<Symbol>) -> (s: Symbol)
    ensures
        s == Symbol::Group(symbols),
{
    Symbol::Group(symbols)
}

/// A rule with the given alternatives, in order.
pub fn rule(name: &str, alternatives: Vec<Vec<Symbol>>) -> (r: ProductionRule)
    ensures
        r.name@ == name@,
        r.alternatives@ == alternatives@,
        r.semantic_action is None,
        r.follow_set is None,
{
    let mut rule = ProductionRule::new(name);
    let mut alts = alternatives;
    let ghost all = alts@;
    let mut rev: Vec<Vec<Symbol>> = Vec::new();
    while alts.len() > 0
        invariant
            all == alts@ + rev@.reverse(),
        decreases alts@.len(),
    {
        let a = alts.pop().unwrap();
        let ghost prev = rev@;
        rev.push(a);
        proof {
            assert(rev@.reverse() =~= seq![a] + prev.reverse());
            assert(all =~= alts@ + rev@.reverse());
        }
    }
    while rev.len() > 0
        invariant
            all == rule.alternatives@ + rev@.reverse(),
            rule.name@ == name@,
            rule.semantic_action is None,
            rule.follow_set is None,
        decreases rev@.len(),
    {
        let a = rev.pop().unwrap();
        let ghost prev = rev@;
        rule.add_alternative(a);
        proof {
            assert(all =~= rule.alternatives@ + rev@.reverse());
        }
    }
    proof {
        assert(all =~= rule.alternatives@);
    }
    rule
}

/// A rule with the given alternatives and semantic action.
pub fn rule_with_action(name: &str, alternatives: Vec<Vec<Symbol>>, action: &str) -> (r: ProductionRule)
    ensures
        r.name@ == name@,
        r.alternatives@ == alternatives@,
        r.semantic_action matches Some(a) && a@ == action@,
        r.follow_set is None,
{
    let mut rule = rule(name, alternatives);
    rule.set_semantic_action(action);
    rule
}

} // verus!
