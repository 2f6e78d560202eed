use vstd::prelude::*;

use crate::assoc::AssocMap;
use crate::eir::Module;
use crate::diagnostic::{
    append_diags, diags_are, push_diag, DiagSpec, ErrorDiagnostic, Severity,
};
use crate::syntax::{ProductionRule, SyntaxDefinition};
use crate::type_system::TypeConstraint;
use crate::types::Type;
use crate::util::{append_str, string_of};

verus! {

// ---------------------------------------------------------------------------
// Parts of a language definition that other parts refer to.

/// A base type of a language: its name.
#[derive(Debug, Clone, PartialEq, Eq)]
pub struct BaseType {
    pub name: String,
}

/// A typing rule of a language definition: its name and the type it concludes with.
#[derive(Debug, Clone, PartialEq, Eq)]
pub struct TypeRule {
    pub name: String,
    pub conclusion_type: String,
}

/// What checking one typing rule against the base types reports.
pub open spec fn type_rule_errors_of(r: TypeRule, base_types: Map<Seq<char>, BaseType>) -> Seq<DiagSpec> {
    if base_types.contains_key(r.conclusion_type@) {
        seq![]
    } else {
        seq![(
            "Typing rule '"@ + r.name@ + "' concludes with unknown type '"@ + r.conclusion_type@ + "'"@,
            "TypeSystem"@,
            Severity::Error,
        )]
    }
}

impl TypeRule {
    /// Checks that the conclusion type is a base type.
    pub fn validate(&self, base_types: &AssocMap<String, BaseType>) -> (r: Result<(), Vec<ErrorDiagnostic>>)
        ensures
            type_rule_errors_of(*self, base_types@).len() == 0 ==> r is Ok,
            type_rule_errors_of(*self, base_types@).len() > 0 ==> (r matches Err(ds)
                && diags_are(ds@, type_rule_errors_of(*self, base_types@))),
    {
        if base_types.contains_key(&self.conclusion_type) {
            Ok(())
        } else {
            let mut m = string_of("Typing rule '");
            append_str(&mut m, self.name.as_str());
            append_str(&mut m, "' concludes with unknown type '");
            append_str(&mut m, self.conclusion_type.as_str());
            append_str(&mut m, "'");
            let mut errors: Vec<ErrorDiagnostic> = Vec::new();
            push_diag(&mut errors, m, "TypeSystem", Severity::Error, Ghost(Seq::<DiagSpec>::empty()));
            proof {
                assert(Seq::<DiagSpec>::empty().push(type_rule_errors_of(*self, base_types@)[0]) =~= type_rule_errors_of(*self, base_types@));
            }
            Err(errors)
        }
    }

    /// A copy of this rule.
    pub fn copy(&self) -> (r: Self)
        ensures
            r == *self,
    {
        TypeRule { name: self.name.clone(), conclusion_type: self.conclusion_type.clone() }
    }
}

/// A rule of a language's semantics, described in words.
#[derive(Debug, Clone, PartialEq, Eq)]
pub struct SemanticsRule {
    pub description: String,
}

/// What checking one semantics rule reports.
pub open spec fn semantics_rule_errors_of(r: SemanticsRule) -> Seq<DiagSpec> {
    if r.description@.len() == 0 {
        seq![("Semantics rule has no description"@, "SemanticsDefinition"@, Severity::Error)]
    } else {
        seq![]
    }
}

impl SemanticsRule {
    pub fn new(description: &str) -> (r: Self)
        ensures
            r.description@ == description@,
    {
        SemanticsRule { description: string_of(description) }
    }

    /// Checks that the rule has a description.
    pub fn validate(&self) -> (r: Result<(), Vec<ErrorDiagnostic>>)
        ensures
            semantics_rule_errors_of(*self).len() == 0 ==> r is Ok,
            semantics_rule_errors_of(*self).len() > 0 ==> (r matches Err(ds)
                && diags_are(ds@, semantics_rule_errors_of(*self))),
    {
        if self.description.as_str().is_empty() {
            let mut errors: Vec<ErrorDiagnostic> = Vec::new();
            push_diag(&mut errors, string_of("Semantics rule has no description"), "SemanticsDefinition",
                Severity::Error, Ghost(Seq::<DiagSpec>::empty()));
            proof {
                assert(Seq::<DiagSpec>::empty().push(semantics_rule_errors_of(*self)[0]) =~= semantics_rule_errors_of(*self));
            }
            Err(errors)
        } else {
            Ok(())
        }
    }
}

/// How programs of a language execute.
#[derive(Debug, Clone, Copy, PartialEq, Eq, Structural)]
pub enum ExecutionModel {
    Imperative,
    Functional,
    Logic,
    Dataflow,
}

/// Who owns memory in a language.
#[derive(Debug, Clone, Copy, PartialEq, Eq, Structural)]
pub enum OwnershipModel {
    Manual,
    GarbageCollected,
    ReferenceCounted,
    Ownership,
}

/// Where values are allocated.
#[derive(Debug, Clone, Copy, PartialEq, Eq, Structural)]
pub enum AllocationStrategy {
    Stack,
    Heap,
    Region,
}

/// The memory model of a language.
#[derive(Debug, Clone, Copy, PartialEq, Eq, Structural)]
pub struct MemoryModel {
    pub ownership: OwnershipModel,
    pub allocation: AllocationStrategy,
}

impl MemoryModel {
    /// Ownership-based, stack-first memory.
    pub fn default_model() -> (m: Self)
        ensures
            m == (MemoryModel { ownership: OwnershipModel::Ownership, allocation: AllocationStrategy::Stack }),
    {
        MemoryModel { ownership: OwnershipModel::Ownership, allocation: AllocationStrategy::Stack }
    }

    /// Every memory model is consistent.
    pub fn validate(&self) -> (r: Result<(), Vec<ErrorDiagnostic>>)
        ensures
            r is Ok,
    {
        Ok(())
    }
}

/// An optimization pass.
#[derive(Debug, Clone, Copy, PartialEq, Eq, Structural)]
pub enum OptimizationPass {
    ConstantFolding,
    DeadCodeElimination,
    CommonSubexpressionElimination,
    FunctionInlining,
    LoopInvariantCodeMotion,
    MemoryToRegister,
    InstructionCombining,
    ControlFlowOptimization,
    LoopUnrolling,
    SIMDOptimization,
}

/// How hard the optimizer works.
#[derive(Debug, Clone, Copy, PartialEq, Eq, Structural)]
pub enum OptimizationLevel {
    NoOptimization,
    Size,
    Default,
    Aggressive,
}

/// An error code and what it means.
#[derive(Debug, Clone, PartialEq, Eq)]
pub struct ErrorCode {
    pub code: String,
    pub description: String,
}

/// The syntax of a control-flow construct.
#[derive(Debug)]
pub struct SyntaxRule {
    pub productions: Vec<ProductionRule>,
    pub precedence: u32,
    pub associativity: Option<crate::syntax::Associativity>,
}

// ---------------------------------------------------------------------------
// Control flow.

/// Exception-handling model.
#[derive(Debug, Clone, Copy, PartialEq, Eq, Structural)]
pub enum ExceptionHandlingModel {
    ReturnBased,
    ThrowCatch,
    Monadic,
    EffectHandler,
}

/// A conditional construct.
#[derive(Debug)]
pub struct ConditionalConstruct {
    pub name: String,
    pub syntax: SyntaxRule,
    pub evaluation: SemanticsRule,
}

/// A loop construct.
#[derive(Debug)]
pub struct LoopConstruct {
    pub name: String,
    pub syntax: SyntaxRule,
    pub evaluation: SemanticsRule,
    pub early_exit: bool,
    pub continuation: bool,
}

/// The control-flow constructs of a language.
#[derive(Debug)]
pub struct ControlFlowDefinition {
    pub conditionals: Vec<ConditionalConstruct>,
    pub loops: Vec<LoopConstruct>,
    pub exception_handling: Option<ExceptionHandlingModel>,
    pub continuations: bool,
}

pub open spec fn hint_valid_name() -> Seq<char> {
    "条件分岐構造には有効な名前を設定してください"@
}

pub open spec fn hint_loop_name() -> Seq<char> {
    "ループ構造には有効な名前を設定してください"@
}

pub open spec fn hint_production() -> Seq<char> {
    "少なくとも1つの構文プロダクションルールを定義してください"@
}

/// What `validate` reports about one conditional.
pub open spec fn conditional_errors_of(c: ConditionalConstruct) -> Seq<DiagSpec> {
    (if c.name@.len() == 0 {
        seq![("条件分岐構造の名前が空です"@, hint_valid_name(), Severity::Error)]
    } else {
        seq![]
    }) + (if c.syntax.productions@.len() == 0 {
        seq![("条件分岐構造 '"@ + c.name@ + "' の構文ルールが定義されていません"@, hint_production(), Severity::Error)]
    } else {
        seq![]
    })
}

pub open spec fn conditional_errors(cs: Seq<ConditionalConstruct>) -> Seq<DiagSpec>
    decreases cs.len(),
{
    if cs.len() == 0 { seq![] } else { conditional_errors(cs.drop_last()) + conditional_errors_of(cs.last()) }
}

/// What `validate` reports about one loop.
pub open spec fn loop_errors_of(l: LoopConstruct) -> Seq<DiagSpec> {
    (if l.name@.len() == 0 {
        seq![("ループ構造の名前が空です"@, hint_loop_name(), Severity::Error)]
    } else {
        seq![]
    }) + (if l.syntax.productions@.len() == 0 {
        seq![("ループ構造 '"@ + l.name@ + "' の構文ルールが定義されていません"@, hint_production(), Severity::Error)]
    } else {
        seq![]
    }) + (if l.early_exit && l.continuation {
        seq![(
            "ループ構造 '"@ + l.name@ + "' は早期脱出と継続の両方をサポートしています"@,
            "これらの機能の相互作用を慎重に設計してください"@,
            Severity::Warning,
        )]
    } else {
        seq![]
    })
}

pub open spec fn loop_errors(ls: Seq<LoopConstruct>) -> Seq<DiagSpec>
    decreases ls.len(),
{
    if ls.len() == 0 { seq![] } else { loop_errors(ls.drop_last()) + loop_errors_of(ls.last()) }
}

/// The names of all constructs: conditionals first, then loops.
pub open spec fn construct_names(cf: ControlFlowDefinition) -> Seq<Seq<char>> {
    conditional_names(cf.conditionals@) + loop_names(cf.loops@)
}

/// The names of conditionals, in order.
pub open spec fn conditional_names(cs: Seq<ConditionalConstruct>) -> Seq<Seq<char>> {
    cs.map_values(|c: ConditionalConstruct| c.name@)
}

/// The names of loops, in order.
pub open spec fn loop_names(ls: Seq<LoopConstruct>) -> Seq<Seq<char>> {
    ls.map_values(|l: LoopConstruct| l.name@)
}

/// The duplicate-name complaints for the first `k` names.
pub open spec fn duplicate_errors(names: Seq<Seq<char>>, k: int) -> Seq<DiagSpec>
    decreases k,
{
    if k <= 0 {
        seq![]
    } else {
        duplicate_errors(names, k - 1) + if names.subrange(0, k - 1).contains(names[k - 1]) {
            seq![(
                "制御フロー構造名 '"@ + names[k - 1] + "' が重複しています"@,
                "すべての制御フロー構造には一意の名前を付ける必要があります"@,
                Severity::Error,
            )]
        } else {
            seq![]
        }
    }
}

/// Duplicate names are reported exactly when some name occurs twice among
/// the first `k`.
pub proof fn lemma_duplicates_reported(names: Seq<Seq<char>>, k: int)
    requires
        0 <= k <= names.len(),
    ensures
        duplicate_errors(names, k).len() == 0 <==> names.subrange(0, k).no_duplicates(),
    decreases k,
{
    if k > 0 {
        lemma_duplicates_reported(names, k - 1);
        let p = names.subrange(0, k - 1);
        let q = names.subrange(0, k);
        assert(q.drop_last() =~= p);
        if p.contains(names[k - 1]) {
            let i = choose|i: int| 0 <= i < p.len() && p[i] == names[k - 1];
            assert(q[i] == q[k - 1]);
        } else if p.no_duplicates() {
            assert forall|i: int, j: int| 0 <= i < q.len() && 0 <= j < q.len() && i != j implies q[i] != q[j] by {
                if i < k - 1 && j < k - 1 {
                    assert(p[i] == q[i] && p[j] == q[j]);
                } else if i == k - 1 {
                    assert(p[j] == q[j]);
                } else {
                    assert(p[i] == q[i]);
                }
            }
        } else {
            let (i, j) = choose|i: int, j: int| 0 <= i < p.len() && 0 <= j < p.len() && i != j && p[i] == p[j];
            assert(q[i] == q[j]);
        }
    } else {
        assert(names.subrange(0, 0).no_duplicates());
    }
}

/// Everything `ControlFlowDefinition::validate` reports, in order.
pub open spec fn control_flow_errors(cf: ControlFlowDefinition) -> Seq<DiagSpec> {
    conditional_errors(cf.conditionals@) + loop_errors(cf.loops@)
        + (if cf.exception_handling == Some(ExceptionHandlingModel::ThrowCatch) && cf.continuations {
            seq![(
                "継続と例外処理（ThrowCatch）の両方が有効になっています"@,
                "これらの機能の相互作用は複雑になる可能性があります。慎重に設計してください"@,
                Severity::Warning,
            )]
        } else {
            seq![]
        }) + duplicate_errors(construct_names(cf), construct_names(cf).len() as int)
}

/// Whether some construct of `cf` is named `name`.
pub open spec fn has_construct(cf: ControlFlowDefinition, name: Seq<char>) -> bool {
    construct_names(cf).contains(name)
}

/// Adding a conditional whose name is not taken keeps all construct names
/// distinct.
pub proof fn lemma_add_conditional_keeps_names_distinct(cf: ControlFlowDefinition, cf2: ControlFlowDefinition, c: ConditionalConstruct)
    requires
        construct_names(cf).no_duplicates(),
        !has_construct(cf, c.name@),
        cf2.conditionals@ == cf.conditionals@.push(c),
        cf2.loops@ == cf.loops@,
    ensures
        construct_names(cf2).no_duplicates(),
        has_construct(cf2, c.name@),
{
    let a = conditional_names(cf.conditionals@);
    let b = loop_names(cf.loops@);
    let n2 = construct_names(cf2);
    assert(conditional_names(cf2.conditionals@) =~= a.push(c.name@));
    assert(n2 =~= a.push(c.name@) + b);
    assert(construct_names(cf) =~= a + b);
    assert forall|i: int, j: int| 0 <= i < n2.len() && 0 <= j < n2.len() && i != j implies n2[i] != n2[j] by {
        let old_names = a + b;
        let old_index = |k: int| if k < a.len() { k } else { k - 1 };
        if i == a.len() as int {
            assert(n2[j] == old_names[old_index(j)]);
            assert(old_names.contains(n2[j]));
        } else if j == a.len() as int {
            assert(n2[i] == old_names[old_index(i)]);
            assert(old_names.contains(n2[i]));
        } else {
            assert(n2[i] == old_names[old_index(i)]);
            assert(n2[j] == old_names[old_index(j)]);
        }
    }
    assert(n2[a.len() as int] == c.name@);
}

/// Adding a loop whose name is not taken keeps all construct names distinct.
pub proof fn lemma_add_loop_keeps_names_distinct(cf: ControlFlowDefinition, cf2: ControlFlowDefinition, l: LoopConstruct)
    requires
        construct_names(cf).no_duplicates(),
        !has_construct(cf, l.name@),
        cf2.conditionals@ == cf.conditionals@,
        cf2.loops@ == cf.loops@.push(l),
    ensures
        construct_names(cf2).no_duplicates(),
        has_construct(cf2, l.name@),
{
    let a = conditional_names(cf.conditionals@);
    let b = loop_names(cf.loops@);
    let n2 = construct_names(cf2);
    assert(loop_names(cf2.loops@) =~= b.push(l.name@));
    assert(n2 =~= (a + b).push(l.name@));
    assert(construct_names(cf) =~= a + b);
    assert forall|i: int, j: int| 0 <= i < n2.len() && 0 <= j < n2.len() && i != j implies n2[i] != n2[j] by {
        let old_names = a + b;
        if i == old_names.len() as int {
            assert(old_names.contains(n2[j]));
        } else if j == old_names.len() as int {
            assert(old_names.contains(n2[i]));
        }
    }
    assert(n2[(a + b).len() as int] == l.name@);
}

/// The character sequences of a list of strings.
pub open spec fn string_views(v: Seq<String>) -> Seq<Seq<char>> {
    v.map_values(|x: String| x@)
}

pub proof fn lemma_string_views_push(v: Seq<String>, x: String)
    ensures
        string_views(v.push(x)) == string_views(v).push(x@),
{
    assert(string_views(v.push(x)) =~= string_views(v).push(x@)) by {
        assert forall|k: int| 0 <= k < v.len() implies string_views(v.push(x))[k] == string_views(v)[k] by {
            assert(v.push(x)[k] == v[k]);
        }
    }
}

proof fn lemma_conditional_names_step(cs: Seq<ConditionalConstruct>, i: int)
    requires
        0 <= i < cs.len(),
    ensures
        conditional_names(cs.subrange(0, i + 1)) == conditional_names(cs.subrange(0, i)).push(cs[i].name@),
{
    assert(conditional_names(cs.subrange(0, i + 1)) =~= conditional_names(cs.subrange(0, i)).push(cs[i].name@));
}

proof fn lemma_loop_names_step(ls: Seq<LoopConstruct>, i: int)
    requires
        0 <= i < ls.len(),
    ensures
        loop_names(ls.subrange(0, i + 1)) == loop_names(ls.subrange(0, i)).push(ls[i].name@),
{
    assert(loop_names(ls.subrange(0, i + 1)) =~= loop_names(ls.subrange(0, i)).push(ls[i].name@));
}

fn contains_string(v: &Vec<String>, s: &String) -> (r: bool)
    ensures
        r == string_views(v@).contains(s@),
{
    let mut i: usize = 0;
    while i < v.len()
        invariant
            i <= v@.len(),
            forall|j: int| 0 <= j < i ==> (#[trigger] v@[j])@ != s@,
        decreases v@.len() - i,
    {
        if v[i] == *s {
            proof {
                assert(string_views(v@)[i as int] == s@);
            }
            return true;
        }
        i = i + 1;
    }
    proof {
        assert forall|j: int| 0 <= j < v@.len() implies #[trigger] string_views(v@)[j] != s@ by {
            assert(v@[j]@ != s@);
        }
    }
    false
}

impl ControlFlowDefinition {
    /// No constructs, no exception handling, no continuations.
    pub fn new() -> (d: Self)
        ensures
            d.conditionals@.len() == 0,
            d.loops@.len() == 0,
            d.exception_handling is None,
            !d.continuations,
    {
        ControlFlowDefinition { conditionals: Vec::new(), loops: Vec::new(), exception_handling: None, continuations: false }
    }

    fn construct_name_list(&self) -> (v: Vec<String>)
        ensures
            string_views(v@) == construct_names(*self),
    {
        let mut v: Vec<String> = Vec::new();
        let mut i: usize = 0;
        while i < self.conditionals.len()
            invariant
                i <= self.conditionals@.len(),
                string_views(v@) == conditional_names(self.conditionals@.subrange(0, i as int)),
            decreases self.conditionals@.len() - i,
        {
            let ghost pv = v@;
            let x = self.conditionals[i].name.clone();
            v.push(x);
            proof {
                lemma_string_views_push(pv, x);
                lemma_conditional_names_step(self.conditionals@, i as int);
            }
            i = i + 1;
        }
        proof {
            assert(self.conditionals@.subrange(0, i as int) =~= self.conditionals@);
            assert(self.loops@.subrange(0, 0) =~= Seq::<LoopConstruct>::empty());
            assert(conditional_names(self.conditionals@) + loop_names(self.loops@.subrange(0, 0))
                =~= conditional_names(self.conditionals@));
        }
        let mut j: usize = 0;
        while j < self.loops.len()
            invariant
                j <= self.loops@.len(),
                string_views(v@) == conditional_names(self.conditionals@) + loop_names(self.loops@.subrange(0, j as int)),
            decreases self.loops@.len() - j,
        {
            let ghost pv = v@;
            let x = self.loops[j].name.clone();
            v.push(x);
            proof {
                lemma_string_views_push(pv, x);
                lemma_loop_names_step(self.loops@, j as int);
                assert(string_views(v@) =~= conditional_names(self.conditionals@) + loop_names(self.loops@.subrange(0, j + 1)));
            }
            j = j + 1;
        }
        proof {
            assert(self.loops@.subrange(0, j as int) =~= self.loops@);
        }
        v
    }

    /// Checks the constructs: names are not empty, each has at least one
    /// production, early exit together with continuation in a loop and
    /// continuations together with throw/catch draw warnings, and no two
    /// constructs share a name. Warnings are reported like errors.
    pub fn validate(&self) -> (r: Result<(), Vec<ErrorDiagnostic>>)
        ensures
            control_flow_errors(*self).len() == 0 ==> r is Ok,
            control_flow_errors(*self).len() > 0 ==> (r matches Err(ds) && diags_are(ds@, control_flow_errors(*self))),
    {
        let mut errors: Vec<ErrorDiagnostic> = Vec::new();
        let mut i: usize = 0;
        while i < self.conditionals.len()
            invariant
                i <= self.conditionals@.len(),
                diags_are(errors@, conditional_errors(self.conditionals@.subrange(0, i as int))),
            decreases self.conditionals@.len() - i,
        {
            let c = &self.conditionals[i];
            let ghost es0 = conditional_errors(self.conditionals@.subrange(0, i as int));
            if c.name.as_str().is_empty() {
                push_diag(&mut errors, string_of("条件分岐構造の名前が空です"), "条件分岐構造には有効な名前を設定してください",
                    Severity::Error, Ghost(es0));
            }
            let ghost es1 = es0 + if c.name@.len() == 0 {
                seq![("条件分岐構造の名前が空です"@, hint_valid_name(), Severity::Error)]
            } else {
                seq![]
            };
            proof {
                if c.name@.len() == 0 {
                    assert(es1 =~= es0.push(("条件分岐構造の名前が空です"@, hint_valid_name(), Severity::Error)));
                } else {
                    assert(es1 =~= es0);
                }
            }
            if c.syntax.productions.len() == 0 {
                let mut m = string_of("条件分岐構造 '");
                append_str(&mut m, c.name.as_str());
                append_str(&mut m, "' の構文ルールが定義されていません");
                push_diag(&mut errors, m, "少なくとも1つの構文プロダクションルールを定義してください", Severity::Error, Ghost(es1));
            }
            proof {
                let s = self.conditionals@.subrange(0, i + 1);
                assert(s.drop_last() =~= self.conditionals@.subrange(0, i as int));
                assert(conditional_errors(s) =~= es0 + conditional_errors_of(*c));
            }
            i = i + 1;
        }
        proof {
            assert(self.conditionals@.subrange(0, i as int) =~= self.conditionals@);
        }
        let ghost ce = conditional_errors(self.conditionals@);
        let mut j: usize = 0;
        while j < self.loops.len()
            invariant
                j <= self.loops@.len(),
                diags_are(errors@, ce + loop_errors(self.loops@.subrange(0, j as int))),
            decreases self.loops@.len() - j,
        {
            let l = &self.loops[j];
            let ghost es0 = ce + loop_errors(self.loops@.subrange(0, j as int));
            if l.name.as_str().is_empty() {
                push_diag(&mut errors, string_of("ループ構造の名前が空です"), "ループ構造には有効な名前を設定してください",
                    Severity::Error, Ghost(es0));
            }
            let ghost es1 = es0 + if l.name@.len() == 0 {
                seq![("ループ構造の名前が空です"@, hint_loop_name(), Severity::Error)]
            } else {
                seq![]
            };
            proof {
                if l.name@.len() == 0 {
                    assert(es1 =~= es0.push(("ループ構造の名前が空です"@, hint_loop_name(), Severity::Error)));
                } else {
                    assert(es1 =~= es0);
                }
            }
            if l.syntax.productions.len() == 0 {
                let mut m = string_of("ループ構造 '");
                append_str(&mut m, l.name.as_str());
                append_str(&mut m, "' の構文ルールが定義されていません");
                push_diag(&mut errors, m, "少なくとも1つの構文プロダクションルールを定義してください", Severity::Error, Ghost(es1));
            }
            let ghost es2 = es1 + if l.syntax.productions@.len() == 0 {
                seq![("ループ構造 '"@ + l.name@ + "' の構文ルールが定義されていません"@, hint_production(), Severity::Error)]
            } else {
                seq![]
            };
            proof {
                if l.syntax.productions@.len() == 0 {
                    assert(es2 =~= es1.push(("ループ構造 '"@ + l.name@ + "' の構文ルールが定義されていません"@, hint_production(), Severity::Error)));
                } else {
                    assert(es2 =~= es1);
                }
            }
            if l.early_exit && l.continuation {
                let mut m = string_of("ループ構造 '");
                append_str(&mut m, l.name.as_str());
                append_str(&mut m, "' は早期脱出と継続の両方をサポートしています");
                push_diag(&mut errors, m, "これらの機能の相互作用を慎重に設計してください", Severity::Warning, Ghost(es2));
            }
            proof {
                let s = self.loops@.subrange(0, j + 1);
                assert(s.drop_last() =~= self.loops@.subrange(0, j as int));
                assert(ce + loop_errors(s) =~= es0 + loop_errors_of(*l));
            }
            j = j + 1;
        }
        proof {
            assert(self.loops@.subrange(0, j as int) =~= self.loops@);
        }
        let ghost le = ce + loop_errors(self.loops@);
        let throw_catch = match self.exception_handling {
            Some(ExceptionHandlingModel::ThrowCatch) => true,
            _ => false,
        };
        if throw_catch && self.continuations {
            push_diag(&mut errors, string_of("継続と例外処理（ThrowCatch）の両方が有効になっています"),
                "これらの機能の相互作用は複雑になる可能性があります。慎重に設計してください", Severity::Warning, Ghost(le));
        }
        let ghost xe = le + if self.exception_handling == Some(ExceptionHandlingModel::ThrowCatch) && self.continuations {
            seq![(
                "継続と例外処理（ThrowCatch）の両方が有効になっています"@,
                "これらの機能の相互作用は複雑になる可能性があります。慎重に設計してください"@,
                Severity::Warning,
            )]
        } else {
            seq![]
        };
        proof {
            if self.exception_handling == Some(ExceptionHandlingModel::ThrowCatch) && self.continuations {
                assert(xe =~= le.push((
                    "継続と例外処理（ThrowCatch）の両方が有効になっています"@,
                    "これらの機能の相互作用は複雑になる可能性があります。慎重に設計してください"@,
                    Severity::Warning,
                )));
            } else {
                assert(xe =~= le);
            }
        }
        let names = self.construct_name_list();
        let ghost ns = construct_names(*self);
        let mut seen: Vec<String> = Vec::new();
        let mut k: usize = 0;
        while k < names.len()
            invariant
                k <= names@.len(),
                string_views(names@) == ns,
                string_views(seen@) == ns.subrange(0, k as int),
                diags_are(errors@, xe + duplicate_errors(ns, k as int)),
            decreases names@.len() - k,
        {
            let ghost es0 = xe + duplicate_errors(ns, k as int);
            proof {
                assert(ns[k as int] == names@[k as int]@);
            }
            if contains_string(&seen, &names[k]) {
                let mut m = string_of("制御フロー構造名 '");
                append_str(&mut m, names[k].as_str());
                append_str(&mut m, "' が重複しています");
                push_diag(&mut errors, m, "すべての制御フロー構造には一意の名前を付ける必要があります", Severity::Error, Ghost(es0));
                proof {
                    assert(xe + duplicate_errors(ns, k + 1) =~= es0.push((
                        "制御フロー構造名 '"@ + ns[k as int] + "' が重複しています"@,
                        "すべての制御フロー構造には一意の名前を付ける必要があります"@,
                        Severity::Error,
                    )));
                }
                let ghost sv = seen@;
                let x = names[k].clone();
                seen.push(x);
                proof {
                    lemma_string_views_push(sv, x);
                    assert(string_views(seen@) =~= ns.subrange(0, k + 1));
                }
            } else {
                proof {
                    assert(xe + duplicate_errors(ns, k + 1) =~= es0);
                }
                let ghost sv = seen@;
                let x = names[k].clone();
                seen.push(x);
                proof {
                    lemma_string_views_push(sv, x);
                    assert(string_views(seen@) =~= ns.subrange(0, k + 1));
                }
            }
            k = k + 1;
        }
        proof {
            assert(control_flow_errors(*self) =~= xe + duplicate_errors(ns, ns.len() as int));
        }
        if errors.len() == 0 {
            Ok(())
        } else {
            Err(errors)
        }
    }

    fn find_construct(&self, name: &String) -> (r: bool)
        ensures
            r == has_construct(*self, name@),
    {
        let names = self.construct_name_list();
        contains_string(&names, name)
    }

    /// Adds a conditional. Fails when a construct of that name exists or the
    /// conditional has no production; the definition is then unchanged.
    pub fn add_conditional(&mut self, conditional: ConditionalConstruct) -> (r: Result<(), ErrorDiagnostic>)
        ensures
            has_construct(*old(self), conditional.name@) ==> (r matches Err(d) && crate::diagnostic::diag_is(d, (
                "制御フロー構造名 '"@ + conditional.name@ + "' が既に存在します"@, "一意の名前を使用してください"@, Severity::Error))
                && *final(self) == *old(self)),
            !has_construct(*old(self), conditional.name@) && conditional.syntax.productions@.len() == 0 ==> (r matches Err(d)
                && crate::diagnostic::diag_is(d, ("構文ルールが定義されていません"@, hint_production(), Severity::Error))
                && *final(self) == *old(self)),
            !has_construct(*old(self), conditional.name@) && conditional.syntax.productions@.len() > 0 ==> (r is Ok
                && final(self).conditionals@ == old(self).conditionals@.push(conditional)
                && final(self).loops == old(self).loops
                && final(self).exception_handling == old(self).exception_handling
                && final(self).continuations == old(self).continuations),
    {
        if self.find_construct(&conditional.name) {
            let mut m = string_of("制御フロー構造名 '");
            append_str(&mut m, conditional.name.as_str());
            append_str(&mut m, "' が既に存在します");
            return Err(ErrorDiagnostic::new(m, string_of("一意の名前を使用してください"), None));
        }
        if conditional.syntax.productions.len() == 0 {
            return Err(ErrorDiagnostic::new(
                string_of("構文ルールが定義されていません"),
                string_of("少なくとも1つの構文プロダクションルールを定義してください"),
                None,
            ));
        }
        self.conditionals.push(conditional);
        Ok(())
    }

    /// Adds a loop. Fails when a construct of that name exists or the loop has
    /// no production; the definition is then unchanged.
    pub fn add_loop(&mut self, loop_construct: LoopConstruct) -> (r: Result<(), ErrorDiagnostic>)
        ensures
            has_construct(*old(self), loop_construct.name@) ==> (r matches Err(d) && crate::diagnostic::diag_is(d, (
                "制御フロー構造名 '"@ + loop_construct.name@ + "' が既に存在します"@, "一意の名前を使用してください"@, Severity::Error))
                && *final(self) == *old(self)),
            !has_construct(*old(self), loop_construct.name@) && loop_construct.syntax.productions@.len() == 0 ==> (r matches Err(d)
                && crate::diagnostic::diag_is(d, ("構文ルールが定義されていません"@, hint_production(), Severity::Error))
                && *final(self) == *old(self)),
            !has_construct(*old(self), loop_construct.name@) && loop_construct.syntax.productions@.len() > 0 ==> (r is Ok
                && final(self).loops@ == old(self).loops@.push(loop_construct)
                && final(self).conditionals == old(self).conditionals
                && final(self).exception_handling == old(self).exception_handling
                && final(self).continuations == old(self).continuations),
    {
        if self.find_construct(&loop_construct.name) {
            let mut m = string_of("制御フロー構造名 '");
            append_str(&mut m, loop_construct.name.as_str());
            append_str(&mut m, "' が既に存在します");
            return Err(ErrorDiagnostic::new(m, string_of("一意の名前を使用してください"), None));
        }
        if loop_construct.syntax.productions.len() == 0 {
            return Err(ErrorDiagnostic::new(
                string_of("構文ルールが定義されていません"),
                string_of("少なくとも1つの構文プロダクションルールを定義してください"),
                None,
            ));
        }
        self.loops.push(loop_construct);
        Ok(())
    }

    /// Sets the exception-handling model.
    pub fn set_exception_handling(&mut self, model: ExceptionHandlingModel)
        ensures
            *final(self) == (ControlFlowDefinition { exception_handling: Some(model), ..*old(self) }),
    {
        self.exception_handling = Some(model);
    }

    /// Turns continuations on or off.
    pub fn set_continuations(&mut self, enabled: bool)
        ensures
            *final(self) == (ControlFlowDefinition { continuations: enabled, ..*old(self) }),
    {
        self.continuations = enabled;
    }

    /// The first conditional with the given name.
    pub fn get_conditional(&self, name: &str) -> (r: Option<&ConditionalConstruct>)
        ensures
            r matches Some(c) ==> exists|i: int| 0 <= i < self.conditionals@.len() && self.conditionals@[i] == *c
                && c.name@ == name@ && forall|j: int| 0 <= j < i ==> (#[trigger] self.conditionals@[j]).name@ != name@,
            r is None ==> forall|j: int| 0 <= j < self.conditionals@.len() ==> (#[trigger] self.conditionals@[j]).name@ != name@,
    {
        let n = string_of(name);
        let mut i: usize = 0;
        while i < self.conditionals.len()
            invariant
                i <= self.conditionals@.len(),
                n@ == name@,
                forall|j: int| 0 <= j < i ==> (#[trigger] self.conditionals@[j]).name@ != name@,
            decreases self.conditionals@.len() - i,
        {
            if self.conditionals[i].name == n {
                return Some(&self.conditionals[i]);
            }
            i = i + 1;
        }
        None
    }

    /// The first loop with the given name.
    pub fn get_loop(&self, name: &str) -> (r: Option<&LoopConstruct>)
        ensures
            r matches Some(c) ==> exists|i: int| 0 <= i < self.loops@.len() && self.loops@[i] == *c
                && c.name@ == name@ && forall|j: int| 0 <= j < i ==> (#[trigger] self.loops@[j]).name@ != name@,
            r is None ==> forall|j: int| 0 <= j < self.loops@.len() ==> (#[trigger] self.loops@[j]).name@ != name@,
    {
        let n = string_of(name);
        let mut i: usize = 0;
        while i < self.loops.len()
            invariant
                i <= self.loops@.len(),
                n@ == name@,
                forall|j: int| 0 <= j < i ==> (#[trigger] self.loops@[j]).name@ != name@,
            decreases self.loops@.len() - i,
        {
            if self.loops[i].name == n {
                return Some(&self.loops[i]);
            }
            i = i + 1;
        }
        None
    }
}

impl ControlFlowDefinition {
    /// `if-else` and `switch-case` conditionals, `for`, `while`, `do-while` and
    /// `foreach` loops (each allowing early exit, none continuations), and
    /// throw/catch exception handling.
    pub fn standard() -> (d: Self)
        ensures
            conditional_names(d.conditionals@) == seq!["if-else"@, "switch-case"@],
            loop_names(d.loops@) == seq!["for"@, "while"@, "do-while"@, "foreach"@],
            forall|i: int| 0 <= i < d.conditionals@.len() ==> (#[trigger] d.conditionals@[i]).syntax.productions@.len() == 1,
            forall|i: int| 0 <= i < d.loops@.len() ==> {
                &&& (#[trigger] d.loops@[i]).syntax.productions@.len() == 1
                &&& d.loops@[i].early_exit
                &&& !d.loops@[i].continuation
            },
            d.exception_handling == Some(ExceptionHandlingModel::ThrowCatch),
            !d.continuations,
            control_flow_errors(d).len() == 0,
    {
        let mut def = Self::new();
        let if_else = ConditionalConstruct {
            name: string_of("if-else"),
            syntax: SyntaxRule {
                productions: vec![ProductionRule::new("if (<expr>) <block> [else <block>]")],
                precedence: 0,
                associativity: None,
            },
            evaluation: SemanticsRule::new("条件式が真の場合は最初のブロックを実行し、偽の場合はelseブロックがあれば実行する"),
        };
        let switch_case = ConditionalConstruct {
            name: string_of("switch-case"),
            syntax: SyntaxRule {
                productions: vec![ProductionRule::new("switch (<expr>) { case <const_expr>: <stmt>* [default: <stmt>*] }")],
                precedence: 0,
                associativity: None,
            },
            evaluation: SemanticsRule::new("式の値に一致するcaseラベルに制御を移し、defaultがあれば一致するcaseがない場合に実行する"),
        };
        let for_loop = LoopConstruct {
            name: string_of("for"),
            syntax: SyntaxRule {
                productions: vec![ProductionRule::new("for (<init>; <cond>; <update>) <block>")],
                precedence: 0,
                associativity: None,
            },
            evaluation: SemanticsRule::new("初期化を実行し、条件が真である間、ブロックと更新式を繰り返し実行する"),
            early_exit: true,
            continuation: false,
        };
        let while_loop = LoopConstruct {
            name: string_of("while"),
            syntax: SyntaxRule {
                productions: vec![ProductionRule::new("while (<expr>) <block>")],
                precedence: 0,
                associativity: None,
            },
            evaluation: SemanticsRule::new("条件が真である間、ブロックを繰り返し実行する"),
            early_exit: true,
            continuation: false,
        };
        let do_while_loop = LoopConstruct {
            name: string_of("do-while"),
            syntax: SyntaxRule {
                productions: vec![ProductionRule::new("do <block> while (<expr>);")],
                precedence: 0,
                associativity: None,
            },
            evaluation: SemanticsRule::new("ブロックを実行し、その後条件が真である間、ブロックを繰り返し実行する"),
            early_exit: true,
            continuation: false,
        };
        let foreach_loop = LoopConstruct {
            name: string_of("foreach"),
            syntax: SyntaxRule {
                productions: vec![ProductionRule::new("for (<type> <ident> in <expr>) <block>")],
                precedence: 0,
                associativity: None,
            },
            evaluation: SemanticsRule::new("イテラブルの各要素に対してブロックを実行する"),
            early_exit: true,
            continuation: false,
        };
        proof {
            reveal_strlit("if-else");
            reveal_strlit("switch-case");
            reveal_strlit("for");
            reveal_strlit("while");
            reveal_strlit("do-while");
            reveal_strlit("foreach");
            assert("if-else"@[0] == 'i' && "switch-case"@[0] == 's' && "for"@[0] == 'f' && "while"@[0] == 'w'
                && "do-while"@[0] == 'd' && "foreach"@[0] == 'f');
            assert("for"@.len() != "foreach"@.len());
        }
        proof {
            assert(construct_names(def) =~= Seq::<Seq<char>>::empty());
        }
        let _ = def.add_conditional(if_else);
        proof {
            assert(conditional_names(def.conditionals@) =~= seq!["if-else"@]);
            assert(construct_names(def) =~= seq!["if-else"@]);
        }
        let _ = def.add_conditional(switch_case);
        proof {
            assert(conditional_names(def.conditionals@) =~= seq!["if-else"@, "switch-case"@]);
            assert(construct_names(def) =~= seq!["if-else"@, "switch-case"@]);
        }
        let _ = def.add_loop(for_loop);
        proof {
            assert(loop_names(def.loops@) =~= seq!["for"@]);
            assert(construct_names(def) =~= seq!["if-else"@, "switch-case"@, "for"@]);
        }
        let _ = def.add_loop(while_loop);
        proof {
            assert(loop_names(def.loops@) =~= seq!["for"@, "while"@]);
            assert(construct_names(def) =~= seq!["if-else"@, "switch-case"@, "for"@, "while"@]);
        }
        let _ = def.add_loop(do_while_loop);
        proof {
            assert(loop_names(def.loops@) =~= seq!["for"@, "while"@, "do-while"@]);
            assert(construct_names(def) =~= seq!["if-else"@, "switch-case"@, "for"@, "while"@, "do-while"@]);
        }
        let _ = def.add_loop(foreach_loop);
        proof {
            assert(loop_names(def.loops@) =~= seq!["for"@, "while"@, "do-while"@, "foreach"@]);
        }
        def.set_exception_handling(ExceptionHandlingModel::ThrowCatch);
        proof {
            let ns = construct_names(def);
            assert(ns =~= seq!["if-else"@, "switch-case"@, "for"@, "while"@, "do-while"@, "foreach"@]);
            lemma_no_duplicate_errors(ns, ns.len() as int);
            let cs = def.conditionals@;
            assert(conditional_errors(cs) =~= Seq::<DiagSpec>::empty()) by {
                reveal_with_fuel(conditional_errors, 3);
                assert(cs.drop_last().drop_last() =~= Seq::<ConditionalConstruct>::empty());
                assert(cs.drop_last().last() == cs[0]);
                assert(conditional_names(cs)[0] == cs[0].name@);
                assert(conditional_names(cs)[1] == cs[1].name@);
                assert(conditional_errors_of(cs[0]) =~= Seq::<DiagSpec>::empty());
                assert(conditional_errors_of(cs[1]) =~= Seq::<DiagSpec>::empty());
            }
            let ls = def.loops@;
            assert(loop_errors(ls) =~= Seq::<DiagSpec>::empty()) by {
                reveal_with_fuel(loop_errors, 5);
                assert(ls.drop_last().drop_last().drop_last().drop_last() =~= Seq::<LoopConstruct>::empty());
                assert(ls.drop_last().drop_last().drop_last().last() == ls[0]);
                assert(ls.drop_last().drop_last().last() == ls[1]);
                assert(ls.drop_last().last() == ls[2]);
                assert(loop_names(ls)[0] == ls[0].name@);
                assert(loop_names(ls)[1] == ls[1].name@);
                assert(loop_names(ls)[2] == ls[2].name@);
                assert(loop_names(ls)[3] == ls[3].name@);
                assert(loop_errors_of(ls[0]) =~= Seq::<DiagSpec>::empty());
                assert(loop_errors_of(ls[1]) =~= Seq::<DiagSpec>::empty());
                assert(loop_errors_of(ls[2]) =~= Seq::<DiagSpec>::empty());
                assert(loop_errors_of(ls[3]) =~= Seq::<DiagSpec>::empty());
            }
        }
        def
    }
}

/// A list of names with no repeated name draws no duplicate-name complaint.
proof fn lemma_no_duplicate_errors(names: Seq<Seq<char>>, k: int)
    requires
        0 <= k <= names.len(),
        names.no_duplicates(),
    ensures
        duplicate_errors(names, k) =~= Seq::<DiagSpec>::empty(),
    decreases k,
{
    if k > 0 {
        lemma_no_duplicate_errors(names, k - 1);
        if names.subrange(0, k - 1).contains(names[k - 1]) {
            let j = choose|j: int| 0 <= j < k - 1 && #[trigger] names.subrange(0, k - 1)[j] == names[k - 1];
            assert(names[j] == names[k - 1]);
        }
    }
}

// ---------------------------------------------------------------------------
// Type system, semantics and the rest of a language definition.

/// A type definition.
#[derive(Debug)]
pub struct TypeDefinition {
    pub name: String,
    pub type_parameters: Vec<TypeParameter>,
    pub structure: TypeStructure,
    pub constraints: Vec<TypeConstraint>,
}

/// A type parameter of a type definition.
#[derive(Debug)]
pub struct TypeParameter {
    pub name: String,
    pub constraints: Vec<TypeConstraint>,
    pub variance: Variance,
}

/// Variance of a type parameter.
#[derive(Debug, Clone, Copy, PartialEq, Eq, Structural)]
pub enum Variance {
    Covariant,
    Contravariant,
    Invariant,
}

/// The structure of a defined type.
#[derive(Debug)]
pub enum TypeStructure {
    Primitive { bit_width: usize, signed: bool },
    Struct { fields: Vec<FieldDefinition>, representation: StructRepresentation },
    Sum { variants: Vec<VariantDefinition>, representation: EnumRepresentation },
    Function { parameter_types: Vec<Type>, return_type: Box<Type>, effect_type: Option<Box<Type>> },
    Interface { methods: Vec<MethodDefinition> },
}

/// A field definition.
#[derive(Debug)]
pub struct FieldDefinition {
    pub name: String,
    pub field_type: Type,
    pub visibility: Visibility,
    pub default_value: Option<String>,
}

/// Visibility of a member.
#[derive(Debug, Clone, Copy, PartialEq, Eq, Structural)]
pub enum Visibility {
    Public,
    Protected,
    Private,
    Internal,
}

/// Representation of a struct.
#[derive(Debug, Clone, Copy, PartialEq, Eq, Structural)]
pub enum StructRepresentation {
    Default,
    Packed(usize),
    Tagged,
}

/// A variant definition.
#[derive(Debug)]
pub struct VariantDefinition {
    pub name: String,
    pub value: Option<u64>,
    pub associated_data: Option<Type>,
}

/// Representation of an enum.
#[derive(Debug, Clone, Copy, PartialEq, Eq, Structural)]
pub enum EnumRepresentation {
    Tagged,
    CEnum,
    Primitive(usize),
    StringDiscriminated,
}

/// A method definition.
#[derive(Debug)]
pub struct MethodDefinition {
    pub name: String,
    pub method_type: FunctionType,
    pub visibility: Visibility,
    pub default_implementation: Option<String>,
}

/// A function type.
#[derive(Debug)]
pub struct FunctionType {
    pub type_parameters: Vec<TypeParameter>,
    pub parameter_types: Vec<Type>,
    pub return_type: Box<Type>,
    pub effect_type: Option<Box<Type>>,
}

/// A type conversion rule.
#[derive(Debug)]
pub struct ConversionRule {
    pub from_type: Type,
    pub to_type: Type,
    pub conversion_type: ConversionType,
    pub implementation: String,
}

/// Kind of conversion.
#[derive(Debug, Clone, Copy, PartialEq, Eq, Structural)]
pub enum ConversionType {
    Implicit,
    Explicit,
    Cast,
}

/// A type-inference rule.
#[derive(Debug)]
pub struct InferenceRule {
    pub name: String,
    pub premises: Vec<TypeJudgment>,
    pub conclusion: TypeJudgment,
}

/// A typing judgment.
#[derive(Debug)]
pub struct TypeJudgment {
    pub context: TypeContext,
    pub expression: String,
    pub type_: Type,
}

/// A typing context.
#[derive(Debug)]
pub struct TypeContext {
    pub type_environment: AssocMap<String, Type>,
    pub constraints: Vec<TypeConstraint>,
}

/// A subtyping relation.
#[derive(Debug)]
pub struct SubtypeRelation {
    pub subtype: Type,
    pub supertype: Type,
    pub proof: Option<String>,
}

/// The type system of a language definition.
#[derive(Debug)]
pub struct TypeSystem {
    pub base_types: AssocMap<String, BaseType>,
    pub composite_types: Vec<TypeDefinition>,
    pub typing_rules: Vec<TypeRule>,
    pub conversion_rules: Vec<ConversionRule>,
    pub inference_rules: Vec<InferenceRule>,
    pub subtyping_relation: Vec<SubtypeRelation>,
    pub constraints: Vec<TypeConstraint>,
}

/// Whether a type system defines nothing.
pub open spec fn empty_type_system(t: TypeSystem) -> bool {
    &&& t.base_types@ == Map::<Seq<char>, BaseType>::empty()
    &&& t.composite_types@.len() == 0
    &&& t.typing_rules@.len() == 0
    &&& t.conversion_rules@.len() == 0
    &&& t.inference_rules@.len() == 0
    &&& t.subtyping_relation@.len() == 0
    &&& t.constraints@.len() == 0
}

/// What checking the typing rules reports, in order.
pub open spec fn type_rules_errors(rs: Seq<TypeRule>, base_types: Map<Seq<char>, BaseType>) -> Seq<DiagSpec>
    decreases rs.len(),
{
    if rs.len() == 0 {
        seq![]
    } else {
        type_rules_errors(rs.drop_last(), base_types) + type_rule_errors_of(rs.last(), base_types)
    }
}

/// Everything `TypeSystem::validate` reports, in order.
pub open spec fn type_system_errors(t: TypeSystem) -> Seq<DiagSpec> {
    (if t.base_types@.dom().len() == 0 {
        seq![("Type system must define at least one base type"@, "TypeSystem"@, Severity::Error)]
    } else {
        seq![]
    }) + type_rules_errors(t.typing_rules@, t.base_types@)
}

impl TypeSystem {
    pub fn new() -> (t: Self)
        ensures
            empty_type_system(t),
    {
        TypeSystem {
            base_types: AssocMap::new(),
            composite_types: Vec::new(),
            typing_rules: Vec::new(),
            conversion_rules: Vec::new(),
            inference_rules: Vec::new(),
            subtyping_relation: Vec::new(),
            constraints: Vec::new(),
        }
    }

    /// Binds a base type.
    pub fn add_base_type(&mut self, name: &str, base_type: BaseType)
        ensures
            final(self).base_types@ == old(self).base_types@.insert(name@, base_type),
            final(self).composite_types == old(self).composite_types,
            final(self).typing_rules == old(self).typing_rules,
            final(self).conversion_rules == old(self).conversion_rules,
            final(self).inference_rules == old(self).inference_rules,
            final(self).subtyping_relation == old(self).subtyping_relation,
            final(self).constraints == old(self).constraints,
    {
        self.base_types.insert(string_of(name), base_type);
    }

    /// Appends a typing rule.
    pub fn add_typing_rule(&mut self, rule: TypeRule)
        ensures
            final(self).typing_rules@ == old(self).typing_rules@.push(rule),
            final(self).base_types == old(self).base_types,
            final(self).composite_types == old(self).composite_types,
            final(self).conversion_rules == old(self).conversion_rules,
            final(self).inference_rules == old(self).inference_rules,
            final(self).subtyping_relation == old(self).subtyping_relation,
            final(self).constraints == old(self).constraints,
    {
        self.typing_rules.push(rule);
    }

    /// Checks that there is a base type and that every typing rule concludes
    /// with one; reports every problem, in that order.
    pub fn validate(&self) -> (r: Result<(), Vec<ErrorDiagnostic>>)
        ensures
            type_system_errors(*self).len() == 0 ==> r is Ok,
            type_system_errors(*self).len() > 0 ==> (r matches Err(ds) && diags_are(ds@, type_system_errors(*self))),
    {
        let mut errors: Vec<ErrorDiagnostic> = Vec::new();
        let keys = self.base_types.keys();
        proof {
            let ko = self.base_types.key_order();
            ko.unique_seq_to_set();
            assert(crate::assoc::key_views(keys@).len() == keys@.len());
        }
        if keys.len() == 0 {
            push_diag(&mut errors, string_of("Type system must define at least one base type"), "TypeSystem",
                Severity::Error, Ghost(Seq::<DiagSpec>::empty()));
        }
        let ghost e0 = if self.base_types@.dom().len() == 0 {
            seq![("Type system must define at least one base type"@, "TypeSystem"@, Severity::Error)]
        } else {
            seq![]
        };
        proof {
            if self.base_types@.dom().len() == 0 {
                assert(e0 =~= Seq::<DiagSpec>::empty().push(
                    ("Type system must define at least one base type"@, "TypeSystem"@, Severity::Error)));
            }
        }
        let mut i: usize = 0;
        while i < self.typing_rules.len()
            invariant
                i <= self.typing_rules@.len(),
                diags_are(errors@, e0 + type_rules_errors(self.typing_rules@.subrange(0, i as int), self.base_types@)),
            decreases self.typing_rules@.len() - i,
        {
            let ghost es = e0 + type_rules_errors(self.typing_rules@.subrange(0, i as int), self.base_types@);
            match self.typing_rules[i].validate(&self.base_types) {
                Ok(()) => {},
                Err(rule_errors) => {
                    append_diags(&mut errors, rule_errors, Ghost(es),
                        Ghost(type_rule_errors_of(self.typing_rules@[i as int], self.base_types@)));
                },
            }
            proof {
                let s = self.typing_rules@.subrange(0, i + 1);
                assert(s.drop_last() =~= self.typing_rules@.subrange(0, i as int));
                assert(e0 + type_rules_errors(s, self.base_types@)
                    =~= es + type_rule_errors_of(self.typing_rules@[i as int], self.base_types@));
                if type_rule_errors_of(self.typing_rules@[i as int], self.base_types@).len() == 0 {
                    assert(es + type_rule_errors_of(self.typing_rules@[i as int], self.base_types@) =~= es);
                }
            }
            i = i + 1;
        }
        proof {
            assert(self.typing_rules@.subrange(0, i as int) =~= self.typing_rules@);
        }
        if errors.len() == 0 {
            Ok(())
        } else {
            Err(errors)
        }
    }

    /// A type checker that uses these typing rules.
    pub fn generate_type_checker(&self) -> (c: TypeChecker)
        ensures
            c.typing_rules@ == self.typing_rules@,
            c.use_inference == (self.inference_rules@.len() > 0),
            c.error_messages@ == Map::<Seq<char>, String>::empty(),
    {
        TypeChecker::from_type_system(self)
    }
}

/// Evaluation strategy.
#[derive(Debug, Clone, Copy, PartialEq, Eq, Structural)]
pub enum EvaluationStrategy {
    StrictEvaluation,
    LazyEvaluation,
    CallByNeed,
}

/// Concurrency model.
#[derive(Debug)]
pub enum ConcurrencyModel {
    ThreadBased { preemptive: bool, creation_mechanism: ThreadCreationMechanism },
    EventLoop { async_await: bool },
    ActorModel { supervision: bool, message_passing: MessagePassingStyle },
    CSP { channel_types: Vec<ChannelType> },
    STM,
}

/// How threads are created.
#[derive(Debug, Clone, Copy, PartialEq, Eq, Structural)]
pub enum ThreadCreationMechanism {
    ForkJoin,
    ThreadPool,
    TaskBased,
}

/// How actors exchange messages.
#[derive(Debug, Clone, Copy, PartialEq, Eq, Structural)]
pub enum MessagePassingStyle {
    Synchronous,
    Asynchronous,
    SelectiveReceive,
}

/// Kind of channel.
#[derive(Debug, Clone, Copy, PartialEq, Eq, Structural)]
pub enum ChannelType {
    Synchronous,
    Buffered(usize),
    Rendezvous,
}

/// Effect system.
#[derive(Debug, Clone, Copy, PartialEq, Eq, Structural)]
pub enum EffectsSystem {
    Algebraic { handlers: bool, resumable: bool },
    Monadic { do_notation: bool },
    TypeEffects { region_based: bool },
}

/// The semantics of a language; `target_specific` holds settings per code-generation target.
#[derive(Debug)]
pub struct SemanticsDefinition {
    pub execution_model: ExecutionModel,
    pub rules: Vec<SemanticsRule>,
    pub evaluation_strategy: EvaluationStrategy,
    pub control_flow: ControlFlowDefinition,
    pub concurrency_model: Option<ConcurrencyModel>,
    pub effects_system: Option<EffectsSystem>,
    pub target_specific: AssocMap<String, String>,
}

/// What checking the semantics rules reports, in order.
pub open spec fn semantics_rules_errors(rs: Seq<SemanticsRule>) -> Seq<DiagSpec>
    decreases rs.len(),
{
    if rs.len() == 0 {
        seq![]
    } else {
        semantics_rules_errors(rs.drop_last()) + semantics_rule_errors_of(rs.last())
    }
}

/// Everything `SemanticsDefinition::validate` reports, in order.
pub open spec fn semantics_errors(d: SemanticsDefinition) -> Seq<DiagSpec> {
    semantics_rules_errors(d.rules@) + control_flow_errors(d.control_flow)
}

impl SemanticsDefinition {
    /// Imperative, strict semantics with no rules and no control-flow constructs.
    pub fn new() -> (d: Self)
        ensures
            d.execution_model == ExecutionModel::Imperative,
            d.rules@.len() == 0,
            d.evaluation_strategy == EvaluationStrategy::StrictEvaluation,
            d.control_flow.conditionals@.len() == 0,
            d.control_flow.loops@.len() == 0,
            d.control_flow.exception_handling is None,
            !d.control_flow.continuations,
            d.concurrency_model is None,
            d.effects_system is None,
            d.target_specific@ == Map::<Seq<char>, String>::empty(),
    {
        SemanticsDefinition {
            execution_model: ExecutionModel::Imperative,
            rules: Vec::new(),
            evaluation_strategy: EvaluationStrategy::StrictEvaluation,
            control_flow: ControlFlowDefinition::new(),
            concurrency_model: None,
            effects_system: None,
            target_specific: AssocMap::new(),
        }
    }

    /// Checks every semantics rule, then the control flow; reports every problem, in that order.
    pub fn validate(&self) -> (r: Result<(), Vec<ErrorDiagnostic>>)
        ensures
            semantics_errors(*self).len() == 0 ==> r is Ok,
            semantics_errors(*self).len() > 0 ==> (r matches Err(ds) && diags_are(ds@, semantics_errors(*self))),
    {
        let mut errors: Vec<ErrorDiagnostic> = Vec::new();
        let mut i: usize = 0;
        while i < self.rules.len()
            invariant
                i <= self.rules@.len(),
                diags_are(errors@, semantics_rules_errors(self.rules@.subrange(0, i as int))),
            decreases self.rules@.len() - i,
        {
            let ghost es = semantics_rules_errors(self.rules@.subrange(0, i as int));
            match self.rules[i].validate() {
                Ok(()) => {},
                Err(rule_errors) => {
                    append_diags(&mut errors, rule_errors, Ghost(es), Ghost(semantics_rule_errors_of(self.rules@[i as int])));
                },
            }
            proof {
                let s = self.rules@.subrange(0, i + 1);
                assert(s.drop_last() =~= self.rules@.subrange(0, i as int));
                if semantics_rule_errors_of(self.rules@[i as int]).len() == 0 {
                    assert(es + semantics_rule_errors_of(self.rules@[i as int]) =~= es);
                }
            }
            i = i + 1;
        }
        proof {
            assert(self.rules@.subrange(0, i as int) =~= self.rules@);
        }
        let ghost e1 = semantics_rules_errors(self.rules@);
        match self.control_flow.validate() {
            Ok(()) => {
                proof {
                    assert(e1 + control_flow_errors(self.control_flow) =~= e1);
                }
            },
            Err(cf_errors) => {
                append_diags(&mut errors, cf_errors, Ghost(e1), Ghost(control_flow_errors(self.control_flow)));
            },
        }
        if errors.len() == 0 {
            Ok(())
        } else {
            Err(errors)
        }
    }
}

/// How a language reports errors.
#[derive(Debug)]
pub struct ErrorSystem {
    pub message_templates: AssocMap<String, String>,
    pub error_codes: AssocMap<String, ErrorCode>,
    pub suggestions: bool,
}

impl ErrorSystem {
    /// No templates, no codes, suggestions on.
    pub fn new() -> (e: Self)
        ensures
            e.message_templates@ == Map::<Seq<char>, String>::empty(),
            e.error_codes@ == Map::<Seq<char>, ErrorCode>::empty(),
            e.suggestions,
    {
        ErrorSystem { message_templates: AssocMap::new(), error_codes: AssocMap::new(), suggestions: true }
    }
}

/// A module of a standard library.
#[derive(Debug)]
pub struct ModuleDefinition {
    pub name: String,
    pub version: String,
    pub exports: AssocMap<String, ()>,
    pub imports: Vec<ModuleImport>,
    pub type_definitions: Vec<TypeDefinition>,
    pub function_definitions: Vec<FunctionDefinition>,
}

/// An import of a module.
#[derive(Debug, Clone, PartialEq, Eq)]
pub struct ModuleImport {
    pub module_name: String,
    pub symbols: Vec<ImportedSymbol>,
    pub alias: Option<String>,
}

/// An imported symbol.
#[derive(Debug, Clone, PartialEq, Eq)]
pub struct ImportedSymbol {
    pub name: String,
    pub alias: Option<String>,
}

/// A function definition.
#[derive(Debug)]
pub struct FunctionDefinition {
    pub name: String,
    pub type_parameters: Vec<TypeParameter>,
    pub parameters: Vec<ParameterDefinition>,
    pub return_type: Type,
    pub visibility: Visibility,
    pub implementation: Option<String>,
    pub effects: Vec<Effect>,
    pub attributes: Vec<Attribute>,
}

/// A parameter definition.
#[derive(Debug)]
pub struct ParameterDefinition {
    pub name: String,
    pub parameter_type: Type,
    pub default_value: Option<String>,
    pub style: ParameterStyle,
}

/// How a parameter is passed.
#[derive(Debug, Clone, Copy, PartialEq, Eq, Structural)]
pub enum ParameterStyle {
    ByValue,
    ByReference,
    ByMutableReference,
    ByMove,
}

/// An effect.
#[derive(Debug)]
pub struct Effect {
    pub name: String,
    pub parameters: Vec<Type>,
}

/// An attribute.
#[derive(Debug, Clone, PartialEq, Eq)]
pub struct Attribute {
    pub name: String,
    pub parameters: Vec<String>,
}

/// A standard library definition.
#[derive(Debug)]
pub struct StdLibraryDefinition {
    pub core_modules: Vec<ModuleDefinition>,
    pub standard_types: AssocMap<String, ()>,
    pub standard_functions: AssocMap<String, FunctionDefinition>,
    pub primitives: AssocMap<String, ()>,
}

impl StdLibraryDefinition {
    /// An empty library.
    pub fn new() -> (d: Self)
        ensures
            d.core_modules@.len() == 0,
            d.standard_types@ == Map::<Seq<char>, ()>::empty(),
            d.standard_functions@ == Map::<Seq<char>, FunctionDefinition>::empty(),
            d.primitives@ == Map::<Seq<char>, ()>::empty(),
    {
        StdLibraryDefinition {
            core_modules: Vec::new(),
            standard_types: AssocMap::new(),
            standard_functions: AssocMap::new(),
            primitives: AssocMap::new(),
        }
    }
}

/// An extension point.
#[derive(Debug, Clone, PartialEq, Eq)]
pub struct ExtensionPoint {
    pub name: String,
    pub description: String,
    pub interface_trait: String,
    pub priority: ExtensionPriority,
}

/// Priority of an extension point, lowest first.
#[derive(Debug, Clone, Copy, PartialEq, Eq, PartialOrd, Ord)]
pub enum ExtensionPriority {
    Lowest,
    Low,
    Normal,
    High,
    Highest,
}

/// A language definition.
#[derive(Debug)]
pub struct LanguageDefinition {
    pub name: String,
    pub version: String,
    pub syntax: SyntaxDefinition,
    pub type_system: TypeSystem,
    pub semantics: SemanticsDefinition,
    pub memory_model: MemoryModel,
    pub optimizations: Vec<OptimizationPass>,
    pub error_system: ErrorSystem,
    pub std_library: StdLibraryDefinition,
    pub extension_points: AssocMap<String, ExtensionPoint>,
}

/// What the syntax check reports, as diagnostics.
pub open spec fn syntax_diag_specs(ms: Seq<Seq<char>>) -> Seq<DiagSpec> {
    ms.map_values(|m: Seq<char>| (m, "SyntaxDefinition"@, Severity::Error))
}

/// Everything `LanguageDefinition::validate` reports, in order.
pub open spec fn language_errors(d: LanguageDefinition) -> Seq<DiagSpec> {
    syntax_diag_specs(crate::syntax::syntax_errors(d.syntax)) + type_system_errors(d.type_system)
        + semantics_errors(d.semantics)
}

proof fn lemma_syntax_diags(ms: Seq<Seq<char>>, ds: Seq<ErrorDiagnostic>)
    requires
        crate::syntax::syntax_diagnostics(ms, ds),
    ensures
        diags_are(ds, syntax_diag_specs(ms)),
{
    assert forall|i: int| 0 <= i < ds.len() implies crate::diagnostic::diag_is(#[trigger] ds[i], syntax_diag_specs(ms)[i]) by {
        assert(ds[i].message@ == ms[i]);
    }
}

impl LanguageDefinition {
    /// A definition named `name`, version 0.1.0, with empty parts.
    pub fn new(name: &str) -> (d: Self)
        ensures
            d.name@ == name@,
            d.version@ == "0.1.0"@,
            d.syntax.tokens@.len() == 0,
            d.syntax.rules@.len() == 0,
            d.syntax.grammar_type == crate::syntax::GrammarType::LL(1),
            empty_type_system(d.type_system),
            d.semantics.rules@.len() == 0,
            d.semantics.control_flow.conditionals@.len() == 0,
            d.semantics.control_flow.loops@.len() == 0,
            d.memory_model == (MemoryModel { ownership: OwnershipModel::Ownership, allocation: AllocationStrategy::Stack }),
            d.optimizations@.len() == 0,
            d.extension_points@ == Map::<Seq<char>, ExtensionPoint>::empty(),
            d.syntax.keywords@ == Map::<Seq<char>, ()>::empty(),
            d.error_system.message_templates@ == Map::<Seq<char>, String>::empty(),
            d.error_system.error_codes@ == Map::<Seq<char>, ErrorCode>::empty(),
            d.error_system.suggestions,
            d.std_library.core_modules@.len() == 0,
            d.std_library.standard_types@ == Map::<Seq<char>, ()>::empty(),
            d.std_library.standard_functions@ == Map::<Seq<char>, FunctionDefinition>::empty(),
            d.std_library.primitives@ == Map::<Seq<char>, ()>::empty(),
    {
        LanguageDefinition {
            name: string_of(name),
            version: string_of("0.1.0"),
            syntax: SyntaxDefinition::new(),
            type_system: TypeSystem::new(),
            semantics: SemanticsDefinition::new(),
            memory_model: MemoryModel::default_model(),
            optimizations: Vec::new(),
            error_system: ErrorSystem::new(),
            std_library: StdLibraryDefinition::new(),
            extension_points: AssocMap::new(),
        }
    }

    /// Checks the syntax, the type system, the semantics and the memory model;
    /// reports every problem, in that order.
    pub fn validate(&self) -> (r: Result<(), Vec<ErrorDiagnostic>>)
        ensures
            language_errors(*self).len() == 0 ==> r is Ok,
            language_errors(*self).len() > 0 ==> (r matches Err(ds) && diags_are(ds@, language_errors(*self))),
    {
        let mut errors: Vec<ErrorDiagnostic> = Vec::new();
        let ghost e0 = syntax_diag_specs(crate::syntax::syntax_errors(self.syntax));
        match self.syntax.validate() {
            Ok(()) => {
                proof {
                    assert(e0 =~= Seq::<DiagSpec>::empty());
                }
            },
            Err(syn_errors) => {
                proof {
                    lemma_syntax_diags(crate::syntax::syntax_errors(self.syntax), syn_errors@);
                    assert(Seq::<DiagSpec>::empty() + e0 =~= e0);
                }
                append_diags(&mut errors, syn_errors, Ghost(Seq::<DiagSpec>::empty()), Ghost(e0));
            },
        }
        let ghost e1 = e0 + type_system_errors(self.type_system);
        match self.type_system.validate() {
            Ok(()) => {
                proof {
                    assert(e1 =~= e0);
                }
            },
            Err(type_errors) => {
                append_diags(&mut errors, type_errors, Ghost(e0), Ghost(type_system_errors(self.type_system)));
            },
        }
        let ghost e2 = e1 + semantics_errors(self.semantics);
        match self.semantics.validate() {
            Ok(()) => {
                proof {
                    assert(e2 =~= e1);
                }
            },
            Err(sem_errors) => {
                append_diags(&mut errors, sem_errors, Ghost(e1), Ghost(semantics_errors(self.semantics)));
            },
        }
        match self.memory_model.validate() {
            Ok(()) => {},
            Err(memory_errors) => {
                proof {
                    assert(false);
                }
            },
        }
        if errors.len() == 0 {
            Ok(())
        } else {
            Err(errors)
        }
    }

    /// The compiler for this language: fails with the problems `validate`
    /// reports, otherwise a compiler named `<name>-compiler` built from the
    /// parts of the definition.
    pub fn generate_compiler(&self) -> (r: Result<CompilerDefinition, Vec<ErrorDiagnostic>>)
        ensures
            language_errors(*self).len() > 0 ==> (r matches Err(ds) && diags_are(ds@, language_errors(*self))),
            language_errors(*self).len() == 0 ==> (r matches Ok(c) && {
                &&& c.name@ == self.name@ + "-compiler"@
                &&& c.version@ == self.version@
                &&& c.lexer.token_definitions@ == self.syntax.tokens@
                &&& crate::syntax::same_rules(c.parser.grammar_rules@, self.syntax.rules@)
                &&& c.type_checker.typing_rules@ == self.type_system.typing_rules@
                &&& c.optimizer.passes@ == self.optimizations@
                &&& c.optimizer.level == OptimizationLevel::Default
            }),
    {
        self.validate()?;
        let lexer = self.syntax.generate_lexer();
        let parser = self.syntax.generate_parser();
        let type_checker = self.type_system.generate_type_checker();
        let code_generator = CodeGenerator::new(self);
        let mut name = self.name.clone();
        append_str(&mut name, "-compiler");
        let mut passes: Vec<OptimizationPass> = Vec::new();
        let mut i: usize = 0;
        while i < self.optimizations.len()
            invariant
                i <= self.optimizations@.len(),
                passes@ == self.optimizations@.subrange(0, i as int),
            decreases self.optimizations@.len() - i,
        {
            passes.push(self.optimizations[i]);
            i = i + 1;
            proof {
                assert(passes@ =~= self.optimizations@.subrange(0, i as int));
            }
        }
        proof {
            assert(self.optimizations@.subrange(0, i as int) =~= self.optimizations@);
        }
        Ok(CompilerDefinition {
            name,
            version: self.version.clone(),
            lexer,
            parser,
            type_checker,
            optimizer: Optimizer::from_passes(passes),
            code_generator,
        })
    }
}

/// A generated compiler.
pub struct CompilerDefinition {
    pub name: String,
    pub version: String,
    pub lexer: Lexer,
    pub parser: Parser,
    pub type_checker: TypeChecker,
    pub optimizer: Optimizer,
    pub code_generator: CodeGenerator,
}

/// A generated type checker.
#[derive(Debug)]
pub struct TypeChecker {
    pub typing_rules: Vec<TypeRule>,
    pub use_inference: bool,
    pub error_messages: AssocMap<String, String>,
}

impl TypeChecker {
    /// A checker with the type system's typing rules, using inference when the
    /// type system has inference rules.
    pub fn from_type_system(type_system: &TypeSystem) -> (c: Self)
        ensures
            c.typing_rules@ == type_system.typing_rules@,
            c.use_inference == (type_system.inference_rules@.len() > 0),
            c.error_messages@ == Map::<Seq<char>, String>::empty(),
    {
        let mut rules: Vec<TypeRule> = Vec::new();
        let mut i: usize = 0;
        while i < type_system.typing_rules.len()
            invariant
                i <= type_system.typing_rules@.len(),
                rules@ == type_system.typing_rules@.subrange(0, i as int),
            decreases type_system.typing_rules@.len() - i,
        {
            rules.push(type_system.typing_rules[i].copy());
            i = i + 1;
            proof {
                assert(rules@ =~= type_system.typing_rules@.subrange(0, i as int));
            }
        }
        proof {
            assert(type_system.typing_rules@.subrange(0, i as int) =~= type_system.typing_rules@);
        }
        TypeChecker {
            typing_rules: rules,
            use_inference: type_system.inference_rules.len() != 0,
            error_messages: AssocMap::new(),
        }
    }
}

/// A generated optimizer.
#[derive(Debug)]
pub struct Optimizer {
    pub passes: Vec<OptimizationPass>,
    pub level: OptimizationLevel,
    pub target_specific: AssocMap<String, Vec<OptimizationPass>>,
}

impl Optimizer {
    /// An optimizer running `passes` at the default level.
    pub fn from_passes(passes: Vec<OptimizationPass>) -> (o: Self)
        ensures
            o.passes == passes,
            o.level == OptimizationLevel::Default,
            o.target_specific@ == Map::<Seq<char>, Vec<OptimizationPass>>::empty(),
    {
        Optimizer { passes, level: OptimizationLevel::Default, target_specific: AssocMap::new() }
    }
}

/// How instructions are selected.
#[derive(Debug, Clone, Copy, PartialEq, Eq, Structural)]
pub enum InstructionSelectionStrategy {
    PatternMatching,
    TreeRewriting,
    DAGBased,
}

/// How registers are allocated.
#[derive(Debug, Clone, Copy, PartialEq, Eq, Structural)]
pub enum RegisterAllocationStrategy {
    LinearScan,
    GraphColoring,
    Greedy,
}

/// A code-generation backend; `architectures` holds each name once.
#[derive(Debug)]
pub struct CodeGenBackend {
    pub name: String,
    pub architectures: AssocMap<String, ()>,
    pub instruction_selection: InstructionSelectionStrategy,
    pub register_allocation: RegisterAllocationStrategy,
}

/// An ABI.
#[derive(Debug)]
pub struct ABIDefinition {
    pub name: String,
    pub calling_convention: CallingConvention,
    pub data_layout: DataLayout,
}

/// A calling convention.
#[derive(Debug)]
pub struct CallingConvention {
    pub argument_passing: ArgumentPassing,
    pub return_value: ReturnValueMethod,
    pub register_usage: AssocMap<String, RegisterUsage>,
}

/// How arguments are passed.
#[derive(Debug, Clone, PartialEq, Eq)]
pub enum ArgumentPassing {
    Registers(Vec<String>),
    Stack,
    Hybrid { register_count: usize, register_names: Vec<String>, stack_growth: StackGrowthDirection },
}

/// Direction of stack growth.
#[derive(Debug, Clone, Copy, PartialEq, Eq, Structural)]
pub enum StackGrowthDirection {
    Downward,
    Upward,
}

/// How a return value is delivered.
#[derive(Debug, Clone, PartialEq, Eq)]
pub enum ReturnValueMethod {
    Register(String),
    Registers(Vec<String>),
    Memory,
}

/// How a register is used across calls.
#[derive(Debug, Clone, PartialEq, Eq)]
pub struct RegisterUsage {
    pub preservation: RegisterPreservation,
    pub special_purpose: Option<String>,
}

/// Who saves a register.
#[derive(Debug, Clone, Copy, PartialEq, Eq, Structural)]
pub enum RegisterPreservation {
    CallerSaved,
    CalleeSaved,
}

/// A data layout.
#[derive(Debug)]
pub struct DataLayout {
    pub endianness: Endianness,
    pub alignment_requirements: AssocMap<String, usize>,
    pub struct_padding: StructPadding,
}

/// Byte order.
#[derive(Debug, Clone, Copy, PartialEq, Eq, Structural)]
pub enum Endianness {
    Big,
    Little,
}

/// How structs are padded; a custom scheme is named.
#[derive(Debug, Clone, PartialEq, Eq)]
pub enum StructPadding {
    Natural,
    Packed,
    Custom(String),
}

/// The views of a list of string slices.
pub open spec fn strs_view(v: Seq<&str>) -> Seq<Seq<char>> {
    v.map_values(|s: &str| s@)
}

fn str_set(names: &[&str]) -> (r: AssocMap<String, ()>)
    ensures
        r@.dom() == strs_view(names@).to_set(),
{
    let mut r: AssocMap<String, ()> = AssocMap::new();
    let mut i: usize = 0;
    while i < names.len()
        invariant
            i <= names@.len(),
            r@.dom() == strs_view(names@.subrange(0, i as int)).to_set(),
        decreases names@.len() - i,
    {
        let ghost before = r@.dom();
        r.insert(string_of(names[i]), ());
        proof {
            let a = strs_view(names@.subrange(0, i + 1));
            let b = strs_view(names@.subrange(0, i as int));
            assert(a =~= b.push(names@[i as int]@));
            assert(a.to_set() =~= b.to_set().insert(names@[i as int]@)) by {
                b.lemma_push_to_set_commute(names@[i as int]@);
            }
        }
        i = i + 1;
    }
    proof {
        assert(names@.subrange(0, i as int) =~= names@);
    }
    r
}

/// Whether a backend has the given name, architectures and strategies.
pub open spec fn backend_is(
    b: CodeGenBackend,
    name: Seq<char>,
    archs: Seq<Seq<char>>,
    isel: InstructionSelectionStrategy,
    ralloc: RegisterAllocationStrategy,
) -> bool {
    &&& b.name@ == name
    &&& b.architectures@.dom() == archs.to_set()
    &&& b.instruction_selection == isel
    &&& b.register_allocation == ralloc
}

/// The targets a fresh code generator supports.
pub open spec fn default_targets() -> Seq<Seq<char>> {
    seq!["llvm"@, "wasm"@, "native"@, "js"@, "bytecode"@]
}

/// The ABIs a fresh code generator knows.
pub open spec fn default_abis() -> Seq<Seq<char>> {
    seq!["systemv"@, "win64"@, "wasm"@]
}

fn make_backend(
    name: &str,
    archs: &[&str],
    isel: InstructionSelectionStrategy,
    ralloc: RegisterAllocationStrategy,
) -> (b: CodeGenBackend)
    ensures
        backend_is(b, name@, strs_view(archs@), isel, ralloc),
{
    CodeGenBackend {
        name: string_of(name),
        architectures: str_set(archs),
        instruction_selection: isel,
        register_allocation: ralloc,
    }
}

fn default_abi(name: &str) -> (a: ABIDefinition)
    ensures
        a.name@ == name@,
        a.calling_convention.argument_passing == ArgumentPassing::Stack,
        a.calling_convention.return_value == ReturnValueMethod::Memory,
        a.calling_convention.register_usage@ == Map::<Seq<char>, RegisterUsage>::empty(),
        a.data_layout.endianness == Endianness::Little,
        a.data_layout.alignment_requirements@ == Map::<Seq<char>, usize>::empty(),
        a.data_layout.struct_padding == StructPadding::Natural,
{
    ABIDefinition {
        name: string_of(name),
        calling_convention: CallingConvention {
            argument_passing: ArgumentPassing::Stack,
            return_value: ReturnValueMethod::Memory,
            register_usage: AssocMap::new(),
        },
        data_layout: DataLayout {
            endianness: Endianness::Little,
            alignment_requirements: AssocMap::new(),
            struct_padding: StructPadding::Natural,
        },
    }
}

/// The message for a target that is not supported.
pub open spec fn unsupported_target_message(target: Seq<char>) -> Seq<char> {
    "サポートされていないターゲット: "@ + target
}

/// The message for a supported target without a backend.
pub open spec fn missing_backend_message(target: Seq<char>) -> Seq<char> {
    "バックエンドが見つかりません: "@ + target
}

/// A code generator: the supported targets, a backend for each, and the known ABIs.
#[derive(Debug)]
pub struct CodeGenerator {
    pub supported_targets: AssocMap<String, ()>,
    pub backends: AssocMap<String, CodeGenBackend>,
    pub abi_definitions: AssocMap<String, ABIDefinition>,
}

impl CodeGenerator {
    /// The targets `llvm`, `wasm`, `native`, `js` and `bytecode`, each with its
    /// backend, and the ABIs `systemv`, `win64` and `wasm`. The definition's
    /// target-specific settings for a supported target change nothing.
    pub fn new(lang_def: &LanguageDefinition) -> (g: Self)
        ensures
            g.supported_targets@.dom() == default_targets().to_set(),
            g.backends@.dom() == default_targets().to_set(),
            backend_is(g.backends@["llvm"@], "llvm"@, seq!["x86_64"@, "aarch64"@, "arm"@, "riscv64"@, "wasm32"@],
                InstructionSelectionStrategy::DAGBased, RegisterAllocationStrategy::GraphColoring),
            backend_is(g.backends@["wasm"@], "wasm"@, seq!["wasm32"@, "wasm64"@],
                InstructionSelectionStrategy::TreeRewriting, RegisterAllocationStrategy::LinearScan),
            backend_is(g.backends@["native"@], "native"@, seq!["x86_64"@, "aarch64"@],
                InstructionSelectionStrategy::PatternMatching, RegisterAllocationStrategy::GraphColoring),
            backend_is(g.backends@["js"@], "js"@, seq!["js"@],
                InstructionSelectionStrategy::TreeRewriting, RegisterAllocationStrategy::Greedy),
            backend_is(g.backends@["bytecode"@], "bytecode"@, seq!["vm"@],
                InstructionSelectionStrategy::PatternMatching, RegisterAllocationStrategy::LinearScan),
            g.abi_definitions@.dom() == default_abis().to_set(),
            g.abi_definitions@["systemv"@].name@ == "systemv"@,
            g.abi_definitions@["win64"@].name@ == "win64"@,
            g.abi_definitions@["wasm"@].name@ == "wasm"@,
    {
        let supported_targets = str_set(&["llvm", "wasm", "native", "js", "bytecode"]);
        let mut backends: AssocMap<String, CodeGenBackend> = AssocMap::new();
        let llvm_backend = make_backend("llvm", &["x86_64", "aarch64", "arm", "riscv64", "wasm32"],
            InstructionSelectionStrategy::DAGBased, RegisterAllocationStrategy::GraphColoring);
        backends.insert(string_of("llvm"), llvm_backend);
        let wasm_backend = make_backend("wasm", &["wasm32", "wasm64"],
            InstructionSelectionStrategy::TreeRewriting, RegisterAllocationStrategy::LinearScan);
        backends.insert(string_of("wasm"), wasm_backend);
        let native_backend = make_backend("native", &["x86_64", "aarch64"],
            InstructionSelectionStrategy::PatternMatching, RegisterAllocationStrategy::GraphColoring);
        backends.insert(string_of("native"), native_backend);
        let js_backend = make_backend("js", &["js"],
            InstructionSelectionStrategy::TreeRewriting, RegisterAllocationStrategy::Greedy);
        backends.insert(string_of("js"), js_backend);
        let bytecode_backend = make_backend("bytecode", &["vm"],
            InstructionSelectionStrategy::PatternMatching, RegisterAllocationStrategy::LinearScan);
        backends.insert(string_of("bytecode"), bytecode_backend);
        let mut abi_definitions: AssocMap<String, ABIDefinition> = AssocMap::new();
        abi_definitions.insert(string_of("systemv"), default_abi("systemv"));
        abi_definitions.insert(string_of("win64"), default_abi("win64"));
        abi_definitions.insert(string_of("wasm"), default_abi("wasm"));
        proof {
            reveal_strlit("llvm");
            reveal_strlit("wasm");
            reveal_strlit("native");
            reveal_strlit("js");
            reveal_strlit("bytecode");
            reveal_strlit("systemv");
            reveal_strlit("win64");
            assert("llvm"@[0] == 'l' && "wasm"@[0] == 'w' && "native"@[0] == 'n' && "js"@[0] == 'j'
                && "bytecode"@[0] == 'b' && "systemv"@[0] == 's' && "win64"@[1] == 'i' && "wasm"@[1] == 'a');
            assert(strs_view(["llvm", "wasm", "native", "js", "bytecode"]@) =~= default_targets());
            assert(strs_view(["x86_64", "aarch64", "arm", "riscv64", "wasm32"]@)
                =~= seq!["x86_64"@, "aarch64"@, "arm"@, "riscv64"@, "wasm32"@]);
            assert(strs_view(["wasm32", "wasm64"]@) =~= seq!["wasm32"@, "wasm64"@]);
            assert(strs_view(["x86_64", "aarch64"]@) =~= seq!["x86_64"@, "aarch64"@]);
            assert(strs_view(["js"]@) =~= seq!["js"@]);
            assert(strs_view(["vm"]@) =~= seq!["vm"@]);
            assert(backends@.dom() =~= default_targets().to_set()) by {
                let t = default_targets();
                assert(t[0] == "llvm"@ && t[1] == "wasm"@ && t[2] == "native"@ && t[3] == "js"@ && t[4] == "bytecode"@);
            }
            assert(abi_definitions@.dom() =~= default_abis().to_set()) by {
                let t = default_abis();
                assert(t[0] == "systemv"@ && t[1] == "win64"@ && t[2] == "wasm"@);
            }
        }
        CodeGenerator { supported_targets, backends, abi_definitions }
    }

    /// Adds a backend and supports its target.
    pub fn add_backend(&mut self, backend: CodeGenBackend)
        ensures
            final(self).supported_targets@ == old(self).supported_targets@.insert(backend.name@, ()),
            final(self).backends@ == old(self).backends@.insert(backend.name@, backend),
            final(self).abi_definitions == old(self).abi_definitions,
    {
        let name1 = backend.name.clone();
        let name2 = backend.name.clone();
        self.supported_targets.insert(name1, ());
        self.backends.insert(name2, backend);
    }

    /// Generates code for `target`. An unsupported target, or a supported one
    /// without a backend, is refused with its message; otherwise the output is
    /// empty, since the backends themselves emit nothing here.
    pub fn generate_code(&self, target: &str, module: &Module) -> (r: Result<Vec<u8>, String>)
        ensures
            !self.supported_targets@.contains_key(target@) ==> (r matches Err(e) && e@ == unsupported_target_message(target@)),
            self.supported_targets@.contains_key(target@) && !self.backends@.contains_key(target@)
                ==> (r matches Err(e) && e@ == missing_backend_message(target@)),
            self.supported_targets@.contains_key(target@) && self.backends@.contains_key(target@)
                ==> (r matches Ok(v) && v@.len() == 0),
    {
        let t = string_of(target);
        if !self.supported_targets.contains_key(&t) {
            let mut msg = string_of("サポートされていないターゲット: ");
            append_str(&mut msg, target);
            return Err(msg);
        }
        match self.backends.get(&t) {
            Some(_backend) => Ok(Vec::new()),
            None => {
                let mut msg = string_of("バックエンドが見つかりません: ");
                append_str(&mut msg, target);
                Err(msg)
            },
        }
    }

    /// Adds an ABI under its name.
    pub fn add_abi_definition(&mut self, abi: ABIDefinition)
        ensures
            final(self).abi_definitions@ == old(self).abi_definitions@.insert(abi.name@, abi),
            final(self).supported_targets == old(self).supported_targets,
            final(self).backends == old(self).backends,
    {
        let name = abi.name.clone();
        self.abi_definitions.insert(name, abi);
    }
}

// ---------------------------------------------------------------------------
// Generated compiler components.

/// A generated lexer: the token definitions and the names of the tokens it skips.
pub struct Lexer {
    pub token_definitions: Vec<TokenDefinition>,
    pub skip_tokens: AssocMap<String, ()>,
}

/// A token: its name, its regular-expression pattern and its priority.
#[derive(Debug, Clone, PartialEq, Eq)]
pub struct TokenDefinition {
    pub name: String,
    pub pattern: String,
    pub priority: u32,
}

/// A generated parser.
pub struct Parser {
    pub grammar_rules: Vec<ProductionRule>,
    pub parser_type: ParserType,
    pub error_recovery: ErrorRecoveryStrategy,
}

/// Kind of generated parser.
#[derive(Debug, Clone, Copy, PartialEq, Eq, Structural)]
pub enum ParserType {
    RecursiveDescent,
    PredictiveLL(usize),
    LR(LRVariant),
}

/// Kind of LR parser.
#[derive(Debug, Clone, Copy, PartialEq, Eq, Structural)]
pub enum LRVariant {
    SLR,
    LALR,
    CanonicalLR,
}

/// How a generated parser recovers from errors.
#[derive(Debug, Clone, Copy, PartialEq, Eq, Structural)]
pub enum ErrorRecoveryStrategy {
    Panic,
    PhraseLevel,
    ErrorProduction,
}

} // verus!
