use vstd::prelude::*;

use crate::assoc::AssocMap;
use crate::diagnostic::ErrorDiagnostic;

use crate::language_def::TypeSystem as LangTypeSystem;
use crate::util::string_of;




verus! {

/// A type of the type-system description language.
#[derive(Debug)]
pub enum Type {
    Primitive(PrimitiveType),
    Named(String),
    Generic { base: Box<Type>, args: Vec<Type> },
    Function { params: Vec<Type>, return_type: Box<Type>, effects: Option<EffectSet> },
    Tuple(Vec<Type>),
    Array { element: Box<Type>, size: Option<usize> },
    Pointer { pointee: Box<Type>, mutable: bool },
    Reference { referenced: Box<Type>, mutable: bool, lifetime: Option<Lifetime> },
    Option(Box<Type>),
    Result { ok: Box<Type>, err: Box<Type> },
    AlgebraicDataType { variants: Vec<(String, Vec<Type>)>, tagged: bool },
    Intersection(Vec<Type>),
    Union(Vec<Type>),
    HigherKinded { constructor: String, kind: Kind },
    Dependent { param_name: String, body: Box<Type> },
    Existential { var_name: String, constraint: Box<TypeConstraint> },
    Self_,
    TypeVar(String),
    Bottom,
    Top,
}

/// A primitive type.
#[derive(Debug, Clone, Copy, PartialEq, Eq, Structural)]
pub enum PrimitiveType {
    Integer { bits: u8, signed: bool },
    Float(u8),
    Char,
    Boolean,
    String,
    Unit,
    Never,
    Dynamic,
}

/// The kind of a type.
#[derive(Debug, PartialEq, Eq)]
pub enum Kind {
    Type,
    Arrow(Box<Kind>, Box<Kind>),
    Enum,
    Record,
    Nat,
    NatUpperBound(usize),
}

/// A lifetime.
#[derive(Debug, Clone, PartialEq, Eq)]
pub enum Lifetime {
    Named(String),
    Static,
    Anonymous(usize),
    Variable(String),
}

/// The effects a function may have; `custom` holds named effects, each once.
#[derive(Debug)]
pub struct EffectSet {
    pub io: bool,
    pub state: bool,
    pub exception: bool,
    pub nonlocal_control_flow: bool,
    pub allocation: bool,
    pub concurrency: bool,
    pub custom: AssocMap<String, ()>,
}

/// A constraint on types.
#[derive(Debug)]
pub enum TypeConstraint {
    Subtype { sub: Type, super_: Type },
    Equals(Type, Type),
    HasTrait { ty: Type, trait_name: String, trait_args: Vec<Type> },
    HasMember { ty: Type, member_name: String, member_type: Type },
    TypeOperator { operator: String, operands: Vec<Type>, result: Type },
    Conjunction(Vec<TypeConstraint>),
    Disjunction(Vec<TypeConstraint>),
    Negation(Box<TypeConstraint>),
    Implication(Box<TypeConstraint>, Box<TypeConstraint>),
    Refinement { base: Type, predicate: String },
}

// ---------------------------------------------------------------------------
// Structural equality of types (what a set of types identifies).

pub open spec fn same_kind(a: Kind, b: Kind) -> bool
    decreases a,
{
    match (a, b) {
        (Kind::Type, Kind::Type) => true,
        (Kind::Arrow(x1, x2), Kind::Arrow(y1, y2)) => same_kind(*x1, *y1) && same_kind(*x2, *y2),
        (Kind::Enum, Kind::Enum) => true,
        (Kind::Record, Kind::Record) => true,
        (Kind::Nat, Kind::Nat) => true,
        (Kind::NatUpperBound(x), Kind::NatUpperBound(y)) => x == y,
        _ => false,
    }
}

pub open spec fn same_lifetime(a: Lifetime, b: Lifetime) -> bool {
    match (a, b) {
        (Lifetime::Named(x), Lifetime::Named(y)) => x@ == y@,
        (Lifetime::Static, Lifetime::Static) => true,
        (Lifetime::Anonymous(x), Lifetime::Anonymous(y)) => x == y,
        (Lifetime::Variable(x), Lifetime::Variable(y)) => x@ == y@,
        _ => false,
    }
}

pub open spec fn same_effects(a: EffectSet, b: EffectSet) -> bool {
    &&& a.io == b.io
    &&& a.state == b.state
    &&& a.exception == b.exception
    &&& a.nonlocal_control_flow == b.nonlocal_control_flow
    &&& a.allocation == b.allocation
    &&& a.concurrency == b.concurrency
    &&& a.custom@.dom() == b.custom@.dom()
}

/// Whether two types have the same structure.
pub open spec fn same_ty(a: Type, b: Type) -> bool
    decreases a,
{
    match (a, b) {
        (Type::Primitive(x), Type::Primitive(y)) => x == y,
        (Type::Named(x), Type::Named(y)) => x@ == y@,
        (Type::Generic { base: b1, args: a1 }, Type::Generic { base: b2, args: a2 }) =>
            same_ty(*b1, *b2) && same_tys(a1@, a2@),
        (Type::Function { params: p1, return_type: r1, effects: e1 },
         Type::Function { params: p2, return_type: r2, effects: e2 }) =>
            same_tys(p1@, p2@) && same_ty(*r1, *r2) && match (e1, e2) {
                (Some(x), Some(y)) => same_effects(x, y),
                (None, None) => true,
                _ => false,
            },
        (Type::Tuple(x), Type::Tuple(y)) => same_tys(x@, y@),
        (Type::Array { element: x, size: s1 }, Type::Array { element: y, size: s2 }) =>
            same_ty(*x, *y) && s1 == s2,
        (Type::Pointer { pointee: x, mutable: m1 }, Type::Pointer { pointee: y, mutable: m2 }) =>
            same_ty(*x, *y) && m1 == m2,
        (Type::Reference { referenced: x, mutable: m1, lifetime: l1 },
         Type::Reference { referenced: y, mutable: m2, lifetime: l2 }) =>
            same_ty(*x, *y) && m1 == m2 && match (l1, l2) {
                (Some(p), Some(q)) => same_lifetime(p, q),
                (None, None) => true,
                _ => false,
            },
        (Type::Option(x), Type::Option(y)) => same_ty(*x, *y),
        (Type::Result { ok: o1, err: e1 }, Type::Result { ok: o2, err: e2 }) =>
            same_ty(*o1, *o2) && same_ty(*e1, *e2),
        (Type::AlgebraicDataType { variants: v1, tagged: t1 }, Type::AlgebraicDataType { variants: v2, tagged: t2 }) =>
            same_variants(v1@, v2@) && t1 == t2,
        (Type::Intersection(x), Type::Intersection(y)) => same_tys(x@, y@),
        (Type::Union(x), Type::Union(y)) => same_tys(x@, y@),
        (Type::HigherKinded { constructor: c1, kind: k1 }, Type::HigherKinded { constructor: c2, kind: k2 }) =>
            c1@ == c2@ && same_kind(k1, k2),
        (Type::Dependent { param_name: n1, body: b1 }, Type::Dependent { param_name: n2, body: b2 }) =>
            n1@ == n2@ && same_ty(*b1, *b2),
        (Type::Existential { var_name: n1, constraint: c1 }, Type::Existential { var_name: n2, constraint: c2 }) =>
            n1@ == n2@ && same_constraint(*c1, *c2),
        (Type::Self_, Type::Self_) => true,
        (Type::TypeVar(x), Type::TypeVar(y)) => x@ == y@,
        (Type::Bottom, Type::Bottom) => true,
        (Type::Top, Type::Top) => true,
        _ => false,
    }
}

pub open spec fn same_tys(a: Seq<Type>, b: Seq<Type>) -> bool
    decreases a,
{
    &&& a.len() == b.len()
    &&& (a.len() > 0 ==> same_ty(a[0], b[0]) && same_tys(a.drop_first(), b.drop_first()))
}

pub open spec fn same_variants(a: Seq<(String, Vec<Type>)>, b: Seq<(String, Vec<Type>)>) -> bool
    decreases a,
{
    &&& a.len() == b.len()
    &&& (a.len() > 0 ==> a[0].0@ == b[0].0@ && same_tys(a[0].1@, b[0].1@)
        && same_variants(a.drop_first(), b.drop_first()))
}

pub open spec fn same_constraint(a: TypeConstraint, b: TypeConstraint) -> bool
    decreases a,
{
    match (a, b) {
        (TypeConstraint::Subtype { sub: s1, super_: p1 }, TypeConstraint::Subtype { sub: s2, super_: p2 }) =>
            same_ty(s1, s2) && same_ty(p1, p2),
        (TypeConstraint::Equals(x1, y1), TypeConstraint::Equals(x2, y2)) => same_ty(x1, x2) && same_ty(y1, y2),
        (TypeConstraint::HasTrait { ty: t1, trait_name: n1, trait_args: a1 },
         TypeConstraint::HasTrait { ty: t2, trait_name: n2, trait_args: a2 }) =>
            same_ty(t1, t2) && n1@ == n2@ && same_tys(a1@, a2@),
        (TypeConstraint::HasMember { ty: t1, member_name: n1, member_type: m1 },
         TypeConstraint::HasMember { ty: t2, member_name: n2, member_type: m2 }) =>
            same_ty(t1, t2) && n1@ == n2@ && same_ty(m1, m2),
        (TypeConstraint::TypeOperator { operator: o1, operands: x1, result: r1 },
         TypeConstraint::TypeOperator { operator: o2, operands: x2, result: r2 }) =>
            o1@ == o2@ && same_tys(x1@, x2@) && same_ty(r1, r2),
        (TypeConstraint::Conjunction(x), TypeConstraint::Conjunction(y)) => same_constraints(x@, y@),
        (TypeConstraint::Disjunction(x), TypeConstraint::Disjunction(y)) => same_constraints(x@, y@),
        (TypeConstraint::Negation(x), TypeConstraint::Negation(y)) => same_constraint(*x, *y),
        (TypeConstraint::Implication(x1, y1), TypeConstraint::Implication(x2, y2)) =>
            same_constraint(*x1, *x2) && same_constraint(*y1, *y2),
        (TypeConstraint::Refinement { base: b1, predicate: p1 }, TypeConstraint::Refinement { base: b2, predicate: p2 }) =>
            same_ty(b1, b2) && p1@ == p2@,
        _ => false,
    }
}

pub open spec fn same_constraints(a: Seq<TypeConstraint>, b: Seq<TypeConstraint>) -> bool
    decreases a,
{
    &&& a.len() == b.len()
    &&& (a.len() > 0 ==> same_constraint(a[0], b[0]) && same_constraints(a.drop_first(), b.drop_first()))
}

fn kind_eq(a: &Kind, b: &Kind) -> (r: bool)
    ensures
        r == same_kind(*a, *b),
    decreases a,
{
    match (a, b) {
        (Kind::Type, Kind::Type) => true,
        (Kind::Arrow(x1, x2), Kind::Arrow(y1, y2)) => kind_eq(x1, y1) && kind_eq(x2, y2),
        (Kind::Enum, Kind::Enum) => true,
        (Kind::Record, Kind::Record) => true,
        (Kind::Nat, Kind::Nat) => true,
        (Kind::NatUpperBound(x), Kind::NatUpperBound(y)) => *x == *y,
        _ => false,
    }
}

fn lifetime_eq(a: &Lifetime, b: &Lifetime) -> (r: bool)
    ensures
        r == same_lifetime(*a, *b),
{
    match (a, b) {
        (Lifetime::Named(x), Lifetime::Named(y)) => *x == *y,
        (Lifetime::Static, Lifetime::Static) => true,
        (Lifetime::Anonymous(x), Lifetime::Anonymous(y)) => *x == *y,
        (Lifetime::Variable(x), Lifetime::Variable(y)) => *x == *y,
        _ => false,
    }
}

fn key_subset(a: &AssocMap<String, ()>, b: &AssocMap<String, ()>) -> (r: bool)
    ensures
        r == a@.dom().subset_of(b@.dom()),
{
    let keys = a.keys();
    let ghost ko = a.key_order();
    let mut i: usize = 0;
    while i < keys.len()
        invariant
            i <= keys@.len(),
            crate::assoc::key_views(keys@) == ko,
            ko.to_set() == a@.dom(),
            forall|j: int| 0 <= j < i ==> b@.dom().contains(#[trigger] ko[j]),
        decreases keys@.len() - i,
    {
        proof {
            assert(crate::assoc::key_views(keys@)[i as int] == keys@[i as int]@);
        }
        if !b.contains_key(&keys[i]) {
            proof {
                assert(a@.dom().contains(ko[i as int]));
            }
            return false;
        }
        i = i + 1;
    }
    proof {
        assert forall|k: Seq<char>| a@.dom().contains(k) implies b@.dom().contains(k) by {
            let j = choose|j: int| 0 <= j < ko.len() && ko[j] == k;
        }
    }
    true
}

fn effects_eq(a: &EffectSet, b: &EffectSet) -> (r: bool)
    ensures
        r == same_effects(*a, *b),
{
    let flags = a.io == b.io && a.state == b.state && a.exception == b.exception
        && a.nonlocal_control_flow == b.nonlocal_control_flow && a.allocation == b.allocation
        && a.concurrency == b.concurrency;
    if !flags {
        return false;
    }
    let ab = key_subset(&a.custom, &b.custom);
    let ba = key_subset(&b.custom, &a.custom);
    proof {
        if ab && ba {
            assert(a.custom@.dom() =~= b.custom@.dom());
        }
    }
    ab && ba
}

/// Whether two types have the same structure.
pub fn ty_eq(a: &Type, b: &Type) -> (r: bool)
    ensures
        r == same_ty(*a, *b),
    decreases a,
{
    match (a, b) {
        (Type::Primitive(x), Type::Primitive(y)) => *x == *y,
        (Type::Named(x), Type::Named(y)) => *x == *y,
        (Type::Generic { base: b1, args: a1 }, Type::Generic { base: b2, args: a2 }) =>
            ty_eq(b1, b2) && tys_eq(a1, a2),
        (Type::Function { params: p1, return_type: r1, effects: e1 },
         Type::Function { params: p2, return_type: r2, effects: e2 }) => {
            if !tys_eq(p1, p2) || !ty_eq(r1, r2) {
                return false;
            }
            match (e1, e2) {
                (Some(x), Some(y)) => effects_eq(x, y),
                (None, None) => true,
                _ => false,
            }
        },
        (Type::Tuple(x), Type::Tuple(y)) => tys_eq(x, y),
        (Type::Array { element: x, size: s1 }, Type::Array { element: y, size: s2 }) =>
            ty_eq(x, y) && *s1 == *s2,
        (Type::Pointer { pointee: x, mutable: m1 }, Type::Pointer { pointee: y, mutable: m2 }) =>
            ty_eq(x, y) && *m1 == *m2,
        (Type::Reference { referenced: x, mutable: m1, lifetime: l1 },
         Type::Reference { referenced: y, mutable: m2, lifetime: l2 }) => {
            if !ty_eq(x, y) || *m1 != *m2 {
                return false;
            }
            match (l1, l2) {
                (Some(p), Some(q)) => lifetime_eq(p, q),
                (None, None) => true,
                _ => false,
            }
        },
        (Type::Option(x), Type::Option(y)) => ty_eq(x, y),
        (Type::Result { ok: o1, err: e1 }, Type::Result { ok: o2, err: e2 }) => ty_eq(o1, o2) && ty_eq(e1, e2),
        (Type::AlgebraicDataType { variants: v1, tagged: t1 }, Type::AlgebraicDataType { variants: v2, tagged: t2 }) =>
            variants_eq(v1, v2) && *t1 == *t2,
        (Type::Intersection(x), Type::Intersection(y)) => tys_eq(x, y),
        (Type::Union(x), Type::Union(y)) => tys_eq(x, y),
        (Type::HigherKinded { constructor: c1, kind: k1 }, Type::HigherKinded { constructor: c2, kind: k2 }) =>
            *c1 == *c2 && kind_eq(k1, k2),
        (Type::Dependent { param_name: n1, body: b1 }, Type::Dependent { param_name: n2, body: b2 }) =>
            *n1 == *n2 && ty_eq(b1, b2),
        (Type::Existential { var_name: n1, constraint: c1 }, Type::Existential { var_name: n2, constraint: c2 }) =>
            *n1 == *n2 && constraint_eq(c1, c2),
        (Type::Self_, Type::Self_) => true,
        (Type::TypeVar(x), Type::TypeVar(y)) => *x == *y,
        (Type::Bottom, Type::Bottom) => true,
        (Type::Top, Type::Top) => true,
        _ => false,
    }
}

proof fn lemma_same_tys_step(a: Seq<Type>, b: Seq<Type>, i: int)
    requires
        a.len() == b.len(),
        0 <= i < a.len(),
    ensures
        same_tys(a.subrange(i, a.len() as int), b.subrange(i, b.len() as int)) ==
            (same_ty(a[i], b[i]) && same_tys(a.subrange(i + 1, a.len() as int), b.subrange(i + 1, b.len() as int))),
{
    let sa = a.subrange(i, a.len() as int);
    let sb = b.subrange(i, b.len() as int);
    assert(sa.drop_first() =~= a.subrange(i + 1, a.len() as int));
    assert(sb.drop_first() =~= b.subrange(i + 1, b.len() as int));
}

fn tys_eq(a: &Vec<Type>, b: &Vec<Type>) -> (r: bool)
    ensures
        r == same_tys(a@, b@),
    decreases a,
{
    if a.len() != b.len() {
        return false;
    }
    let mut i: usize = 0;
    proof {
        assert(a@.subrange(0, a@.len() as int) =~= a@);
        assert(b@.subrange(0, b@.len() as int) =~= b@);
    }
    while i < a.len()
        invariant
            a@.len() == b@.len(),
            i <= a@.len(),
            same_tys(a@, b@) == same_tys(a@.subrange(i as int, a@.len() as int), b@.subrange(i as int, b@.len() as int)),
        decreases a@.len() - i,
    {
        proof {
            assert(decreases_to!(a => a@));
            assert(decreases_to!(a@ => a@[i as int]));
            
            lemma_same_tys_step(a@, b@, i as int);
        }
        if !(ty_eq(&a[i], &b[i])) {
            return false;
        }
        i = i + 1;
    }
    proof {
        assert(same_tys(a@.subrange(i as int, a@.len() as int), b@.subrange(i as int, b@.len() as int)));
    }
    true
}

proof fn lemma_same_variants_step(a: Seq<(String, Vec<Type>)>, b: Seq<(String, Vec<Type>)>, i: int)
    requires
        a.len() == b.len(),
        0 <= i < a.len(),
    ensures
        same_variants(a.subrange(i, a.len() as int), b.subrange(i, b.len() as int)) ==
            (a[i].0@ == b[i].0@ && same_tys(a[i].1@, b[i].1@)
                && same_variants(a.subrange(i + 1, a.len() as int), b.subrange(i + 1, b.len() as int))),
{
    let sa = a.subrange(i, a.len() as int);
    let sb = b.subrange(i, b.len() as int);
    assert(sa.drop_first() =~= a.subrange(i + 1, a.len() as int));
    assert(sb.drop_first() =~= b.subrange(i + 1, b.len() as int));
}

fn variants_eq(a: &Vec<(String, Vec<Type>)>, b: &Vec<(String, Vec<Type>)>) -> (r: bool)
    ensures
        r == same_variants(a@, b@),
    decreases a,
{
    if a.len() != b.len() {
        return false;
    }
    let mut i: usize = 0;
    proof {
        assert(a@.subrange(0, a@.len() as int) =~= a@);
        assert(b@.subrange(0, b@.len() as int) =~= b@);
    }
    while i < a.len()
        invariant
            a@.len() == b@.len(),
            i <= a@.len(),
            same_variants(a@, b@) == same_variants(a@.subrange(i as int, a@.len() as int), b@.subrange(i as int, b@.len() as int)),
        decreases a@.len() - i,
    {
        proof {
            assert(decreases_to!(a => a@));
            assert(decreases_to!(a@ => a@[i as int]));
            assert(decreases_to!(a@[i as int] => a@[i as int].1));
            lemma_same_variants_step(a@, b@, i as int);
        }
        if !(a[i].0 == b[i].0 && tys_eq(&a[i].1, &b[i].1)) {
            return false;
        }
        i = i + 1;
    }
    proof {
        assert(same_variants(a@.subrange(i as int, a@.len() as int), b@.subrange(i as int, b@.len() as int)));
    }
    true
}

fn constraint_eq(a: &TypeConstraint, b: &TypeConstraint) -> (r: bool)
    ensures
        r == same_constraint(*a, *b),
    decreases a,
{
    match (a, b) {
        (TypeConstraint::Subtype { sub: s1, super_: p1 }, TypeConstraint::Subtype { sub: s2, super_: p2 }) =>
            ty_eq(s1, s2) && ty_eq(p1, p2),
        (TypeConstraint::Equals(x1, y1), TypeConstraint::Equals(x2, y2)) => ty_eq(x1, x2) && ty_eq(y1, y2),
        (TypeConstraint::HasTrait { ty: t1, trait_name: n1, trait_args: a1 },
         TypeConstraint::HasTrait { ty: t2, trait_name: n2, trait_args: a2 }) =>
            ty_eq(t1, t2) && *n1 == *n2 && tys_eq(a1, a2),
        (TypeConstraint::HasMember { ty: t1, member_name: n1, member_type: m1 },
         TypeConstraint::HasMember { ty: t2, member_name: n2, member_type: m2 }) =>
            ty_eq(t1, t2) && *n1 == *n2 && ty_eq(m1, m2),
        (TypeConstraint::TypeOperator { operator: o1, operands: x1, result: r1 },
         TypeConstraint::TypeOperator { operator: o2, operands: x2, result: r2 }) =>
            *o1 == *o2 && tys_eq(x1, x2) && ty_eq(r1, r2),
        (TypeConstraint::Conjunction(x), TypeConstraint::Conjunction(y)) => constraints_eq(x, y),
        (TypeConstraint::Disjunction(x), TypeConstraint::Disjunction(y)) => constraints_eq(x, y),
        (TypeConstraint::Negation(x), TypeConstraint::Negation(y)) => constraint_eq(x, y),
        (TypeConstraint::Implication(x1, y1), TypeConstraint::Implication(x2, y2)) =>
            constraint_eq(x1, x2) && constraint_eq(y1, y2),
        (TypeConstraint::Refinement { base: b1, predicate: p1 }, TypeConstraint::Refinement { base: b2, predicate: p2 }) =>
            ty_eq(b1, b2) && *p1 == *p2,
        _ => false,
    }
}

proof fn lemma_same_constraints_step(a: Seq<TypeConstraint>, b: Seq<TypeConstraint>, i: int)
    requires
        a.len() == b.len(),
        0 <= i < a.len(),
    ensures
        same_constraints(a.subrange(i, a.len() as int), b.subrange(i, b.len() as int)) ==
            (same_constraint(a[i], b[i])
                && same_constraints(a.subrange(i + 1, a.len() as int), b.subrange(i + 1, b.len() as int))),
{
    let sa = a.subrange(i, a.len() as int);
    let sb = b.subrange(i, b.len() as int);
    assert(sa.drop_first() =~= a.subrange(i + 1, a.len() as int));
    assert(sb.drop_first() =~= b.subrange(i + 1, b.len() as int));
}

fn constraints_eq(a: &Vec<TypeConstraint>, b: &Vec<TypeConstraint>) -> (r: bool)
    ensures
        r == same_constraints(a@, b@),
    decreases a,
{
    if a.len() != b.len() {
        return false;
    }
    let mut i: usize = 0;
    proof {
        assert(a@.subrange(0, a@.len() as int) =~= a@);
        assert(b@.subrange(0, b@.len() as int) =~= b@);
    }
    while i < a.len()
        invariant
            a@.len() == b@.len(),
            i <= a@.len(),
            same_constraints(a@, b@) == same_constraints(a@.subrange(i as int, a@.len() as int), b@.subrange(i as int, b@.len() as int)),
        decreases a@.len() - i,
    {
        proof {
            assert(decreases_to!(a => a@));
            assert(decreases_to!(a@ => a@[i as int]));
            
            lemma_same_constraints_step(a@, b@, i as int);
        }
        if !(constraint_eq(&a[i], &b[i])) {
            return false;
        }
        i = i + 1;
    }
    proof {
        assert(same_constraints(a@.subrange(i as int, a@.len() as int), b@.subrange(i as int, b@.len() as int)));
    }
    true
}


/// Type-inference algorithm.
#[derive(Debug, Clone, PartialEq, Eq)]
pub enum InferenceAlgorithm {
    HindleyMilner,
    ConstraintBased,
    Local,
    Bidirectional,
    CurryHoward,
    TypeClassResolution,
    Custom(String),
}

/// Variance of a type parameter.
#[derive(Debug, Clone, Copy, PartialEq, Eq, Structural)]
pub enum Variance {
    Covariant,
    Contravariant,
    Invariant,
    Bivariant,
}

/// A trait (interface) definition.
#[derive(Debug)]
pub struct TraitDefinition {
    pub name: String,
    pub type_parameters: Vec<TypeParameter>,
    pub associated_types: Vec<String>,
    pub method_signatures: Vec<MethodSignature>,
    pub associated_constants: Vec<(String, Type)>,
    pub super_traits: Vec<String>,
    pub default_implementations: AssocMap<String, String>,
}

/// A type parameter of a trait or method.
#[derive(Debug)]
pub struct TypeParameter {
    pub name: String,
    pub constraints: Vec<TypeConstraint>,
    pub default_value: Option<Type>,
    pub kind: Kind,
    pub variance: Variance,
}

/// A method signature.
#[derive(Debug)]
pub struct MethodSignature {
    pub name: String,
    pub type_parameters: Vec<TypeParameter>,
    pub parameter_types: Vec<Type>,
    pub return_type: Type,
    pub effects: Option<EffectSet>,
    pub preconditions: Vec<String>,
    pub postconditions: Vec<String>,
}

/// A type-level operator.
#[derive(Debug)]
pub struct TypeOperator {
    pub name: String,
    pub precedence: u8,
    pub associativity: Associativity,
    pub arity: usize,
    pub implementation: String,
}

/// Associativity of a type operator.
#[derive(Debug, Clone, Copy, PartialEq, Eq, Structural)]
pub enum Associativity {
    Left,
    Right,
    NonAssociative,
}

/// A typing rule: premises and a conclusion.
#[derive(Debug)]
pub struct TypingRule {
    pub name: String,
    pub premises: Vec<TypeJudgment>,
    pub conclusion: TypeJudgment,
    pub description: String,
}

/// A typing judgment.
#[derive(Debug)]
pub struct TypeJudgment {
    pub environment: String,
    pub expression: String,
    pub type_: Type,
    pub effects: Option<EffectSet>,
}

/// A scope of type bindings.
#[derive(Debug)]
pub struct TypeBindingScope {
    pub name: String,
    pub parent: Option<String>,
    pub bindings: AssocMap<String, Type>,
}

/// How overloaded names are resolved.
#[derive(Debug, Clone, PartialEq, Eq)]
pub enum OverloadResolutionStrategy {
    MostSpecific,
    PriorityBased,
    MultipleDispatch,
    ContextDependent,
    Static,
    Dynamic,
    Custom(String),
}

/// The safety guarantees a type system gives.
#[derive(Debug, Clone, Copy, PartialEq, Eq, Structural)]
pub struct TypeSafetyGuarantees {
    pub null_safety: NullSafety,
    pub memory_safety: MemorySafety,
    pub thread_safety: ThreadSafety,
    pub exception_safety: ExceptionSafety,
    pub runtime_type_checking: bool,
    pub compile_time_type_checking: bool,
    pub type_preservation: bool,
    pub progress_guarantee: bool,
}

/// Null safety.
#[derive(Debug, Clone, Copy, PartialEq, Eq, Structural)]
pub enum NullSafety {
    NoNullSafety,
    Partial,
    Strict,
}

/// Memory safety.
#[derive(Debug, Clone, Copy, PartialEq, Eq, Structural)]
pub enum MemorySafety {
    Unconstrained,
    RuntimeChecked,
    CompileTimeVerified,
    TypeSystemEnforced,
}

/// Thread safety.
#[derive(Debug, Clone, Copy, PartialEq, Eq, Structural)]
pub enum ThreadSafety {
    NoThreadSafety,
    Partial,
    TypeEnforced,
    Synchronized,
}

/// Exception safety.
#[derive(Debug, Clone, Copy, PartialEq, Eq, Structural)]
pub enum ExceptionSafety {
    NoGuarantee,
    Basic,
    Strong,
    NoThrow,
    CompileTimeChecked,
}

/// Whether `s` holds a type with the same structure as `t`.
pub open spec fn holds_type(s: Seq<Type>, t: Type) -> bool {
    exists|i: int| 0 <= i < s.len() && same_ty(#[trigger] s[i], t)
}

/// `s` with `t` added, unless a type of the same structure is already there.
pub open spec fn with_base_type(s: Seq<Type>, t: Type) -> Seq<Type> {
    if holds_type(s, t) {
        s
    } else {
        s.push(t)
    }
}

/// The guarantees of a fully static, sound type system.
pub open spec fn strict_guarantees() -> TypeSafetyGuarantees {
    TypeSafetyGuarantees {
        null_safety: NullSafety::Strict,
        memory_safety: MemorySafety::TypeSystemEnforced,
        thread_safety: ThreadSafety::TypeEnforced,
        exception_safety: ExceptionSafety::CompileTimeChecked,
        runtime_type_checking: false,
        compile_time_type_checking: true,
        type_preservation: true,
        progress_guarantee: true,
    }
}

fn holds_same_type(v: &Vec<Type>, ty: &Type) -> (r: bool)
    ensures
        r == holds_type(v@, *ty),
{
    let mut i: usize = 0;
    while i < v.len()
        invariant
            i <= v@.len(),
            forall|j: int| 0 <= j < i ==> !same_ty(#[trigger] v@[j], *ty),
        decreases v@.len() - i,
    {
        if ty_eq(&v[i], ty) {
            proof {
                assert(same_ty(v@[i as int], *ty));
            }
            return true;
        }
        i = i + 1;
    }
    false
}

/// A type-system description built up by its builder methods.
/// `base_types` holds no two types of the same structure.
#[derive(Debug)]
pub struct TypeSystemImpl {
    pub base_types: Vec<Type>,
    pub type_aliases: AssocMap<String, Type>,
    pub type_constructors: AssocMap<String, Kind>,
    pub traits: AssocMap<String, TraitDefinition>,
    pub type_operators: AssocMap<String, TypeOperator>,
    pub inference_algorithm: InferenceAlgorithm,
    pub typing_rules: Vec<TypingRule>,
    pub variance_rules: AssocMap<String, Vec<Variance>>,
    pub subtyping_relationships: Vec<(Type, Type)>,
    pub type_binding_scopes: Vec<TypeBindingScope>,
    pub overload_resolution: OverloadResolutionStrategy,
    pub default_type_parameters: AssocMap<String, Type>,
    pub safety_guarantees: TypeSafetyGuarantees,
}

/// Whether a description is empty apart from its inference algorithm,
/// overload strategy and guarantees.
pub open spec fn empty_system(t: TypeSystemImpl) -> bool {
    &&& t.base_types@.len() == 0
    &&& no_definitions(t)
}

/// Whether a description defines nothing apart from its base types.
pub open spec fn no_definitions(t: TypeSystemImpl) -> bool {
    &&& t.type_aliases@ == Map::<Seq<char>, Type>::empty()
    &&& t.type_constructors@ == Map::<Seq<char>, Kind>::empty()
    &&& t.traits@ == Map::<Seq<char>, TraitDefinition>::empty()
    &&& t.type_operators@ == Map::<Seq<char>, TypeOperator>::empty()
    &&& t.typing_rules@.len() == 0
    &&& t.variance_rules@ == Map::<Seq<char>, Vec<Variance>>::empty()
    &&& t.subtyping_relationships@.len() == 0
    &&& t.type_binding_scopes@.len() == 0
    &&& t.default_type_parameters@ == Map::<Seq<char>, Type>::empty()
}

impl TypeSystemImpl {
    /// An empty description with the given inference algorithm, most-specific
    /// overload resolution and strict guarantees.
    pub fn new(inference_algorithm: InferenceAlgorithm) -> (t: Self)
        ensures
            empty_system(t),
            t.inference_algorithm == inference_algorithm,
            t.overload_resolution == OverloadResolutionStrategy::MostSpecific,
            t.safety_guarantees == strict_guarantees(),
    {
        let safety_guarantees = TypeSafetyGuarantees {
            null_safety: NullSafety::Strict,
            memory_safety: MemorySafety::TypeSystemEnforced,
            thread_safety: ThreadSafety::TypeEnforced,
            exception_safety: ExceptionSafety::CompileTimeChecked,
            runtime_type_checking: false,
            compile_time_type_checking: true,
            type_preservation: true,
            progress_guarantee: true,
        };
        TypeSystemImpl {
            base_types: Vec::new(),
            type_aliases: AssocMap::new(),
            type_constructors: AssocMap::new(),
            traits: AssocMap::new(),
            type_operators: AssocMap::new(),
            inference_algorithm,
            typing_rules: Vec::new(),
            variance_rules: AssocMap::new(),
            subtyping_relationships: Vec::new(),
            type_binding_scopes: Vec::new(),
            overload_resolution: OverloadResolutionStrategy::MostSpecific,
            default_type_parameters: AssocMap::new(),
            safety_guarantees,
        }
    }

    /// Adds a base type unless one of the same structure is already there.
    pub fn add_base_type(self, ty: Type) -> (r: Self)
        ensures
            holds_type(self.base_types@, ty) ==> r.base_types@ == self.base_types@,
            !holds_type(self.base_types@, ty) ==> r.base_types@ == self.base_types@.push(ty),
            r.base_types@ == with_base_type(self.base_types@, ty),
            r == (TypeSystemImpl { base_types: r.base_types, ..self }),
    {
        if holds_same_type(&self.base_types, &ty) {
            self
        } else {
            let mut s = self;
            s.base_types.push(ty);
            s
        }
    }

    /// Binds a type alias.
    pub fn add_type_alias(self, name: &str, ty: Type) -> (r: Self)
        ensures
            r.type_aliases@ == self.type_aliases@.insert(name@, ty),
            r == (TypeSystemImpl { type_aliases: r.type_aliases, ..self }),
    {
        let mut s = self;
        s.type_aliases.insert(string_of(name), ty);
        s
    }

    /// Binds a type constructor to its kind.
    pub fn add_type_constructor(self, name: &str, kind: Kind) -> (r: Self)
        ensures
            r.type_constructors@ == self.type_constructors@.insert(name@, kind),
            r == (TypeSystemImpl { type_constructors: r.type_constructors, ..self }),
    {
        let mut s = self;
        s.type_constructors.insert(string_of(name), kind);
        s
    }

    /// Adds a trait under its name.
    pub fn add_trait(self, trait_def: TraitDefinition) -> (r: Self)
        ensures
            r.traits@ == self.traits@.insert(trait_def.name@, trait_def),
            r == (TypeSystemImpl { traits: r.traits, ..self }),
    {
        let mut s = self;
        let name = trait_def.name.clone();
        s.traits.insert(name, trait_def);
        s
    }

    /// Adds a type operator under its name.
    pub fn add_type_operator(self, operator: TypeOperator) -> (r: Self)
        ensures
            r.type_operators@ == self.type_operators@.insert(operator.name@, operator),
            r == (TypeSystemImpl { type_operators: r.type_operators, ..self }),
    {
        let mut s = self;
        let name = operator.name.clone();
        s.type_operators.insert(name, operator);
        s
    }

    /// Appends a typing rule.
    pub fn add_typing_rule(self, rule: TypingRule) -> (r: Self)
        ensures
            r.typing_rules@ == self.typing_rules@.push(rule),
            r == (TypeSystemImpl { typing_rules: r.typing_rules, ..self }),
    {
        let mut s = self;
        s.typing_rules.push(rule);
        s
    }

    /// Sets the variances of a type's parameters.
    pub fn add_variance_rule(self, name_of_type: &str, variances: Vec<Variance>) -> (r: Self)
        ensures
            r.variance_rules@ == self.variance_rules@.insert(name_of_type@, variances),
            r == (TypeSystemImpl { variance_rules: r.variance_rules, ..self }),
    {
        let mut s = self;
        s.variance_rules.insert(string_of(name_of_type), variances);
        s
    }

    /// Appends a subtyping relationship.
    pub fn add_subtyping_relationship(self, sub: Type, super_: Type) -> (r: Self)
        ensures
            r.subtyping_relationships@ == self.subtyping_relationships@.push((sub, super_)),
            r == (TypeSystemImpl { subtyping_relationships: r.subtyping_relationships, ..self }),
    {
        let mut s = self;
        s.subtyping_relationships.push((sub, super_));
        s
    }

    /// Appends a type-binding scope.
    pub fn add_type_binding_scope(self, scope: TypeBindingScope) -> (r: Self)
        ensures
            r.type_binding_scopes@ == self.type_binding_scopes@.push(scope),
            r == (TypeSystemImpl { type_binding_scopes: r.type_binding_scopes, ..self }),
    {
        let mut s = self;
        s.type_binding_scopes.push(scope);
        s
    }

    /// Sets the overload-resolution strategy.
    pub fn with_overload_resolution(self, strategy: OverloadResolutionStrategy) -> (r: Self)
        ensures
            r == (TypeSystemImpl { overload_resolution: strategy, ..self }),
    {
        let mut s = self;
        s.overload_resolution = strategy;
        s
    }

    /// Sets the default of a type parameter.
    pub fn add_default_type_parameter(self, param_name: &str, default_value: Type) -> (r: Self)
        ensures
            r.default_type_parameters@ == self.default_type_parameters@.insert(param_name@, default_value),
            r == (TypeSystemImpl { default_type_parameters: r.default_type_parameters, ..self }),
    {
        let mut s = self;
        s.default_type_parameters.insert(string_of(param_name), default_value);
        s
    }

    /// Sets the safety guarantees.
    pub fn with_safety_guarantees(self, guarantees: TypeSafetyGuarantees) -> (r: Self)
        ensures
            r == (TypeSystemImpl { safety_guarantees: guarantees, ..self }),
    {
        let mut s = self;
        s.safety_guarantees = guarantees;
        s
    }

    /// The language-definition form of this description: an empty type system.
    pub fn to_language_type_system(&self) -> (t: LangTypeSystem)
        ensures
            crate::language_def::empty_type_system(t),
    {
        LangTypeSystem::new()
    }

    /// Checks the description; no check finds a problem.
    pub fn validate(&self) -> (r: Result<(), Vec<ErrorDiagnostic>>)
        ensures
            r is Ok,
    {
        let errors: Vec<ErrorDiagnostic> = Vec::new();
        if errors.len() == 0 {
            Ok(())
        } else {
            Err(errors)
        }
    }

}

// ---------------------------------------------------------------------------
// Ready-made type systems.

pub open spec fn prim(p: PrimitiveType) -> Type {
    Type::Primitive(p)
}

/// The base types of `static_typing`, in order.
pub open spec fn static_base_types() -> Seq<Type> {
    seq![
        prim(PrimitiveType::Integer { bits: 32, signed: true }),
        prim(PrimitiveType::Integer { bits: 32, signed: false }),
        prim(PrimitiveType::Integer { bits: 64, signed: true }),
        prim(PrimitiveType::Integer { bits: 64, signed: false }),
        prim(PrimitiveType::Float(32)),
        prim(PrimitiveType::Float(64)),
        prim(PrimitiveType::Boolean),
        prim(PrimitiveType::Char),
        prim(PrimitiveType::String),
        prim(PrimitiveType::Unit),
        prim(PrimitiveType::Never),
    ]
}

/// The base types of `gradual_typing`, in order.
pub open spec fn gradual_base_types() -> Seq<Type> {
    seq![
        prim(PrimitiveType::Integer { bits: 32, signed: true }),
        prim(PrimitiveType::Integer { bits: 64, signed: true }),
        prim(PrimitiveType::Float(64)),
        prim(PrimitiveType::Boolean),
        prim(PrimitiveType::String),
        prim(PrimitiveType::Unit),
        prim(PrimitiveType::Dynamic),
    ]
}

/// Whether every type of `s` is primitive and no two are equal.
pub open spec fn distinct_primitives(s: Seq<Type>) -> bool {
    &&& forall|i: int| 0 <= i < s.len() ==> (#[trigger] s[i]) is Primitive
    &&& forall|i: int, j: int| 0 <= i < j < s.len() ==> #[trigger] s[i] != #[trigger] s[j]
}

proof fn lemma_not_held(s: Seq<Type>, p: PrimitiveType)
    requires
        forall|i: int| 0 <= i < s.len() ==> (#[trigger] s[i]) is Primitive && s[i] != Type::Primitive(p),
    ensures
        !holds_type(s, Type::Primitive(p)),
{
}

/// Adds primitive base types in order, each one new.
fn add_primitives(ts: TypeSystemImpl, prims: Vec<PrimitiveType>) -> (r: TypeSystemImpl)
    requires
        ts.base_types@.len() == 0,
        distinct_primitives(prims@.map_values(|p: PrimitiveType| Type::Primitive(p))),
    ensures
        r.base_types@ == prims@.map_values(|p: PrimitiveType| Type::Primitive(p)),
        r == (TypeSystemImpl { base_types: r.base_types, ..ts }),
{
    let ghost all = prims@.map_values(|p: PrimitiveType| Type::Primitive(p));
    let mut result = ts;
    let mut i: usize = 0;
    while i < prims.len()
        invariant
            i <= prims@.len(),
            all == prims@.map_values(|p: PrimitiveType| Type::Primitive(p)),
            distinct_primitives(all),
            result.base_types@ == all.subrange(0, i as int),
            result == (TypeSystemImpl { base_types: result.base_types, ..ts }),
        decreases prims@.len() - i,
    {
        let p = prims[i];
        proof {
            assert(all[i as int] == Type::Primitive(p));
            assert forall|k: int| 0 <= k < result.base_types@.len() implies
                (#[trigger] result.base_types@[k]) is Primitive && result.base_types@[k] != Type::Primitive(p) by {
                assert(result.base_types@[k] == all[k]);
            }
            lemma_not_held(result.base_types@, p);
        }
        result = result.add_base_type(Type::Primitive(p));
        proof {
            assert(result.base_types@ =~= all.subrange(0, i + 1));
        }
        i = i + 1;
    }
    proof {
        assert(all.subrange(0, i as int) =~= all);
    }
    result
}

/// A static type system: Hindley-Milner inference, strict guarantees, and
/// signed and unsigned 32- and 64-bit integers, 32- and 64-bit floats,
/// booleans, characters, strings, unit and never as base types.
pub fn static_typing() -> (t: TypeSystemImpl)
    ensures
        t.base_types@ == static_base_types(),
        t.inference_algorithm == InferenceAlgorithm::HindleyMilner,
        t.safety_guarantees == strict_guarantees(),
        t.overload_resolution == OverloadResolutionStrategy::MostSpecific,
        no_definitions(t),
{
    let safety_guarantees = TypeSafetyGuarantees {
        null_safety: NullSafety::Strict,
        memory_safety: MemorySafety::TypeSystemEnforced,
        thread_safety: ThreadSafety::TypeEnforced,
        exception_safety: ExceptionSafety::CompileTimeChecked,
        runtime_type_checking: false,
        compile_time_type_checking: true,
        type_preservation: true,
        progress_guarantee: true,
    };
    let ts = TypeSystemImpl::new(InferenceAlgorithm::HindleyMilner).with_safety_guarantees(safety_guarantees);
    let prims = vec![
        PrimitiveType::Integer { bits: 32, signed: true },
        PrimitiveType::Integer { bits: 32, signed: false },
        PrimitiveType::Integer { bits: 64, signed: true },
        PrimitiveType::Integer { bits: 64, signed: false },
        PrimitiveType::Float(32),
        PrimitiveType::Float(64),
        PrimitiveType::Boolean,
        PrimitiveType::Char,
        PrimitiveType::String,
        PrimitiveType::Unit,
        PrimitiveType::Never,
    ];
    proof {
        assert(prims@.map_values(|p: PrimitiveType| Type::Primitive(p)) =~= static_base_types());
    }
    let r = add_primitives(ts, prims);
    r
}

/// A dynamic type system: local inference, runtime checks, and the dynamic
/// type as its only base type.
pub fn dynamic_typing() -> (t: TypeSystemImpl)
    ensures
        t.base_types@ == seq![prim(PrimitiveType::Dynamic)],
        t.inference_algorithm == InferenceAlgorithm::Local,
        t.safety_guarantees == (TypeSafetyGuarantees {
            null_safety: NullSafety::Partial,
            memory_safety: MemorySafety::RuntimeChecked,
            thread_safety: ThreadSafety::NoThreadSafety,
            exception_safety: ExceptionSafety::Basic,
            runtime_type_checking: true,
            compile_time_type_checking: false,
            type_preservation: false,
            progress_guarantee: false,
        }),
        t.overload_resolution == OverloadResolutionStrategy::MostSpecific,
        no_definitions(t),
{
    let safety_guarantees = TypeSafetyGuarantees {
        null_safety: NullSafety::Partial,
        memory_safety: MemorySafety::RuntimeChecked,
        thread_safety: ThreadSafety::NoThreadSafety,
        exception_safety: ExceptionSafety::Basic,
        runtime_type_checking: true,
        compile_time_type_checking: false,
        type_preservation: false,
        progress_guarantee: false,
    };
    let r = TypeSystemImpl::new(InferenceAlgorithm::Local)
        .with_safety_guarantees(safety_guarantees)
        .add_base_type(Type::Primitive(PrimitiveType::Dynamic));
    proof {
        assert(r.base_types@ =~= seq![prim(PrimitiveType::Dynamic)]);
    }
    r
}

/// A gradual type system: bidirectional inference, checks at compile time
/// and at run time, and signed 32- and 64-bit integers, 64-bit floats,
/// booleans, strings, unit and the dynamic type as base types.
pub fn gradual_typing() -> (t: TypeSystemImpl)
    ensures
        t.base_types@ == gradual_base_types(),
        t.inference_algorithm == InferenceAlgorithm::Bidirectional,
        t.safety_guarantees == (TypeSafetyGuarantees {
            null_safety: NullSafety::Partial,
            memory_safety: MemorySafety::RuntimeChecked,
            thread_safety: ThreadSafety::Partial,
            exception_safety: ExceptionSafety::Basic,
            runtime_type_checking: true,
            compile_time_type_checking: true,
            type_preservation: true,
            progress_guarantee: true,
        }),
        t.overload_resolution == OverloadResolutionStrategy::MostSpecific,
        no_definitions(t),
{
    let safety_guarantees = TypeSafetyGuarantees {
        null_safety: NullSafety::Partial,
        memory_safety: MemorySafety::RuntimeChecked,
        thread_safety: ThreadSafety::Partial,
        exception_safety: ExceptionSafety::Basic,
        runtime_type_checking: true,
        compile_time_type_checking: true,
        type_preservation: true,
        progress_guarantee: true,
    };
    let ts = TypeSystemImpl::new(InferenceAlgorithm::Bidirectional).with_safety_guarantees(safety_guarantees);
    let prims = vec![
        PrimitiveType::Integer { bits: 32, signed: true },
        PrimitiveType::Integer { bits: 64, signed: true },
        PrimitiveType::Float(64),
        PrimitiveType::Boolean,
        PrimitiveType::String,
        PrimitiveType::Unit,
        PrimitiveType::Dynamic,
    ];
    proof {
        assert(prims@.map_values(|p: PrimitiveType| Type::Primitive(p)) =~= gradual_base_types());
    }
    let r = add_primitives(ts, prims);
    r
}

/// A dependent type system: Curry-Howard inference, strict guarantees, no base types.
pub fn dependent_typing() -> (t: TypeSystemImpl)
    ensures
        empty_system(t),
        t.inference_algorithm == InferenceAlgorithm::CurryHoward,
        t.safety_guarantees == strict_guarantees(),
        t.overload_resolution == OverloadResolutionStrategy::MostSpecific,
{
    let safety_guarantees = TypeSafetyGuarantees {
        null_safety: NullSafety::Strict,
        memory_safety: MemorySafety::TypeSystemEnforced,
        thread_safety: ThreadSafety::TypeEnforced,
        exception_safety: ExceptionSafety::CompileTimeChecked,
        runtime_type_checking: false,
        compile_time_type_checking: true,
        type_preservation: true,
        progress_guarantee: true,
    };
    TypeSystemImpl::new(InferenceAlgorithm::CurryHoward).with_safety_guarantees(safety_guarantees)
}

/// A rich type system: constraint-based inference, strict guarantees with
/// runtime checks as well, multiple dispatch, no base types.
pub fn rich_typing() -> (t: TypeSystemImpl)
    ensures
        empty_system(t),
        t.inference_algorithm == InferenceAlgorithm::ConstraintBased,
        t.safety_guarantees == (TypeSafetyGuarantees { runtime_type_checking: true, ..strict_guarantees() }),
        t.overload_resolution == OverloadResolutionStrategy::MultipleDispatch,
{
    let safety_guarantees = TypeSafetyGuarantees {
        null_safety: NullSafety::Strict,
        memory_safety: MemorySafety::TypeSystemEnforced,
        thread_safety: ThreadSafety::TypeEnforced,
        exception_safety: ExceptionSafety::CompileTimeChecked,
        runtime_type_checking: true,
        compile_time_type_checking: true,
        type_preservation: true,
        progress_guarantee: true,
    };
    TypeSystemImpl::new(InferenceAlgorithm::ConstraintBased)
        .with_safety_guarantees(safety_guarantees)
        .with_overload_resolution(OverloadResolutionStrategy::MultipleDispatch)
}

} // verus!
