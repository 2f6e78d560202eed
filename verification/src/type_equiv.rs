//! Structural type equality is an equivalence: reflexive, symmetric and transitive.

use vstd::prelude::*;

use crate::type_system::{
    holds_type, same_constraint, same_constraints, same_kind, same_ty, same_tys, same_variants, with_base_type, Kind, Type,
    TypeConstraint,
};

verus! {

/// Every kind has the structure of itself.
pub proof fn lemma_same_kind_refl(a: Kind)
    ensures
        same_kind(a, a),
    decreases a,
{
    match a {
        Kind::Arrow(x, y) => {
            lemma_same_kind_refl(*x);
            lemma_same_kind_refl(*y);
        },
        _ => {},
    }
}

/// Every type has the structure of itself.
pub proof fn lemma_same_ty_refl(a: Type)
    ensures
        same_ty(a, a),
    decreases a,
{
    match a {
        Type::Generic { base, args } => {
            lemma_same_ty_refl(*base);
            lemma_same_tys_refl(args@);
        },
        Type::Function { params, return_type, effects } => {
            lemma_same_tys_refl(params@);
            lemma_same_ty_refl(*return_type);
        },
        Type::Tuple(x) => lemma_same_tys_refl(x@),
        Type::Array { element, .. } => lemma_same_ty_refl(*element),
        Type::Pointer { pointee, .. } => lemma_same_ty_refl(*pointee),
        Type::Reference { referenced, .. } => lemma_same_ty_refl(*referenced),
        Type::Option(x) => lemma_same_ty_refl(*x),
        Type::Result { ok, err } => {
            lemma_same_ty_refl(*ok);
            lemma_same_ty_refl(*err);
        },
        Type::AlgebraicDataType { variants, .. } => lemma_same_variants_refl(variants@),
        Type::Intersection(x) => lemma_same_tys_refl(x@),
        Type::Union(x) => lemma_same_tys_refl(x@),
        Type::HigherKinded { kind, .. } => lemma_same_kind_refl(kind),
        Type::Dependent { body, .. } => lemma_same_ty_refl(*body),
        Type::Existential { constraint, .. } => lemma_same_constraint_refl(*constraint),
        _ => {},
    }
}

pub proof fn lemma_same_tys_refl(a: Seq<Type>)
    ensures
        same_tys(a, a),
    decreases a,
{
    if a.len() > 0 {
        lemma_same_ty_refl(a[0]);
        lemma_same_tys_refl(a.drop_first());
    }
}

pub proof fn lemma_same_variants_refl(a: Seq<(String, Vec<Type>)>)
    ensures
        same_variants(a, a),
    decreases a,
{
    if a.len() > 0 {
        assert(decreases_to!(a => a[0]));
        lemma_same_tys_refl(a[0].1@);
        lemma_same_variants_refl(a.drop_first());
    }
}

pub proof fn lemma_same_constraint_refl(a: TypeConstraint)
    ensures
        same_constraint(a, a),
    decreases a,
{
    match a {
        TypeConstraint::Subtype { sub, super_ } => {
            lemma_same_ty_refl(sub);
            lemma_same_ty_refl(super_);
        },
        TypeConstraint::Equals(x, y) => {
            lemma_same_ty_refl(x);
            lemma_same_ty_refl(y);
        },
        TypeConstraint::HasTrait { ty, trait_args, .. } => {
            lemma_same_ty_refl(ty);
            lemma_same_tys_refl(trait_args@);
        },
        TypeConstraint::HasMember { ty, member_type, .. } => {
            lemma_same_ty_refl(ty);
            lemma_same_ty_refl(member_type);
        },
        TypeConstraint::TypeOperator { operands, result, .. } => {
            lemma_same_tys_refl(operands@);
            lemma_same_ty_refl(result);
        },
        TypeConstraint::Conjunction(x) => lemma_same_constraints_refl(x@),
        TypeConstraint::Disjunction(x) => lemma_same_constraints_refl(x@),
        TypeConstraint::Negation(x) => lemma_same_constraint_refl(*x),
        TypeConstraint::Implication(x, y) => {
            lemma_same_constraint_refl(*x);
            lemma_same_constraint_refl(*y);
        },
        TypeConstraint::Refinement { base, .. } => lemma_same_ty_refl(base),
    }
}

pub proof fn lemma_same_constraints_refl(a: Seq<TypeConstraint>)
    ensures
        same_constraints(a, a),
    decreases a,
{
    if a.len() > 0 {
        lemma_same_constraint_refl(a[0]);
        lemma_same_constraints_refl(a.drop_first());
    }
}

/// Structural equality of kinds is symmetric.
pub proof fn lemma_same_kind_sym(a: Kind, b: Kind)
    requires
        same_kind(a, b),
    ensures
        same_kind(b, a),
    decreases a,
{
    match (a, b) {
        (Kind::Arrow(x1, x2), Kind::Arrow(y1, y2)) => {
            lemma_same_kind_sym(*x1, *y1);
            lemma_same_kind_sym(*x2, *y2);
        },
        _ => {},
    }
}

/// Structural equality of types is symmetric.
pub proof fn lemma_same_ty_sym(a: Type, b: Type)
    requires
        same_ty(a, b),
    ensures
        same_ty(b, a),
    decreases a,
{
    match (a, b) {
        (Type::Generic { base: b1, args: a1 }, Type::Generic { base: b2, args: a2 }) => {
            lemma_same_ty_sym(*b1, *b2);
            lemma_same_tys_sym(a1@, a2@);
        },
        (Type::Function { params: p1, return_type: r1, .. }, Type::Function { params: p2, return_type: r2, .. }) => {
            lemma_same_tys_sym(p1@, p2@);
            lemma_same_ty_sym(*r1, *r2);
        },
        (Type::Tuple(x), Type::Tuple(y)) => lemma_same_tys_sym(x@, y@),
        (Type::Array { element: x, .. }, Type::Array { element: y, .. }) => lemma_same_ty_sym(*x, *y),
        (Type::Pointer { pointee: x, .. }, Type::Pointer { pointee: y, .. }) => lemma_same_ty_sym(*x, *y),
        (Type::Reference { referenced: x, .. }, Type::Reference { referenced: y, .. }) => lemma_same_ty_sym(*x, *y),
        (Type::Option(x), Type::Option(y)) => lemma_same_ty_sym(*x, *y),
        (Type::Result { ok: o1, err: e1 }, Type::Result { ok: o2, err: e2 }) => {
            lemma_same_ty_sym(*o1, *o2);
            lemma_same_ty_sym(*e1, *e2);
        },
        (Type::AlgebraicDataType { variants: v1, .. }, Type::AlgebraicDataType { variants: v2, .. }) =>
            lemma_same_variants_sym(v1@, v2@),
        (Type::Intersection(x), Type::Intersection(y)) => lemma_same_tys_sym(x@, y@),
        (Type::Union(x), Type::Union(y)) => lemma_same_tys_sym(x@, y@),
        (Type::HigherKinded { kind: k1, .. }, Type::HigherKinded { kind: k2, .. }) => lemma_same_kind_sym(k1, k2),
        (Type::Dependent { body: x, .. }, Type::Dependent { body: y, .. }) => lemma_same_ty_sym(*x, *y),
        (Type::Existential { constraint: x, .. }, Type::Existential { constraint: y, .. }) =>
            lemma_same_constraint_sym(*x, *y),
        _ => {},
    }
}

pub proof fn lemma_same_tys_sym(a: Seq<Type>, b: Seq<Type>)
    requires
        same_tys(a, b),
    ensures
        same_tys(b, a),
    decreases a,
{
    if a.len() > 0 {
        lemma_same_ty_sym(a[0], b[0]);
        lemma_same_tys_sym(a.drop_first(), b.drop_first());
    }
}

pub proof fn lemma_same_variants_sym(a: Seq<(String, Vec<Type>)>, b: Seq<(String, Vec<Type>)>)
    requires
        same_variants(a, b),
    ensures
        same_variants(b, a),
    decreases a,
{
    if a.len() > 0 {
        assert(decreases_to!(a => a[0]));
        lemma_same_tys_sym(a[0].1@, b[0].1@);
        lemma_same_variants_sym(a.drop_first(), b.drop_first());
    }
}

pub proof fn lemma_same_constraint_sym(a: TypeConstraint, b: TypeConstraint)
    requires
        same_constraint(a, b),
    ensures
        same_constraint(b, a),
    decreases a,
{
    match (a, b) {
        (TypeConstraint::Subtype { sub: s1, super_: p1 }, TypeConstraint::Subtype { sub: s2, super_: p2 }) => {
            lemma_same_ty_sym(s1, s2);
            lemma_same_ty_sym(p1, p2);
        },
        (TypeConstraint::Equals(x1, y1), TypeConstraint::Equals(x2, y2)) => {
            lemma_same_ty_sym(x1, x2);
            lemma_same_ty_sym(y1, y2);
        },
        (TypeConstraint::HasTrait { ty: t1, trait_args: a1, .. }, TypeConstraint::HasTrait { ty: t2, trait_args: a2, .. }) => {
            lemma_same_ty_sym(t1, t2);
            lemma_same_tys_sym(a1@, a2@);
        },
        (TypeConstraint::HasMember { ty: t1, member_type: m1, .. }, TypeConstraint::HasMember { ty: t2, member_type: m2, .. }) => {
            lemma_same_ty_sym(t1, t2);
            lemma_same_ty_sym(m1, m2);
        },
        (TypeConstraint::TypeOperator { operands: x1, result: r1, .. }, TypeConstraint::TypeOperator { operands: x2, result: r2, .. }) => {
            lemma_same_tys_sym(x1@, x2@);
            lemma_same_ty_sym(r1, r2);
        },
        (TypeConstraint::Conjunction(x), TypeConstraint::Conjunction(y)) => lemma_same_constraints_sym(x@, y@),
        (TypeConstraint::Disjunction(x), TypeConstraint::Disjunction(y)) => lemma_same_constraints_sym(x@, y@),
        (TypeConstraint::Negation(x), TypeConstraint::Negation(y)) => lemma_same_constraint_sym(*x, *y),
        (TypeConstraint::Implication(x1, y1), TypeConstraint::Implication(x2, y2)) => {
            lemma_same_constraint_sym(*x1, *x2);
            lemma_same_constraint_sym(*y1, *y2);
        },
        (TypeConstraint::Refinement { base: b1, .. }, TypeConstraint::Refinement { base: b2, .. }) => lemma_same_ty_sym(b1, b2),
        _ => {},
    }
}

pub proof fn lemma_same_constraints_sym(a: Seq<TypeConstraint>, b: Seq<TypeConstraint>)
    requires
        same_constraints(a, b),
    ensures
        same_constraints(b, a),
    decreases a,
{
    if a.len() > 0 {
        lemma_same_constraint_sym(a[0], b[0]);
        lemma_same_constraints_sym(a.drop_first(), b.drop_first());
    }
}

/// Structural equality of kinds is transitive.
pub proof fn lemma_same_kind_trans(a: Kind, b: Kind, c: Kind)
    requires
        same_kind(a, b),
        same_kind(b, c),
    ensures
        same_kind(a, c),
    decreases a,
{
    match (a, b, c) {
        (Kind::Arrow(x1, x2), Kind::Arrow(y1, y2), Kind::Arrow(z1, z2)) => {
            lemma_same_kind_trans(*x1, *y1, *z1);
            lemma_same_kind_trans(*x2, *y2, *z2);
        },
        _ => {},
    }
}

/// Structural equality of types is transitive.
pub proof fn lemma_same_ty_trans(a: Type, b: Type, c: Type)
    requires
        same_ty(a, b),
        same_ty(b, c),
    ensures
        same_ty(a, c),
    decreases a,
{
    match (a, b, c) {
        (Type::Generic { base: b1, args: a1 }, Type::Generic { base: b2, args: a2 }, Type::Generic { base: b3, args: a3 }) => {
            lemma_same_ty_trans(*b1, *b2, *b3);
            lemma_same_tys_trans(a1@, a2@, a3@);
        },
        (
            Type::Function { params: p1, return_type: r1, .. },
            Type::Function { params: p2, return_type: r2, .. },
            Type::Function { params: p3, return_type: r3, .. },
        ) => {
            lemma_same_tys_trans(p1@, p2@, p3@);
            lemma_same_ty_trans(*r1, *r2, *r3);
        },
        (Type::Tuple(x), Type::Tuple(y), Type::Tuple(z)) => lemma_same_tys_trans(x@, y@, z@),
        (Type::Array { element: x, .. }, Type::Array { element: y, .. }, Type::Array { element: z, .. }) =>
            lemma_same_ty_trans(*x, *y, *z),
        (Type::Pointer { pointee: x, .. }, Type::Pointer { pointee: y, .. }, Type::Pointer { pointee: z, .. }) =>
            lemma_same_ty_trans(*x, *y, *z),
        (
            Type::Reference { referenced: x, .. },
            Type::Reference { referenced: y, .. },
            Type::Reference { referenced: z, .. },
        ) => lemma_same_ty_trans(*x, *y, *z),
        (Type::Option(x), Type::Option(y), Type::Option(z)) => lemma_same_ty_trans(*x, *y, *z),
        (Type::Result { ok: o1, err: e1 }, Type::Result { ok: o2, err: e2 }, Type::Result { ok: o3, err: e3 }) => {
            lemma_same_ty_trans(*o1, *o2, *o3);
            lemma_same_ty_trans(*e1, *e2, *e3);
        },
        (
            Type::AlgebraicDataType { variants: v1, .. },
            Type::AlgebraicDataType { variants: v2, .. },
            Type::AlgebraicDataType { variants: v3, .. },
        ) => lemma_same_variants_trans(v1@, v2@, v3@),
        (Type::Intersection(x), Type::Intersection(y), Type::Intersection(z)) => lemma_same_tys_trans(x@, y@, z@),
        (Type::Union(x), Type::Union(y), Type::Union(z)) => lemma_same_tys_trans(x@, y@, z@),
        (
            Type::HigherKinded { kind: k1, .. },
            Type::HigherKinded { kind: k2, .. },
            Type::HigherKinded { kind: k3, .. },
        ) => lemma_same_kind_trans(k1, k2, k3),
        (Type::Dependent { body: x, .. }, Type::Dependent { body: y, .. }, Type::Dependent { body: z, .. }) =>
            lemma_same_ty_trans(*x, *y, *z),
        (
            Type::Existential { constraint: x, .. },
            Type::Existential { constraint: y, .. },
            Type::Existential { constraint: z, .. },
        ) => lemma_same_constraint_trans(*x, *y, *z),
        _ => {},
    }
}

pub proof fn lemma_same_tys_trans(a: Seq<Type>, b: Seq<Type>, c: Seq<Type>)
    requires
        same_tys(a, b),
        same_tys(b, c),
    ensures
        same_tys(a, c),
    decreases a,
{
    if a.len() > 0 {
        lemma_same_ty_trans(a[0], b[0], c[0]);
        lemma_same_tys_trans(a.drop_first(), b.drop_first(), c.drop_first());
    }
}

pub proof fn lemma_same_variants_trans(a: Seq<(String, Vec<Type>)>, b: Seq<(String, Vec<Type>)>, c: Seq<(String, Vec<Type>)>)
    requires
        same_variants(a, b),
        same_variants(b, c),
    ensures
        same_variants(a, c),
    decreases a,
{
    if a.len() > 0 {
        assert(decreases_to!(a => a[0]));
        lemma_same_tys_trans(a[0].1@, b[0].1@, c[0].1@);
        lemma_same_variants_trans(a.drop_first(), b.drop_first(), c.drop_first());
    }
}

pub proof fn lemma_same_constraint_trans(a: TypeConstraint, b: TypeConstraint, c: TypeConstraint)
    requires
        same_constraint(a, b),
        same_constraint(b, c),
    ensures
        same_constraint(a, c),
    decreases a,
{
    match (a, b, c) {
        (
            TypeConstraint::Subtype { sub: s1, super_: p1 },
            TypeConstraint::Subtype { sub: s2, super_: p2 },
            TypeConstraint::Subtype { sub: s3, super_: p3 },
        ) => {
            lemma_same_ty_trans(s1, s2, s3);
            lemma_same_ty_trans(p1, p2, p3);
        },
        (TypeConstraint::Equals(x1, y1), TypeConstraint::Equals(x2, y2), TypeConstraint::Equals(x3, y3)) => {
            lemma_same_ty_trans(x1, x2, x3);
            lemma_same_ty_trans(y1, y2, y3);
        },
        (
            TypeConstraint::HasTrait { ty: t1, trait_args: a1, .. },
            TypeConstraint::HasTrait { ty: t2, trait_args: a2, .. },
            TypeConstraint::HasTrait { ty: t3, trait_args: a3, .. },
        ) => {
            lemma_same_ty_trans(t1, t2, t3);
            lemma_same_tys_trans(a1@, a2@, a3@);
        },
        (
            TypeConstraint::HasMember { ty: t1, member_type: m1, .. },
            TypeConstraint::HasMember { ty: t2, member_type: m2, .. },
            TypeConstraint::HasMember { ty: t3, member_type: m3, .. },
        ) => {
            lemma_same_ty_trans(t1, t2, t3);
            lemma_same_ty_trans(m1, m2, m3);
        },
        (
            TypeConstraint::TypeOperator { operands: x1, result: r1, .. },
            TypeConstraint::TypeOperator { operands: x2, result: r2, .. },
            TypeConstraint::TypeOperator { operands: x3, result: r3, .. },
        ) => {
            lemma_same_tys_trans(x1@, x2@, x3@);
            lemma_same_ty_trans(r1, r2, r3);
        },
        (TypeConstraint::Conjunction(x), TypeConstraint::Conjunction(y), TypeConstraint::Conjunction(z)) =>
            lemma_same_constraints_trans(x@, y@, z@),
        (TypeConstraint::Disjunction(x), TypeConstraint::Disjunction(y), TypeConstraint::Disjunction(z)) =>
            lemma_same_constraints_trans(x@, y@, z@),
        (TypeConstraint::Negation(x), TypeConstraint::Negation(y), TypeConstraint::Negation(z)) =>
            lemma_same_constraint_trans(*x, *y, *z),
        (
            TypeConstraint::Implication(x1, y1),
            TypeConstraint::Implication(x2, y2),
            TypeConstraint::Implication(x3, y3),
        ) => {
            lemma_same_constraint_trans(*x1, *x2, *x3);
            lemma_same_constraint_trans(*y1, *y2, *y3);
        },
        (
            TypeConstraint::Refinement { base: b1, .. },
            TypeConstraint::Refinement { base: b2, .. },
            TypeConstraint::Refinement { base: b3, .. },
        ) => lemma_same_ty_trans(b1, b2, b3),
        _ => {},
    }
}

pub proof fn lemma_same_constraints_trans(a: Seq<TypeConstraint>, b: Seq<TypeConstraint>, c: Seq<TypeConstraint>)
    requires
        same_constraints(a, b),
        same_constraints(b, c),
    ensures
        same_constraints(a, c),
    decreases a,
{
    if a.len() > 0 {
        lemma_same_constraint_trans(a[0], b[0], c[0]);
        lemma_same_constraints_trans(a.drop_first(), b.drop_first(), c.drop_first());
    }
}

/// A type is held after adding `t` exactly when it was held before or has
/// the structure of `t`.
pub proof fn lemma_held_after_adding(s: Seq<Type>, t: Type, x: Type)
    ensures
        holds_type(with_base_type(s, t), x) <==> holds_type(s, x) || same_ty(t, x),
{
    if holds_type(s, t) {
        if same_ty(t, x) {
            let i = choose|i: int| 0 <= i < s.len() && same_ty(#[trigger] s[i], t);
            lemma_same_ty_trans(s[i], t, x);
        }
    } else {
        let p = s.push(t);
        if holds_type(p, x) {
            let i = choose|i: int| 0 <= i < p.len() && same_ty(#[trigger] p[i], x);
            if i < s.len() {
                assert(s[i] == p[i]);
            }
        }
        if holds_type(s, x) {
            let i = choose|i: int| 0 <= i < s.len() && same_ty(#[trigger] s[i], x);
            assert(p[i] == s[i]);
        }
        if same_ty(t, x) {
            assert(p[s.len() as int] == t);
        }
    }
}

/// Adding a base type is idempotent: adding it a second time changes nothing.
pub proof fn lemma_add_base_type_idempotent(s: Seq<Type>, t: Type)
    ensures
        with_base_type(with_base_type(s, t), t) == with_base_type(s, t),
{
    lemma_same_ty_refl(t);
    lemma_held_after_adding(s, t, t);
}

/// The order in which two base types are added does not matter: the same
/// types are held, up to structure, either way.
pub proof fn lemma_add_base_types_commute(s: Seq<Type>, a: Type, b: Type)
    ensures
        forall|x: Type|
            holds_type(with_base_type(with_base_type(s, a), b), x) <==> #[trigger] holds_type(
                with_base_type(with_base_type(s, b), a),
                x,
            ),
{
    assert forall|x: Type|
        holds_type(with_base_type(with_base_type(s, a), b), x) <==> #[trigger] holds_type(
            with_base_type(with_base_type(s, b), a),
            x,
        ) by {
        lemma_held_after_adding(s, a, x);
        lemma_held_after_adding(with_base_type(s, a), b, x);
        lemma_held_after_adding(s, b, x);
        lemma_held_after_adding(with_base_type(s, b), a, x);
    }
}

} // verus!
