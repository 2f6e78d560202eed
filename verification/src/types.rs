use vstd::prelude::*;

use crate::assoc::{AssocMap, MapKey};
use crate::symbol::SymbolId;
use crate::util::{append_str, decimal, push_decimal, string_of};

verus! {

/// Identifier of a type.
#[derive(Debug, Clone, Copy, PartialEq, Eq, Hash, Structural)]
pub struct TypeId(pub usize);

impl TypeId {
    /// Display form, `Type(n)`.
    pub fn to_string(&self) -> (r: String)
        ensures
            r@ == "Type("@ + decimal(self.0 as nat) + ")"@,
    {
        let mut s = string_of("Type(");
        push_decimal(&mut s, self.0);
        append_str(&mut s, ")");
        s
    }
}

impl MapKey for TypeId {
    type KV = usize;

    open spec fn key_view(&self) -> usize {
        self.0
    }

    fn key_eq(&self, other: &Self) -> (r: bool) {
        self.0 == other.0
    }

    fn key_clone(&self) -> (r: Self) {
        *self
    }
}

impl MapKey for SymbolId {
    type KV = usize;

    open spec fn key_view(&self) -> usize {
        self.0
    }

    fn key_eq(&self, other: &Self) -> (r: bool) {
        self.0 == other.0
    }

    fn key_clone(&self) -> (r: Self) {
        *self
    }
}

/// Hands out type ids: each id once, in increasing order.
#[derive(Debug)]
pub struct TypeIdSource {
    next: usize,
}

impl TypeIdSource {
    /// The id that the next call of `fresh` returns.
    pub closed spec fn next_id(&self) -> nat {
        self.next as nat
    }

    /// A source whose first id is 0.
    pub fn new() -> (s: Self)
        ensures
            s.next_id() == 0,
    {
        TypeIdSource { next: 0 }
    }

    /// A new id, larger than every id handed out before.
    pub fn fresh(&mut self) -> (id: TypeId)
        requires
            old(self).next_id() < usize::MAX,
        ensures
            id.0 == old(self).next_id(),
            final(self).next_id() == old(self).next_id() + 1,
    {
        let id = TypeId(self.next);
        self.next = self.next + 1;
        id
    }
}

/// A type parameter and its constraints.
#[derive(Debug, PartialEq, Eq)]
pub struct TypeParam {
    pub name: String,
    pub constraints: Vec<Type>,
}

/// The shapes a type can have.
///
/// A DSL type is identified by its name and the DSL that defines it.
#[derive(Debug, PartialEq, Eq)]
pub enum TypeKind {
    Unit,
    Bool,
    Int,
    Float,
    Char,
    String,
    Array(Box<Type>),
    Tuple(Vec<Type>),
    Function { params: Vec<Type>, return_type: Box<Type> },
    Struct { name: String, fields: Vec<StructField>, type_params: Vec<TypeParam> },
    Enum { name: String, variants: Vec<EnumVariant>, type_params: Vec<TypeParam> },
    TypeRef { name: String, symbol: Option<SymbolId> },
    TypeParam { name: String },
    DSLType { name: String, dsl_name: String },
    Unknown,
    Error,
}

/// A type: an id and a shape.
#[derive(Debug, PartialEq, Eq)]
pub struct Type {
    pub id: TypeId,
    pub kind: TypeKind,
}

/// A field of a struct type.
#[derive(Debug, PartialEq, Eq)]
pub struct StructField {
    pub name: String,
    pub field_type: Type,
}

/// A variant of an enum type.
#[derive(Debug, PartialEq, Eq)]
pub struct EnumVariant {
    pub name: String,
    pub payload: Option<EnumVariantPayload>,
}

/// The data a variant carries.
#[derive(Debug, PartialEq, Eq)]
pub enum EnumVariantPayload {
    Tuple(Vec<Type>),
    Struct(Vec<StructField>),
}

impl Type {
    /// A type with the given shape and the next id of `ids`.
    pub fn new(kind: TypeKind, ids: &mut TypeIdSource) -> (t: Self)
        requires
            old(ids).next_id() < usize::MAX,
        ensures
            t.id.0 == old(ids).next_id(),
            t.kind == kind,
            final(ids).next_id() == old(ids).next_id() + 1,
    {
        let id = ids.fresh();
        Self { id, kind }
    }

    pub fn unit(ids: &mut TypeIdSource) -> (t: Self)
        requires old(ids).next_id() < usize::MAX,
        ensures
            t.id.0 == old(ids).next_id(),
            t.kind == TypeKind::Unit,
            final(ids).next_id() == old(ids).next_id() + 1,
    {
        Self::new(TypeKind::Unit, ids)
    }

    pub fn bool(ids: &mut TypeIdSource) -> (t: Self)
        requires old(ids).next_id() < usize::MAX,
        ensures
            t.id.0 == old(ids).next_id(),
            t.kind == TypeKind::Bool,
            final(ids).next_id() == old(ids).next_id() + 1,
    {
        Self::new(TypeKind::Bool, ids)
    }

    pub fn integer(ids: &mut TypeIdSource) -> (t: Self)
        requires old(ids).next_id() < usize::MAX,
        ensures
            t.id.0 == old(ids).next_id(),
            t.kind == TypeKind::Int,
            final(ids).next_id() == old(ids).next_id() + 1,
    {
        Self::new(TypeKind::Int, ids)
    }

    pub fn float(ids: &mut TypeIdSource) -> (t: Self)
        requires old(ids).next_id() < usize::MAX,
        ensures
            t.id.0 == old(ids).next_id(),
            t.kind == TypeKind::Float,
            final(ids).next_id() == old(ids).next_id() + 1,
    {
        Self::new(TypeKind::Float, ids)
    }

    pub fn char(ids: &mut TypeIdSource) -> (t: Self)
        requires old(ids).next_id() < usize::MAX,
        ensures
            t.id.0 == old(ids).next_id(),
            t.kind == TypeKind::Char,
            final(ids).next_id() == old(ids).next_id() + 1,
    {
        Self::new(TypeKind::Char, ids)
    }

    pub fn string(ids: &mut TypeIdSource) -> (t: Self)
        requires old(ids).next_id() < usize::MAX,
        ensures
            t.id.0 == old(ids).next_id(),
            t.kind == TypeKind::String,
            final(ids).next_id() == old(ids).next_id() + 1,
    {
        Self::new(TypeKind::String, ids)
    }

    pub fn array(element_type: Type, ids: &mut TypeIdSource) -> (t: Self)
        requires old(ids).next_id() < usize::MAX,
        ensures
            t.id.0 == old(ids).next_id(),
            t.kind == TypeKind::Array(Box::new(element_type)),
            final(ids).next_id() == old(ids).next_id() + 1,
    {
        Self::new(TypeKind::Array(Box::new(element_type)), ids)
    }

    pub fn tuple(element_types: Vec<Type>, ids: &mut TypeIdSource) -> (t: Self)
        requires old(ids).next_id() < usize::MAX,
        ensures
            t.id.0 == old(ids).next_id(),
            t.kind == TypeKind::Tuple(element_types),
            final(ids).next_id() == old(ids).next_id() + 1,
    {
        Self::new(TypeKind::Tuple(element_types), ids)
    }

    pub fn function(params: Vec<Type>, return_type: Type, ids: &mut TypeIdSource) -> (t: Self)
        requires old(ids).next_id() < usize::MAX,
        ensures
            t.id.0 == old(ids).next_id(),
            t.kind == (TypeKind::Function { params, return_type: Box::new(return_type) }),
            final(ids).next_id() == old(ids).next_id() + 1,
    {
        Self::new(TypeKind::Function { params, return_type: Box::new(return_type) }, ids)
    }

    pub fn type_ref(name: String, ids: &mut TypeIdSource) -> (t: Self)
        requires old(ids).next_id() < usize::MAX,
        ensures
            t.id.0 == old(ids).next_id(),
            t.kind == (TypeKind::TypeRef { name, symbol: None }),
            final(ids).next_id() == old(ids).next_id() + 1,
    {
        Self::new(TypeKind::TypeRef { name, symbol: None }, ids)
    }

    pub fn unknown(ids: &mut TypeIdSource) -> (t: Self)
        requires old(ids).next_id() < usize::MAX,
        ensures
            t.id.0 == old(ids).next_id(),
            t.kind == TypeKind::Unknown,
            final(ids).next_id() == old(ids).next_id() + 1,
    {
        Self::new(TypeKind::Unknown, ids)
    }

    pub fn error(ids: &mut TypeIdSource) -> (t: Self)
        requires old(ids).next_id() < usize::MAX,
        ensures
            t.id.0 == old(ids).next_id(),
            t.kind == TypeKind::Error,
            final(ids).next_id() == old(ids).next_id() + 1,
    {
        Self::new(TypeKind::Error, ids)
    }
}

/// What the type checker sees of a type: its structure, with struct, enum and
/// named types identified by their names, and without ids.
pub enum Shape {
    Unit,
    Bool,
    Int,
    Float,
    Char,
    Str,
    Array(Box<Shape>),
    Tuple(Seq<Shape>),
    Function(Seq<Shape>, Box<Shape>),
    Named(Seq<char>),
    Param(Seq<char>),
    Dsl(Seq<char>, Seq<char>),
    Unknown,
    Error,
}

/// The shape of a type.
pub open spec fn shape(t: Type) -> Shape
    decreases t,
{
    match t.kind {
        TypeKind::Unit => Shape::Unit,
        TypeKind::Bool => Shape::Bool,
        TypeKind::Int => Shape::Int,
        TypeKind::Float => Shape::Float,
        TypeKind::Char => Shape::Char,
        TypeKind::String => Shape::Str,
        TypeKind::Array(e) => Shape::Array(Box::new(shape(*e))),
        TypeKind::Tuple(ts) => Shape::Tuple(shapes(ts@)),
        TypeKind::Function { params, return_type } => Shape::Function(shapes(params@), Box::new(shape(*return_type))),
        TypeKind::Struct { name, .. } => Shape::Named(name@),
        TypeKind::Enum { name, .. } => Shape::Named(name@),
        TypeKind::TypeRef { name, .. } => Shape::Named(name@),
        TypeKind::TypeParam { name } => Shape::Param(name@),
        TypeKind::DSLType { name, dsl_name } => Shape::Dsl(name@, dsl_name@),
        TypeKind::Unknown => Shape::Unknown,
        TypeKind::Error => Shape::Error,
    }
}

/// The shapes of a list of types, in order.
pub open spec fn shapes(ts: Seq<Type>) -> Seq<Shape>
    decreases ts,
{
    if ts.len() == 0 {
        seq![]
    } else {
        seq![shape(ts[0])] + shapes(ts.drop_first())
    }
}

pub proof fn lemma_shapes_len(ts: Seq<Type>)
    ensures
        shapes(ts).len() == ts.len(),
    decreases ts.len(),
{
    if ts.len() > 0 {
        lemma_shapes_len(ts.drop_first());
    }
}

/// The shapes of a list of types are those of its elements.
pub proof fn lemma_shapes_index(ts: Seq<Type>, i: int)
    requires
        0 <= i < ts.len(),
    ensures
        shapes(ts).len() == ts.len(),
        shapes(ts)[i] == shape(ts[i]),
    decreases ts.len(),
{
    lemma_shapes_len(ts);
    if i > 0 {
        lemma_shapes_index(ts.drop_first(), i - 1);
    }
}

/// Two lists of types have equal shapes when their elements do.
pub proof fn lemma_shapes_eq(a: Seq<Type>, b: Seq<Type>)
    ensures
        (shapes(a) == shapes(b)) <==> (a.len() == b.len() && forall|i: int| 0 <= i < a.len() ==> shape(#[trigger] a[i]) == shape(b[i])),
{
    lemma_shapes_len(a);
    lemma_shapes_len(b);
    if shapes(a) == shapes(b) {
        assert forall|i: int| 0 <= i < a.len() implies shape(#[trigger] a[i]) == shape(b[i]) by {
            lemma_shapes_index(a, i);
            lemma_shapes_index(b, i);
        }
    }
    if a.len() == b.len() && forall|i: int| 0 <= i < a.len() ==> shape(#[trigger] a[i]) == shape(b[i]) {
        assert forall|i: int| 0 <= i < a.len() implies shapes(a)[i] == shapes(b)[i] by {
            lemma_shapes_index(a, i);
            lemma_shapes_index(b, i);
        }
        assert(shapes(a) =~= shapes(b));
    }
}

/// Appending a type appends its shape.
pub proof fn lemma_shapes_push(ts: Seq<Type>, t: Type)
    ensures
        shapes(ts.push(t)) == shapes(ts).push(shape(t)),
{
    let a = shapes(ts.push(t));
    let b = shapes(ts).push(shape(t));
    lemma_shapes_len(ts.push(t));
    lemma_shapes_len(ts);
    assert forall|j: int| 0 <= j < a.len() implies a[j] == b[j] by {
        lemma_shapes_index(ts.push(t), j);
        if j < ts.len() {
            lemma_shapes_index(ts, j);
        }
    }
    assert(a =~= b);
}

/// Whether two types have the same shape.
pub fn same_shape(a: &Type, b: &Type) -> (r: bool)
    ensures
        r == (shape(*a) == shape(*b)),
    decreases a,
{
    match (&a.kind, &b.kind) {
        (TypeKind::Unit, TypeKind::Unit) => true,
        (TypeKind::Bool, TypeKind::Bool) => true,
        (TypeKind::Int, TypeKind::Int) => true,
        (TypeKind::Float, TypeKind::Float) => true,
        (TypeKind::Char, TypeKind::Char) => true,
        (TypeKind::String, TypeKind::String) => true,
        (TypeKind::Array(x), TypeKind::Array(y)) => same_shape(x, y),
        (TypeKind::Tuple(x), TypeKind::Tuple(y)) => same_shapes(x, y),
        (TypeKind::Function { params: p1, return_type: r1 }, TypeKind::Function { params: p2, return_type: r2 }) =>
            same_shapes(p1, p2) && same_shape(r1, r2),
        (TypeKind::TypeParam { name: x }, TypeKind::TypeParam { name: y }) => *x == *y,
        (TypeKind::DSLType { name: n1, dsl_name: d1 }, TypeKind::DSLType { name: n2, dsl_name: d2 }) =>
            *n1 == *n2 && *d1 == *d2,
        (TypeKind::Unknown, TypeKind::Unknown) => true,
        (TypeKind::Error, TypeKind::Error) => true,
        _ => {
            match (named_of(a), named_of(b)) {
                (Some(x), Some(y)) => *x == *y,
                _ => false,
            }
        },
    }
}

/// The name of a struct, enum or named type.
fn named_of(t: &Type) -> (r: Option<&String>)
    ensures
        r matches Some(n) ==> shape(*t) == Shape::Named(n@),
        r is None ==> !(shape(*t) is Named),
{
    match &t.kind {
        TypeKind::Struct { name, .. } => Some(name),
        TypeKind::Enum { name, .. } => Some(name),
        TypeKind::TypeRef { name, .. } => Some(name),
        _ => None,
    }
}

/// Whether two lists of types have the same shapes.
pub fn same_shapes(a: &Vec<Type>, b: &Vec<Type>) -> (r: bool)
    ensures
        r == (shapes(a@) == shapes(b@)),
    decreases a,
{
    proof {
        lemma_shapes_eq(a@, b@);
    }
    if a.len() != b.len() {
        return false;
    }
    let mut i: usize = 0;
    while i < a.len()
        invariant
            a@.len() == b@.len(),
            i <= a@.len(),
            forall|j: int| 0 <= j < i ==> shape(#[trigger] a@[j]) == shape(b@[j]),
        decreases a@.len() - i,
    {
        proof {
            assert(decreases_to!(a => a@));
            assert(decreases_to!(a@ => a@[i as int]));
        }
        if !same_shape(&a[i], &b[i]) {
            proof {
                lemma_shapes_eq(a@, b@);
            }
            return false;
        }
        i = i + 1;
    }
    true
}

/// Whether two types are the same: the same ids, shapes, names and parts
/// throughout.
pub open spec fn same_type(a: Type, b: Type) -> bool
    decreases a,
{
    &&& a.id == b.id
    &&& match (a.kind, b.kind) {
        (TypeKind::Unit, TypeKind::Unit) => true,
        (TypeKind::Bool, TypeKind::Bool) => true,
        (TypeKind::Int, TypeKind::Int) => true,
        (TypeKind::Float, TypeKind::Float) => true,
        (TypeKind::Char, TypeKind::Char) => true,
        (TypeKind::String, TypeKind::String) => true,
        (TypeKind::Array(x), TypeKind::Array(y)) => same_type(*x, *y),
        (TypeKind::Tuple(x), TypeKind::Tuple(y)) => same_types(x@, y@),
        (TypeKind::Function { params: p1, return_type: r1 }, TypeKind::Function { params: p2, return_type: r2 }) =>
            same_types(p1@, p2@) && same_type(*r1, *r2),
        (TypeKind::Struct { name: n1, fields: f1, type_params: t1 }, TypeKind::Struct { name: n2, fields: f2, type_params: t2 }) =>
            n1@ == n2@ && same_fields(f1@, f2@) && same_params(t1@, t2@),
        (TypeKind::Enum { name: n1, variants: v1, type_params: t1 }, TypeKind::Enum { name: n2, variants: v2, type_params: t2 }) =>
            n1@ == n2@ && same_variants(v1@, v2@) && same_params(t1@, t2@),
        (TypeKind::TypeRef { name: n1, symbol: s1 }, TypeKind::TypeRef { name: n2, symbol: s2 }) => n1@ == n2@ && s1 == s2,
        (TypeKind::TypeParam { name: n1 }, TypeKind::TypeParam { name: n2 }) => n1@ == n2@,
        (TypeKind::DSLType { name: n1, dsl_name: d1 }, TypeKind::DSLType { name: n2, dsl_name: d2 }) => n1@ == n2@ && d1@ == d2@,
        (TypeKind::Unknown, TypeKind::Unknown) => true,
        (TypeKind::Error, TypeKind::Error) => true,
        _ => false,
    }
}

/// Whether two lists of types are the same, element by element.
pub open spec fn same_types(a: Seq<Type>, b: Seq<Type>) -> bool
    decreases a,
{
    &&& a.len() == b.len()
    &&& (a.len() > 0 ==> same_type(a[0], b[0]) && same_types(a.drop_first(), b.drop_first()))
}

/// Whether two lists of struct fields are the same, element by element.
pub open spec fn same_fields(a: Seq<StructField>, b: Seq<StructField>) -> bool
    decreases a,
{
    &&& a.len() == b.len()
    &&& (a.len() > 0 ==> a[0].name@ == b[0].name@ && same_type(a[0].field_type, b[0].field_type)
        && same_fields(a.drop_first(), b.drop_first()))
}

/// Whether two lists of type parameters are the same, element by element.
pub open spec fn same_params(a: Seq<TypeParam>, b: Seq<TypeParam>) -> bool
    decreases a,
{
    &&& a.len() == b.len()
    &&& (a.len() > 0 ==> a[0].name@ == b[0].name@ && same_types(a[0].constraints@, b[0].constraints@)
        && same_params(a.drop_first(), b.drop_first()))
}

/// Whether two lists of enum variants are the same, element by element.
pub open spec fn same_variants(a: Seq<EnumVariant>, b: Seq<EnumVariant>) -> bool
    decreases a,
{
    &&& a.len() == b.len()
    &&& (a.len() > 0 ==> a[0].name@ == b[0].name@ && match (a[0].payload, b[0].payload) {
        (None, None) => true,
        (Some(EnumVariantPayload::Tuple(x)), Some(EnumVariantPayload::Tuple(y))) => same_types(x@, y@),
        (Some(EnumVariantPayload::Struct(x)), Some(EnumVariantPayload::Struct(y))) => same_fields(x@, y@),
        _ => false,
    } && same_variants(a.drop_first(), b.drop_first()))
}

proof fn lemma_same_types_from_elements(a: Seq<Type>, b: Seq<Type>)
    requires
        a.len() == b.len(),
        forall|i: int| 0 <= i < a.len() ==> same_type(#[trigger] a[i], b[i]),
    ensures
        same_types(a, b),
    decreases a.len(),
{
    if a.len() > 0 {
        assert(same_type(a[0], b[0]));
        assert forall|i: int| 0 <= i < a.drop_first().len() implies same_type(#[trigger] a.drop_first()[i], b.drop_first()[i]) by {
            assert(same_type(a[i + 1], b[i + 1]));
        }
        lemma_same_types_from_elements(a.drop_first(), b.drop_first());
    }
}

proof fn lemma_same_fields_from_elements(a: Seq<StructField>, b: Seq<StructField>)
    requires
        a.len() == b.len(),
        forall|i: int| 0 <= i < a.len() ==> (#[trigger] a[i]).name@ == b[i].name@ && same_type(a[i].field_type, b[i].field_type),
    ensures
        same_fields(a, b),
    decreases a.len(),
{
    if a.len() > 0 {
        assert(a[0].name@ == b[0].name@);
        assert forall|i: int| 0 <= i < a.drop_first().len() implies (#[trigger] a.drop_first()[i]).name@ == b.drop_first()[i].name@
            && same_type(a.drop_first()[i].field_type, b.drop_first()[i].field_type) by {
            assert(a[i + 1].name@ == b[i + 1].name@);
        }
        lemma_same_fields_from_elements(a.drop_first(), b.drop_first());
    }
}

proof fn lemma_same_params_from_elements(a: Seq<TypeParam>, b: Seq<TypeParam>)
    requires
        a.len() == b.len(),
        forall|i: int| 0 <= i < a.len() ==> (#[trigger] a[i]).name@ == b[i].name@ && same_types(a[i].constraints@, b[i].constraints@),
    ensures
        same_params(a, b),
    decreases a.len(),
{
    if a.len() > 0 {
        assert(a[0].name@ == b[0].name@);
        assert forall|i: int| 0 <= i < a.drop_first().len() implies (#[trigger] a.drop_first()[i]).name@ == b.drop_first()[i].name@
            && same_types(a.drop_first()[i].constraints@, b.drop_first()[i].constraints@) by {
            assert(a[i + 1].name@ == b[i + 1].name@);
        }
        lemma_same_params_from_elements(a.drop_first(), b.drop_first());
    }
}

/// Whether two variants are the same.
pub open spec fn same_variant(a: EnumVariant, b: EnumVariant) -> bool {
    a.name@ == b.name@ && match (a.payload, b.payload) {
        (None, None) => true,
        (Some(EnumVariantPayload::Tuple(x)), Some(EnumVariantPayload::Tuple(y))) => same_types(x@, y@),
        (Some(EnumVariantPayload::Struct(x)), Some(EnumVariantPayload::Struct(y))) => same_fields(x@, y@),
        _ => false,
    }
}

proof fn lemma_same_variants_from_elements(a: Seq<EnumVariant>, b: Seq<EnumVariant>)
    requires
        a.len() == b.len(),
        forall|i: int| 0 <= i < a.len() ==> same_variant(#[trigger] a[i], b[i]),
    ensures
        same_variants(a, b),
    decreases a.len(),
{
    if a.len() > 0 {
        assert(same_variant(a[0], b[0]));
        assert forall|i: int| 0 <= i < a.drop_first().len() implies same_variant(#[trigger] a.drop_first()[i], b.drop_first()[i]) by {
            assert(same_variant(a[i + 1], b[i + 1]));
        }
        lemma_same_variants_from_elements(a.drop_first(), b.drop_first());
    }
}

impl Type {
    /// The display text of this type.
    pub fn to_string(&self) -> (r: String)
        ensures
            r@ == shape_text(shape(*self)),
    {
        type_text(self)
    }

    /// A copy of this type.
    pub fn duplicate(&self) -> (r: Type)
        ensures
            same_type(r, *self),
            r.id == self.id,
            shape(r) == shape(*self),
        decreases self,
    {
        let kind = match &self.kind {
            TypeKind::Unit => TypeKind::Unit,
            TypeKind::Bool => TypeKind::Bool,
            TypeKind::Int => TypeKind::Int,
            TypeKind::Float => TypeKind::Float,
            TypeKind::Char => TypeKind::Char,
            TypeKind::String => TypeKind::String,
            TypeKind::Array(e) => TypeKind::Array(Box::new(e.duplicate())),
            TypeKind::Tuple(ts) => TypeKind::Tuple(duplicate_types(ts)),
            TypeKind::Function { params, return_type } =>
                TypeKind::Function { params: duplicate_types(params), return_type: Box::new(return_type.duplicate()) },
            TypeKind::Struct { name, fields, type_params } =>
                TypeKind::Struct { name: name.clone(), fields: duplicate_fields(fields), type_params: duplicate_params(type_params) },
            TypeKind::Enum { name, variants, type_params } =>
                TypeKind::Enum { name: name.clone(), variants: duplicate_variants(variants), type_params: duplicate_params(type_params) },
            TypeKind::TypeRef { name, symbol } => TypeKind::TypeRef { name: name.clone(), symbol: *symbol },
            TypeKind::TypeParam { name } => TypeKind::TypeParam { name: name.clone() },
            TypeKind::DSLType { name, dsl_name } => TypeKind::DSLType { name: name.clone(), dsl_name: dsl_name.clone() },
            TypeKind::Unknown => TypeKind::Unknown,
            TypeKind::Error => TypeKind::Error,
        };
        Type { id: self.id, kind }
    }
}

/// Copies of a list of types, in order.
pub fn duplicate_types(ts: &Vec<Type>) -> (r: Vec<Type>)
    ensures
        same_types(r@, ts@),
        r@.len() == ts@.len(),
        forall|i: int| 0 <= i < ts@.len() ==> (#[trigger] r@[i]).id == ts@[i].id && shape(r@[i]) == shape(ts@[i]),
        shapes(r@) == shapes(ts@),
    decreases ts,
{
    let mut r: Vec<Type> = Vec::new();
    let mut i: usize = 0;
    while i < ts.len()
        invariant
            i <= ts@.len(),
            r@.len() == i,
            forall|j: int| 0 <= j < i ==> (#[trigger] r@[j]).id == ts@[j].id && shape(r@[j]) == shape(ts@[j])
                && same_type(r@[j], ts@[j]),
        decreases ts@.len() - i,
    {
        proof {
            assert(decreases_to!(ts => ts@));
            assert(decreases_to!(ts@ => ts@[i as int]));
        }
        r.push(ts[i].duplicate());
        i = i + 1;
    }
    proof {
        lemma_shapes_eq(r@, ts@);
        lemma_same_types_from_elements(r@, ts@);
    }
    r
}

/// Copies of a list of struct fields, in order.
fn duplicate_fields(fs: &Vec<StructField>) -> (r: Vec<StructField>)
    ensures
        same_fields(r@, fs@),
    decreases fs,
{
    let mut r: Vec<StructField> = Vec::new();
    let mut i: usize = 0;
    while i < fs.len()
        invariant
            i <= fs@.len(),
            r@.len() == i,
            forall|j: int| 0 <= j < i ==> (#[trigger] r@[j]).name@ == fs@[j].name@ && same_type(r@[j].field_type, fs@[j].field_type),
        decreases fs@.len() - i,
    {
        proof {
            assert(decreases_to!(fs => fs@));
            assert(decreases_to!(fs@ => fs@[i as int]));
        }
        let f = &fs[i];
        r.push(StructField { name: f.name.clone(), field_type: f.field_type.duplicate() });
        i = i + 1;
    }
    proof {
        lemma_same_fields_from_elements(r@, fs@);
    }
    r
}

/// Copies of a list of type parameters, in order.
fn duplicate_params(ps: &Vec<TypeParam>) -> (r: Vec<TypeParam>)
    ensures
        same_params(r@, ps@),
    decreases ps,
{
    let mut r: Vec<TypeParam> = Vec::new();
    let mut i: usize = 0;
    while i < ps.len()
        invariant
            i <= ps@.len(),
            r@.len() == i,
            forall|j: int| 0 <= j < i ==> (#[trigger] r@[j]).name@ == ps@[j].name@ && same_types(r@[j].constraints@, ps@[j].constraints@),
        decreases ps@.len() - i,
    {
        proof {
            assert(decreases_to!(ps => ps@));
            assert(decreases_to!(ps@ => ps@[i as int]));
        }
        let p = &ps[i];
        r.push(TypeParam { name: p.name.clone(), constraints: duplicate_types(&p.constraints) });
        i = i + 1;
    }
    proof {
        lemma_same_params_from_elements(r@, ps@);
    }
    r
}

/// Copies of a list of enum variants, in order.
fn duplicate_variants(vs: &Vec<EnumVariant>) -> (r: Vec<EnumVariant>)
    ensures
        same_variants(r@, vs@),
    decreases vs,
{
    let mut r: Vec<EnumVariant> = Vec::new();
    let mut i: usize = 0;
    while i < vs.len()
        invariant
            i <= vs@.len(),
            r@.len() == i,
            forall|j: int| 0 <= j < i ==> same_variant(#[trigger] r@[j], vs@[j]),
        decreases vs@.len() - i,
    {
        proof {
            assert(decreases_to!(vs => vs@));
            assert(decreases_to!(vs@ => vs@[i as int]));
        }
        let v = &vs[i];
        let payload = match &v.payload {
            Some(EnumVariantPayload::Tuple(ts)) => Some(EnumVariantPayload::Tuple(duplicate_types(ts))),
            Some(EnumVariantPayload::Struct(fs)) => Some(EnumVariantPayload::Struct(duplicate_fields(fs))),
            None => None,
        };
        r.push(EnumVariant { name: v.name.clone(), payload });
        i = i + 1;
    }
    proof {
        lemma_same_variants_from_elements(r@, vs@);
    }
    r
}

/// The display text of a shape.
pub open spec fn shape_text(s: Shape) -> Seq<char>
    decreases s,
{
    match s {
        Shape::Unit => "()"@,
        Shape::Bool => "bool"@,
        Shape::Int => "int"@,
        Shape::Float => "float"@,
        Shape::Char => "char"@,
        Shape::Str => "string"@,
        Shape::Array(e) => "["@ + shape_text(*e) + "]"@,
        Shape::Tuple(ts) => "("@ + shapes_text(ts) + ")"@,
        Shape::Function(ps, r) => "("@ + shapes_text(ps) + ") -> "@ + shape_text(*r),
        Shape::Named(n) => n,
        Shape::Param(n) => n,
        Shape::Dsl(n, d) => d + ":"@ + n,
        Shape::Unknown => "?"@,
        Shape::Error => "<error>"@,
    }
}

/// The display texts of a list of shapes, separated by `, `.
pub open spec fn shapes_text(ss: Seq<Shape>) -> Seq<char>
    decreases ss,
{
    if ss.len() == 0 {
        seq![]
    } else if ss.len() == 1 {
        shape_text(ss[0])
    } else {
        shapes_text(ss.drop_last()) + ", "@ + shape_text(ss.last())
    }
}

proof fn lemma_shapes_take(ts: Seq<Type>, i: int)
    requires
        0 <= i < ts.len(),
    ensures
        shapes(ts.take(i + 1)) == shapes(ts.take(i)).push(shape(ts[i])),
{
    lemma_shapes_push(ts.take(i), ts[i]);
    assert(ts.take(i).push(ts[i]) =~= ts.take(i + 1));
}

/// The display text of a type.
pub fn type_text(t: &Type) -> (r: String)
    ensures
        r@ == shape_text(shape(*t)),
    decreases t,
{
    match &t.kind {
        TypeKind::Unit => string_of("()"),
        TypeKind::Bool => string_of("bool"),
        TypeKind::Int => string_of("int"),
        TypeKind::Float => string_of("float"),
        TypeKind::Char => string_of("char"),
        TypeKind::String => string_of("string"),
        TypeKind::Array(e) => {
            let mut s = string_of("[");
            let inner = type_text(e);
            append_str(&mut s, inner.as_str());
            append_str(&mut s, "]");
            s
        },
        TypeKind::Tuple(ts) => {
            let mut s = string_of("(");
            let inner = types_text(ts);
            append_str(&mut s, inner.as_str());
            append_str(&mut s, ")");
            s
        },
        TypeKind::Function { params, return_type } => {
            let mut s = string_of("(");
            let inner = types_text(params);
            append_str(&mut s, inner.as_str());
            append_str(&mut s, ") -> ");
            let ret = type_text(return_type);
            append_str(&mut s, ret.as_str());
            s
        },
        TypeKind::Struct { name, .. } => name.clone(),
        TypeKind::Enum { name, .. } => name.clone(),
        TypeKind::TypeRef { name, .. } => name.clone(),
        TypeKind::TypeParam { name } => name.clone(),
        TypeKind::DSLType { name, dsl_name } => {
            let mut s = dsl_name.clone();
            append_str(&mut s, ":");
            append_str(&mut s, name.as_str());
            s
        },
        TypeKind::Unknown => string_of("?"),
        TypeKind::Error => string_of("<error>"),
    }
}

/// The display texts of a list of types, separated by `, `.
pub fn types_text(ts: &Vec<Type>) -> (r: String)
    ensures
        r@ == shapes_text(shapes(ts@)),
    decreases ts,
{
    let mut s = String::new();
    let mut i: usize = 0;
    proof {
        assert(ts@.take(0) =~= Seq::<Type>::empty());
    }
    while i < ts.len()
        invariant
            i <= ts@.len(),
            s@ == shapes_text(shapes(ts@.take(i as int))),
        decreases ts@.len() - i,
    {
        proof {
            assert(decreases_to!(ts => ts@));
            assert(decreases_to!(ts@ => ts@[i as int]));
        }
        let ghost prev = shapes(ts@.take(i as int));
        if i > 0 {
            append_str(&mut s, ", ");
        }
        let part = type_text(&ts[i]);
        append_str(&mut s, part.as_str());
        proof {
            lemma_shapes_take(ts@, i as int);
            lemma_shapes_len(ts@.take(i as int));
            let next = shapes(ts@.take(i as int + 1));
            assert(next == prev.push(shape(ts@[i as int])));
            assert(next.drop_last() =~= prev);
            assert(next.last() == shape(ts@[i as int]));
            if i == 0 {
                assert(next.len() == 1);
            }
        }
        i = i + 1;
    }
    proof {
        assert(ts@.take(i as int) =~= ts@);
    }
    s
}

/// What a type environment holds: types by name, types by id, and the type
/// of each symbol.
pub struct TypeEnvModel {
    /// The id registered under each name.
    pub type_map: Map<Seq<char>, TypeId>,
    /// The type stored under each id.
    pub types: Map<usize, Type>,
    /// The type id given to each symbol.
    pub symbol_types: Map<usize, TypeId>,
}

impl TypeEnvModel {
    /// Every name is bound to an id under which a type is stored, and every
    /// stored type carries the id it is stored under.
    pub open spec fn wf(self) -> bool {
        &&& forall|n: Seq<char>| #[trigger] self.type_map.contains_key(n) ==> self.types.contains_key(self.type_map[n].0)
        &&& forall|k: usize| #[trigger] self.types.contains_key(k) ==> self.types[k].id.0 == k
    }
}

/// The names of the built-in types, in the order they are registered.
pub open spec fn builtin_type_names() -> Seq<Seq<char>> {
    seq!["unit"@, "bool"@, "int"@, "float"@, "char"@, "string"@]
}

/// The kinds of the built-in types, in the same order as their names.
pub open spec fn builtin_type_kinds() -> Seq<TypeKind> {
    seq![TypeKind::Unit, TypeKind::Bool, TypeKind::Int, TypeKind::Float, TypeKind::Char, TypeKind::String]
}

/// An environment that holds exactly the built-in types, with ids from `base` on.
pub open spec fn is_builtin_env(env: TypeEnvModel, base: nat) -> bool {
    &&& env.type_map.dom() == builtin_type_names().to_set()
    &&& forall|i: int| 0 <= i < 6 ==> {
        let id = (#[trigger] env.type_map[builtin_type_names()[i]]);
        &&& id.0 == base + i
        &&& env.types.contains_key(id.0)
        &&& env.types[id.0].id == id
        &&& env.types[id.0].kind == builtin_type_kinds()[i]
    }
    &&& env.types.dom().len() == 6
    &&& env.symbol_types == Map::<usize, TypeId>::empty()
}

/// The type environment used while checking types.
pub struct TypeEnvironment {
    type_map: AssocMap<String, TypeId>,
    types: AssocMap<TypeId, Type>,
    symbol_types: AssocMap<SymbolId, TypeId>,
}

impl View for TypeEnvironment {
    type V = TypeEnvModel;

    closed spec fn view(&self) -> TypeEnvModel {
        TypeEnvModel { type_map: self.type_map@, types: self.types@, symbol_types: self.symbol_types@ }
    }
}

impl TypeEnvironment {
    /// An environment holding the built-in types `unit`, `bool`, `int`,
    /// `float`, `char` and `string`, with the next six ids of `ids`.
    pub fn new(ids: &mut TypeIdSource) -> (env: Self)
        requires
            old(ids).next_id() + 6 < usize::MAX,
        ensures
            final(ids).next_id() == old(ids).next_id() + 6,
            env@.type_map.dom() == builtin_type_names().to_set(),
            forall|i: int| 0 <= i < 6 ==> {
                let id = (#[trigger] env@.type_map[builtin_type_names()[i]]);
                &&& id.0 == old(ids).next_id() + i
                &&& env@.types.contains_key(id.0)
                &&& env@.types[id.0].id == id
                &&& env@.types[id.0].kind == builtin_type_kinds()[i]
            },
            env@.types.dom().len() == 6,
            env@.symbol_types == Map::<usize, TypeId>::empty(),
            env@.wf(),
    {
        let mut env = Self { type_map: AssocMap::new(), types: AssocMap::new(), symbol_types: AssocMap::new() };
        let ghost n = ids.next_id();
        let t = Type::unit(ids);
        let ghost k0 = t.kind;
        env.register_builtin_type("unit", t);
        let t = Type::bool(ids);
        env.register_builtin_type("bool", t);
        let t = Type::integer(ids);
        env.register_builtin_type("int", t);
        let t = Type::float(ids);
        env.register_builtin_type("float", t);
        let t = Type::char(ids);
        env.register_builtin_type("char", t);
        let t = Type::string(ids);
        env.register_builtin_type("string", t);
        proof {
            let names = builtin_type_names();
            assert(names[0] == "unit"@ && names[1] == "bool"@ && names[2] == "int"@);
            assert(names[3] == "float"@ && names[4] == "char"@ && names[5] == "string"@);
            reveal_strlit("unit");
            reveal_strlit("bool");
            reveal_strlit("int");
            reveal_strlit("float");
            reveal_strlit("char");
            reveal_strlit("string");
            assert(env@.type_map.dom() =~= names.to_set()) by {
                assert forall|k: Seq<char>| env@.type_map.dom().contains(k) implies names.to_set().contains(k) by {
                    if k == "unit"@ { assert(names[0] == k); }
                    else if k == "bool"@ { assert(names[1] == k); }
                    else if k == "int"@ { assert(names[2] == k); }
                    else if k == "float"@ { assert(names[3] == k); }
                    else if k == "char"@ { assert(names[4] == k); }
                    else { assert(names[5] == k); }
                }
                assert forall|k: Seq<char>| names.to_set().contains(k) implies env@.type_map.dom().contains(k) by {
                    let i = choose|i: int| 0 <= i < names.len() && names[i] == k;
                }
            }
            let kinds = builtin_type_kinds();
            assert("unit"@[0] == 'u' && "bool"@[0] == 'b' && "int"@[0] == 'i' && "float"@[0] == 'f'
                && "char"@[0] == 'c' && "string"@[0] == 's');
            assert("unit"@ != "bool"@ && "unit"@ != "int"@ && "unit"@ != "float"@ && "unit"@ != "char"@ && "unit"@ != "string"@);
            assert("bool"@ != "int"@ && "bool"@ != "float"@ && "bool"@ != "char"@ && "bool"@ != "string"@);
            assert("int"@ != "float"@ && "int"@ != "char"@ && "int"@ != "string"@);
            assert("float"@ != "char"@ && "float"@ != "string"@ && "char"@ != "string"@);
            assert(env@.type_map[names[0]].0 == n);
            assert(k0 == kinds[0]);
            assert(env@.types[n as usize].kind == kinds[0]);
            assert(env@.type_map[names[1]].0 == n + 1 && env@.types[(n + 1) as usize].kind == kinds[1]);
            assert(env@.type_map[names[2]].0 == n + 2 && env@.types[(n + 2) as usize].kind == kinds[2]);
            assert(env@.type_map[names[3]].0 == n + 3 && env@.types[(n + 3) as usize].kind == kinds[3]);
            assert(env@.type_map[names[4]].0 == n + 4 && env@.types[(n + 4) as usize].kind == kinds[4]);
            assert(env@.type_map[names[5]].0 == n + 5 && env@.types[(n + 5) as usize].kind == kinds[5]);
            let ks = set![n as usize, (n + 1) as usize, (n + 2) as usize, (n + 3) as usize, (n + 4) as usize, (n + 5) as usize];
            assert(env@.types.dom() =~= ks);
            assert(ks.len() == 6);
        }
        env
    }

    fn register_builtin_type(&mut self, name: &str, ty: Type)
        ensures
            final(self)@.type_map == old(self)@.type_map.insert(name@, ty.id),
            final(self)@.types == old(self)@.types.insert(ty.id.0, ty),
            final(self)@.symbol_types == old(self)@.symbol_types,
            old(self)@.wf() ==> final(self)@.wf(),
    {
        let id = ty.id;
        let ghost ty_id = ty.id;
        self.type_map.insert(string_of(name), id);
        self.types.insert(id, ty);
        proof {
            if old(self)@.wf() {
                let m = self@;
                assert forall|n: Seq<char>| #[trigger] m.type_map.contains_key(n) implies m.types.contains_key(m.type_map[n].0) by {
                    if n != name@ {
                        assert(old(self)@.type_map.contains_key(n));
                    }
                }
                assert forall|k: usize| #[trigger] m.types.contains_key(k) implies m.types[k].id.0 == k by {
                    if k != ty_id.0 {
                        assert(old(self)@.types.contains_key(k));
                    }
                }
            }
        }
    }

    /// Binds `name` to the type and records the type under its id; returns the id.
    pub fn register_type(&mut self, name: String, ty: Type) -> (id: TypeId)
        ensures
            id == ty.id,
            final(self)@.type_map == old(self)@.type_map.insert(name@, ty.id),
            final(self)@.types == old(self)@.types.insert(ty.id.0, ty),
            final(self)@.symbol_types == old(self)@.symbol_types,
            old(self)@.wf() ==> final(self)@.wf(),
    {
        let id = ty.id;
        let ghost ty_id = ty.id;
        let ghost name_v = name@;
        self.type_map.insert(name, id);
        self.types.insert(id, ty);
        proof {
            if old(self)@.wf() {
                let m = self@;
                assert forall|n: Seq<char>| #[trigger] m.type_map.contains_key(n) implies m.types.contains_key(m.type_map[n].0) by {
                    if n != name_v {
                        assert(old(self)@.type_map.contains_key(n));
                    }
                }
                assert forall|k: usize| #[trigger] m.types.contains_key(k) implies m.types[k].id.0 == k by {
                    if k != ty_id.0 {
                        assert(old(self)@.types.contains_key(k));
                    }
                }
            }
        }
        id
    }

    /// The type that `name` denotes, if it is bound to a registered type.
    pub fn get_type_by_name(&self, name: &str) -> (r: Option<&Type>)
        ensures
            r matches Some(t) ==> self@.type_map.contains_key(name@)
                && self@.types.contains_key(self@.type_map[name@].0)
                && *t == self@.types[self@.type_map[name@].0],
            r is None ==> !self@.type_map.contains_key(name@)
                || !self@.types.contains_key(self@.type_map[name@].0),
            self@.wf() ==> (r is None <==> !self@.type_map.contains_key(name@)),
            self@.wf() ==> (r matches Some(t) ==> t.id == self@.type_map[name@]
                && self@.types.contains_key(t.id.0) && self@.types[t.id.0] == *t),
    {
        match self.type_map.get(&string_of(name)) {
            Some(id) => self.types.get(id),
            None => None,
        }
    }

    /// The registered type with the given id.
    pub fn get_type_by_id(&self, id: TypeId) -> (r: Option<&Type>)
        ensures
            r matches Some(t) ==> self@.types.contains_key(id.0) && *t == self@.types[id.0],
            r is None ==> !self@.types.contains_key(id.0),
    {
        self.types.get(&id)
    }

    /// Records that `symbol` has the type with id `type_id`.
    pub fn set_symbol_type(&mut self, symbol: SymbolId, type_id: TypeId)
        ensures
            final(self)@.symbol_types == old(self)@.symbol_types.insert(symbol.0, type_id),
            final(self)@.type_map == old(self)@.type_map,
            final(self)@.types == old(self)@.types,
            old(self)@.wf() ==> final(self)@.wf(),
    {
        self.symbol_types.insert(symbol, type_id);
        proof {
            assert(self@.type_map == old(self)@.type_map && self@.types == old(self)@.types);
        }
    }

    /// The type recorded for `symbol`, if its id is registered.
    pub fn get_symbol_type(&self, symbol: SymbolId) -> (r: Option<&Type>)
        ensures
            r matches Some(t) ==> self@.symbol_types.contains_key(symbol.0)
                && self@.types.contains_key(self@.symbol_types[symbol.0].0)
                && *t == self@.types[self@.symbol_types[symbol.0].0],
            r is None ==> !self@.symbol_types.contains_key(symbol.0)
                || !self@.types.contains_key(self@.symbol_types[symbol.0].0),
    {
        match self.symbol_types.get(&symbol) {
            Some(id) => self.types.get(id),
            None => None,
        }
    }
}

/// Each basic type has the shape of its kind: unit, `bool`, `int`, `float`,
/// `char` and string; a named type its name; a type parameter its name.
pub proof fn lemma_basic_shapes(t: Type)
    ensures
        t.kind is Unit ==> shape(t) == Shape::Unit,
        t.kind is Bool ==> shape(t) == Shape::Bool,
        t.kind is Int ==> shape(t) == Shape::Int,
        t.kind is Float ==> shape(t) == Shape::Float,
        t.kind is Char ==> shape(t) == Shape::Char,
        t.kind is String ==> shape(t) == Shape::Str,
        t.kind matches TypeKind::Struct { name, .. } ==> shape(t) == Shape::Named(name@),
        t.kind matches TypeKind::TypeParam { name } ==> shape(t) == Shape::Param(name@),
{
}

/// Two types that are the same have the same shape.
pub proof fn lemma_same_type_same_shape(a: Type, b: Type)
    requires
        same_type(a, b),
    ensures
        shape(a) == shape(b),
    decreases a,
{
    match (a.kind, b.kind) {
        (TypeKind::Array(x), TypeKind::Array(y)) => lemma_same_type_same_shape(*x, *y),
        (TypeKind::Tuple(x), TypeKind::Tuple(y)) => lemma_same_types_same_shapes(x@, y@),
        (TypeKind::Function { params: p1, return_type: r1 }, TypeKind::Function { params: p2, return_type: r2 }) => {
            lemma_same_types_same_shapes(p1@, p2@);
            lemma_same_type_same_shape(*r1, *r2);
        },
        _ => {},
    }
}

/// Two lists of types that are the same have the same shapes.
pub proof fn lemma_same_types_same_shapes(a: Seq<Type>, b: Seq<Type>)
    requires
        same_types(a, b),
    ensures
        shapes(a) == shapes(b),
    decreases a,
{
    if a.len() > 0 {
        lemma_same_type_same_shape(a[0], b[0]);
        lemma_same_types_same_shapes(a.drop_first(), b.drop_first());
    }
}

} // verus!
