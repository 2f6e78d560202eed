use vstd::prelude::*;

use crate::eir::{BinaryOp as EirBinaryOp, Literal, Operand, UnaryOp as EirUnaryOp};
use crate::error::EidosError;
use crate::types::{shape, shape_text, StructField, Type, TypeKind};
use crate::util::{append_str, decimal, push_decimal, string_of};

verus! {

// ---------------------------------------------------------------------------
// Code generation options.

/// The form of the generated code.
#[derive(Debug, Clone, Copy, PartialEq, Eq, Structural)]
pub enum OutputFormat {
    Binary,
    Bitcode,
    LLVMIR,
    Wasm,
    Wat,
}

/// The machine the code is generated for.
#[derive(Debug, Clone, PartialEq, Eq)]
pub enum Target {
    Native,
    Triple(String),
    Wasm,
}

/// Options of code generation; `opt_level` runs from 0 to 3.
#[derive(Debug, Clone, PartialEq, Eq)]
pub struct CodegenOptions {
    pub format: OutputFormat,
    pub target: Target,
    pub opt_level: u8,
    pub debug_info: bool,
    pub lto: bool,
}

impl Default for CodegenOptions {
    /// Native binary at optimisation level 2, without debug information or LTO.
    fn default() -> (o: Self)
        ensures
            o.format == OutputFormat::Binary,
            o.target == Target::Native,
            o.opt_level == 2,
            !o.debug_info,
            !o.lto,
    {
        CodegenOptions { format: OutputFormat::Binary, target: Target::Native, opt_level: 2, debug_info: false, lto: false }
    }
}

// ---------------------------------------------------------------------------
// Lowering of types to LLVM types.

/// An LLVM type, as the lowering produces it.
#[derive(Debug, PartialEq, Eq)]
pub enum LlvmType {
    /// An integer of the given width in bits.
    Int(u32),
    Double,
    Pointer(Box<LlvmType>),
    /// A literal struct.
    Struct(Vec<LlvmType>),
    /// A named struct with its body.
    NamedStruct(String, Vec<LlvmType>),
    /// A pointer to a function with these parameter and return types.
    FunctionPointer(Vec<LlvmType>, Box<LlvmType>),
}

/// An LLVM type in the specification.
pub enum LType {
    Int(u32),
    Double,
    Pointer(Box<LType>),
    Struct(Seq<LType>),
    NamedStruct(Seq<char>, Seq<LType>),
    FunctionPointer(Seq<LType>, Box<LType>),
}

/// The specification form of an LLVM type.
pub open spec fn ltype(l: LlvmType) -> LType
    decreases l,
{
    match l {
        LlvmType::Int(b) => LType::Int(b),
        LlvmType::Double => LType::Double,
        LlvmType::Pointer(e) => LType::Pointer(Box::new(ltype(*e))),
        LlvmType::Struct(fs) => LType::Struct(ltypes(fs@)),
        LlvmType::NamedStruct(n, fs) => LType::NamedStruct(n@, ltypes(fs@)),
        LlvmType::FunctionPointer(ps, r) => LType::FunctionPointer(ltypes(ps@), Box::new(ltype(*r))),
    }
}

/// The specification forms of a list of LLVM types.
pub open spec fn ltypes(ls: Seq<LlvmType>) -> Seq<LType>
    decreases ls,
{
    if ls.len() == 0 {
        seq![]
    } else {
        seq![ltype(ls[0])] + ltypes(ls.drop_first())
    }
}

proof fn lemma_ltypes_push(ls: Seq<LlvmType>, l: LlvmType)
    ensures
        ltypes(ls.push(l)) == ltypes(ls).push(ltype(l)),
    decreases ls.len(),
{
    if ls.len() == 0 {
        assert(ls.push(l).drop_first() =~= Seq::<LlvmType>::empty());
        assert(ltypes(Seq::<LlvmType>::empty()) =~= Seq::<LType>::empty());
        assert(ltypes(ls) =~= Seq::<LType>::empty());
        assert(ltypes(ls.push(l)) =~= seq![ltype(l)]);
    } else {
        assert(ls.push(l).drop_first() =~= ls.drop_first().push(l));
        lemma_ltypes_push(ls.drop_first(), l);
        assert(ltypes(ls.push(l)) =~= ltypes(ls).push(ltype(l)));
    }
}

/// The lowering of a type: its LLVM type, or the first part of it, in
/// order, that has none. Unit is the empty struct, `bool` is `i1`, `int` is
/// `i64`, `float` is `double`, `char` is `i32`, a string is a pointer to
/// `i8`, an array a pointer to its elements, a tuple a literal struct, a
/// function a function pointer, a struct a named struct of its fields, and
/// an enum a named struct of an `i32` tag and an empty payload.
pub open spec fn lowered(t: Type) -> Result<LType, Type>
    decreases t,
{
    match t.kind {
        TypeKind::Unit => Ok(LType::Struct(seq![])),
        TypeKind::Bool => Ok(LType::Int(1)),
        TypeKind::Int => Ok(LType::Int(64)),
        TypeKind::Float => Ok(LType::Double),
        TypeKind::Char => Ok(LType::Int(32)),
        TypeKind::String => Ok(LType::Pointer(Box::new(LType::Int(8)))),
        TypeKind::Array(e) => match lowered(*e) {
            Ok(l) => Ok(LType::Pointer(Box::new(l))),
            Err(x) => Err(x),
        },
        TypeKind::Tuple(ts) => match lowered_all(ts@) {
            Ok(ls) => Ok(LType::Struct(ls)),
            Err(x) => Err(x),
        },
        TypeKind::Function { params, return_type } => match lowered_all(params@) {
            Err(x) => Err(x),
            Ok(ps) => match lowered(*return_type) {
                Ok(r) => Ok(LType::FunctionPointer(ps, Box::new(r))),
                Err(x) => Err(x),
            },
        },
        TypeKind::Struct { name, fields, .. } => match lowered_fields(fields@) {
            Ok(ls) => Ok(LType::NamedStruct(name@, ls)),
            Err(x) => Err(x),
        },
        TypeKind::Enum { name, .. } => Ok(LType::NamedStruct(name@, seq![LType::Int(32), LType::Struct(seq![])])),
        _ => Err(t),
    }
}

/// The lowerings of a list of types, or the first failure.
pub open spec fn lowered_all(ts: Seq<Type>) -> Result<Seq<LType>, Type>
    decreases ts,
{
    if ts.len() == 0 {
        Ok(seq![])
    } else {
        match lowered(ts[0]) {
            Err(x) => Err(x),
            Ok(l) => match lowered_all(ts.drop_first()) {
                Ok(ls) => Ok(seq![l] + ls),
                Err(x) => Err(x),
            },
        }
    }
}

/// The lowerings of the types of struct fields, or the first failure.
pub open spec fn lowered_fields(fs: Seq<StructField>) -> Result<Seq<LType>, Type>
    decreases fs,
{
    if fs.len() == 0 {
        Ok(seq![])
    } else {
        match lowered(fs[0].field_type) {
            Err(x) => Err(x),
            Ok(l) => match lowered_fields(fs.drop_first()) {
                Ok(ls) => Ok(seq![l] + ls),
                Err(x) => Err(x),
            },
        }
    }
}

/// The message for a type without a lowering.
pub open spec fn unsupported_type_message(t: Type) -> Seq<char> {
    "未対応の型: "@ + shape_text(shape(t))
}

/// Whether `r` is the outcome `res` of a lowering.
pub open spec fn lowering_post(res: Result<LType, Type>, r: Result<LlvmType, EidosError>) -> bool {
    match res {
        Ok(l) => r matches Ok(x) && ltype(x) == l,
        Err(bad) => r matches Err(EidosError::BackendError(m)) && m@ == unsupported_type_message(bad),
    }
}

/// The outcome `acc` followed by the outcome `rest`.
pub open spec fn prepend_lowered(acc: Seq<LType>, rest: Result<Seq<LType>, Type>) -> Result<Seq<LType>, Type> {
    match rest {
        Ok(ls) => Ok(acc + ls),
        Err(x) => Err(x),
    }
}

fn unsupported(t: &Type) -> (e: EidosError)
    ensures
        e matches EidosError::BackendError(m) && m@ == unsupported_type_message(*t),
{
    let mut m = string_of("未対応の型: ");
    let x = t.to_string();
    append_str(&mut m, x.as_str());
    EidosError::BackendError(m)
}

/// Lowers a list of types, in order.
fn llvm_types(ts: &Vec<Type>) -> (r: Result<Vec<LlvmType>, EidosError>)
    ensures
        match lowered_all(ts@) {
            Ok(ls) => r matches Ok(v) && ltypes(v@) == ls,
            Err(bad) => r matches Err(EidosError::BackendError(m)) && m@ == unsupported_type_message(bad),
        },
    decreases ts,
{
    let mut out: Vec<LlvmType> = Vec::new();
    let mut i: usize = 0;
    proof {
        assert(ts@.subrange(0, ts@.len() as int) =~= ts@);
        assert(ltypes(out@) =~= Seq::<LType>::empty());
        assert(prepend_lowered(seq![], lowered_all(ts@)) =~= lowered_all(ts@)) by {
            match lowered_all(ts@) {
                Ok(ls) => { assert(Seq::<LType>::empty() + ls =~= ls); },
                Err(_) => {},
            }
        }
    }
    while i < ts.len()
        invariant
            i <= ts@.len(),
            lowered_all(ts@) == prepend_lowered(ltypes(out@), lowered_all(ts@.subrange(i as int, ts@.len() as int))),
        decreases ts@.len() - i,
    {
        proof {
            assert(decreases_to!(ts => ts@));
            assert(decreases_to!(ts@ => ts@[i as int]));
            assert(ts@.subrange(i as int, ts@.len() as int).drop_first() =~= ts@.subrange(i + 1, ts@.len() as int));
            assert(ts@.subrange(i as int, ts@.len() as int)[0] == ts@[i as int]);
        }
        let ghost acc = ltypes(out@);
        match llvm_type(&ts[i]) {
            Ok(l) => {
                proof {
                    lemma_ltypes_push(out@, l);
                    match lowered_all(ts@.subrange(i + 1, ts@.len() as int)) {
                        Ok(ls) => {
                            assert(acc + (seq![ltype(l)] + ls) =~= acc.push(ltype(l)) + ls);
                        },
                        Err(_) => {},
                    }
                }
                out.push(l);
            },
            Err(e) => {
                return Err(e);
            },
        }
        i = i + 1;
    }
    proof {
        assert(ts@.subrange(i as int, ts@.len() as int) =~= Seq::<Type>::empty());
        assert(ltypes(out@) + Seq::<LType>::empty() =~= ltypes(out@));
    }
    Ok(out)
}

/// Lowers the types of struct fields, in order.
fn llvm_field_types(fs: &Vec<StructField>) -> (r: Result<Vec<LlvmType>, EidosError>)
    ensures
        match lowered_fields(fs@) {
            Ok(ls) => r matches Ok(v) && ltypes(v@) == ls,
            Err(bad) => r matches Err(EidosError::BackendError(m)) && m@ == unsupported_type_message(bad),
        },
    decreases fs,
{
    let mut out: Vec<LlvmType> = Vec::new();
    let mut i: usize = 0;
    proof {
        assert(fs@.subrange(0, fs@.len() as int) =~= fs@);
        assert(ltypes(out@) =~= Seq::<LType>::empty());
        assert(prepend_lowered(seq![], lowered_fields(fs@)) =~= lowered_fields(fs@)) by {
            match lowered_fields(fs@) {
                Ok(ls) => { assert(Seq::<LType>::empty() + ls =~= ls); },
                Err(_) => {},
            }
        }
    }
    while i < fs.len()
        invariant
            i <= fs@.len(),
            lowered_fields(fs@) == prepend_lowered(ltypes(out@), lowered_fields(fs@.subrange(i as int, fs@.len() as int))),
        decreases fs@.len() - i,
    {
        proof {
            assert(decreases_to!(fs => fs@));
            assert(decreases_to!(fs@ => fs@[i as int]));
            assert(decreases_to!(fs@[i as int] => fs@[i as int].field_type));
            assert(fs@.subrange(i as int, fs@.len() as int).drop_first() =~= fs@.subrange(i + 1, fs@.len() as int));
            assert(fs@.subrange(i as int, fs@.len() as int)[0] == fs@[i as int]);
        }
        let ghost acc = ltypes(out@);
        match llvm_type(&fs[i].field_type) {
            Ok(l) => {
                proof {
                    lemma_ltypes_push(out@, l);
                    match lowered_fields(fs@.subrange(i + 1, fs@.len() as int)) {
                        Ok(ls) => {
                            assert(acc + (seq![ltype(l)] + ls) =~= acc.push(ltype(l)) + ls);
                        },
                        Err(_) => {},
                    }
                }
                out.push(l);
            },
            Err(e) => {
                return Err(e);
            },
        }
        i = i + 1;
    }
    proof {
        assert(fs@.subrange(i as int, fs@.len() as int) =~= Seq::<StructField>::empty());
        assert(ltypes(out@) + Seq::<LType>::empty() =~= ltypes(out@));
    }
    Ok(out)
}

/// The LLVM type of a type, or the error for the first part of it without one.
pub fn llvm_type(t: &Type) -> (r: Result<LlvmType, EidosError>)
    ensures
        lowering_post(lowered(*t), r),
    decreases t,
{
    let r = match &t.kind {
        TypeKind::Unit => {
            let v: Vec<LlvmType> = Vec::new();
            proof {
                assert(v@ =~= Seq::<LlvmType>::empty());
                assert(ltypes(v@) =~= Seq::<LType>::empty());
            }
            Ok(LlvmType::Struct(v))
        },
        TypeKind::Bool => Ok(LlvmType::Int(1)),
        TypeKind::Int => Ok(LlvmType::Int(64)),
        TypeKind::Float => Ok(LlvmType::Double),
        TypeKind::Char => Ok(LlvmType::Int(32)),
        TypeKind::String => {
            let byte = LlvmType::Int(8);
            proof {
                assert(ltype(byte) == LType::Int(8));
            }
            Ok(LlvmType::Pointer(Box::new(byte)))
        },
        TypeKind::Array(e) => match llvm_type(e) {
            Ok(l) => Ok(LlvmType::Pointer(Box::new(l))),
            Err(x) => Err(x),
        },
        TypeKind::Tuple(ts) => match llvm_types(ts) {
            Ok(ls) => Ok(LlvmType::Struct(ls)),
            Err(x) => Err(x),
        },
        TypeKind::Function { params, return_type } => {
            let ps = match llvm_types(params) {
                Ok(ps) => ps,
                Err(x) => {
                    return Err(x);
                },
            };
            match llvm_type(return_type) {
                Ok(r) => Ok(LlvmType::FunctionPointer(ps, Box::new(r))),
                Err(x) => Err(x),
            }
        },
        TypeKind::Struct { name, fields, .. } => match llvm_field_types(fields) {
            Ok(ls) => Ok(LlvmType::NamedStruct(name.clone(), ls)),
            Err(x) => Err(x),
        },
        TypeKind::Enum { name, .. } => {
            let mut body: Vec<LlvmType> = Vec::new();
            let empty: Vec<LlvmType> = Vec::new();
            proof {
                assert(empty@ =~= Seq::<LlvmType>::empty());
                assert(ltypes(empty@) =~= Seq::<LType>::empty());
            }
            body.push(LlvmType::Int(32));
            body.push(LlvmType::Struct(empty));
            proof {
                assert(ltypes(Seq::<LlvmType>::empty()) =~= Seq::<LType>::empty());
                let b = body@;
                assert(b.drop_first().drop_first() =~= Seq::<LlvmType>::empty());
                assert(ltypes(b.drop_first().drop_first()) =~= Seq::<LType>::empty());
                assert(ltype(b[1]) == LType::Struct(seq![]));
                assert(ltypes(b.drop_first()) =~= seq![LType::Struct(seq![])]);
                assert(b.len() == 2);
                assert(ltypes(b) == seq![ltype(b[0])] + ltypes(b.drop_first()));
                assert(ltype(b[0]) == LType::Int(32));
                assert(ltypes(b) =~= seq![LType::Int(32), LType::Struct(seq![])]);
            }
            Ok(LlvmType::NamedStruct(name.clone(), body))
        },
        _ => Err(unsupported(t)),
    };
    proof {
        match t.kind {
            TypeKind::Unit => { assert(lowering_post(lowered(*t), r)); },
            TypeKind::Bool => { assert(lowering_post(lowered(*t), r)); },
            TypeKind::Int => { assert(lowering_post(lowered(*t), r)); },
            TypeKind::Float => { assert(lowering_post(lowered(*t), r)); },
            TypeKind::Char => { assert(lowering_post(lowered(*t), r)); },
            TypeKind::String => { assert(lowering_post(lowered(*t), r)); },
            TypeKind::Array(_) => { assert(lowering_post(lowered(*t), r)); },
            TypeKind::Tuple(_) => { assert(lowering_post(lowered(*t), r)); },
            TypeKind::Function { .. } => { assert(lowering_post(lowered(*t), r)); },
            TypeKind::Struct { .. } => { assert(lowering_post(lowered(*t), r)); },
            TypeKind::Enum { .. } => { assert(lowering_post(lowered(*t), r)); },
            _ => { assert(lowering_post(lowered(*t), r)); },
        }
    }
    r
}

// ---------------------------------------------------------------------------
// WebAssembly value types.

/// A WebAssembly value type.
#[derive(Debug, Clone, Copy, PartialEq, Eq, Structural)]
pub enum WasmValType {
    I32,
    I64,
    F32,
    F64,
}

/// The WebAssembly value type of a type: `int` is `i64`, `float` is `f64`,
/// unit, `bool`, `char` and the types held in memory (strings, arrays,
/// tuples, functions, structs and enums, by address) are `i32`; named types,
/// type parameters, DSL types and unknown or erroneous types have none.
pub open spec fn wasm_val_type(k: TypeKind) -> Option<WasmValType> {
    match k {
        TypeKind::Int => Some(WasmValType::I64),
        TypeKind::Float => Some(WasmValType::F64),
        TypeKind::Unit | TypeKind::Bool | TypeKind::Char | TypeKind::String | TypeKind::Array(_)
        | TypeKind::Tuple(_) | TypeKind::Function { .. } | TypeKind::Struct { .. } | TypeKind::Enum { .. } =>
            Some(WasmValType::I32),
        _ => None,
    }
}

/// The WebAssembly value type of a type, or the error for a type without one.
pub fn wasm_type(t: &Type) -> (r: Result<WasmValType, EidosError>)
    ensures
        match wasm_val_type(t.kind) {
            Some(v) => r == Ok::<WasmValType, EidosError>(v),
            None => r matches Err(EidosError::BackendError(m)) && m@ == unsupported_type_message(*t),
        },
{
    match &t.kind {
        TypeKind::Int => Ok(WasmValType::I64),
        TypeKind::Float => Ok(WasmValType::F64),
        TypeKind::Unit | TypeKind::Bool | TypeKind::Char | TypeKind::String | TypeKind::Array(_)
        | TypeKind::Tuple(_) | TypeKind::Function { .. } | TypeKind::Struct { .. } | TypeKind::Enum { .. } =>
            Ok(WasmValType::I32),
        _ => Err(unsupported(t)),
    }
}

/// The size in bytes of a value of a type in WebAssembly memory.
pub open spec fn wasm_size(k: TypeKind) -> i32 {
    match k {
        TypeKind::Int => 8,
        TypeKind::Float => 8,
        TypeKind::Bool => 1,
        TypeKind::Char => 4,
        TypeKind::String => 8,
        TypeKind::Unit => 0,
        TypeKind::Array(_) | TypeKind::Tuple(_) | TypeKind::Function { .. } | TypeKind::Struct { .. }
        | TypeKind::Enum { .. } => 8,
        _ => 4,
    }
}

/// The size in bytes of a value of a type in WebAssembly memory.
pub fn get_type_size(t: &Type) -> (r: i32)
    ensures
        r == wasm_size(t.kind),
{
    match &t.kind {
        TypeKind::Int => 8,
        TypeKind::Float => 8,
        TypeKind::Bool => 1,
        TypeKind::Char => 4,
        TypeKind::String => 8,
        TypeKind::Unit => 0,
        TypeKind::Array(_) | TypeKind::Tuple(_) | TypeKind::Function { .. } | TypeKind::Struct { .. }
        | TypeKind::Enum { .. } => 8,
        _ => 4,
    }
}

/// The WebAssembly value type of an operand: `i64` for an integer literal,
/// `f64` for a float literal, `i32` otherwise.
pub fn get_operand_type(operand: &Operand) -> (r: WasmValType)
    ensures
        r == match *operand {
            Operand::Literal(Literal::Int(_)) => WasmValType::I64,
            Operand::Literal(Literal::Float(_)) => WasmValType::F64,
            _ => WasmValType::I32,
        },
{
    match operand {
        Operand::Literal(Literal::Int(_)) => WasmValType::I64,
        Operand::Literal(Literal::Float(_)) => WasmValType::F64,
        _ => WasmValType::I32,
    }
}

/// Whether an operand is an integer literal.
pub fn is_int_type(operand: &Operand) -> (r: bool)
    ensures
        r == (*operand matches Operand::Literal(Literal::Int(_))),
{
    match operand {
        Operand::Literal(Literal::Int(_)) => true,
        _ => false,
    }
}

/// Whether an operand is a float literal.
pub fn is_float_type(operand: &Operand) -> (r: bool)
    ensures
        r == (*operand matches Operand::Literal(Literal::Float(_))),
{
    match operand {
        Operand::Literal(Literal::Float(_)) => true,
        _ => false,
    }
}

/// Whether an operand is a boolean literal.
pub fn is_bool_type(operand: &Operand) -> (r: bool)
    ensures
        r == (*operand matches Operand::Literal(Literal::Bool(_))),
{
    match operand {
        Operand::Literal(Literal::Bool(_)) => true,
        _ => false,
    }
}


// ---------------------------------------------------------------------------
// LLVM globals.

/// The constant an LLVM global starts with.
#[derive(Debug, PartialEq, Eq)]
pub enum LlvmConst {
    /// An integer of the given width; the value is the two's complement bits.
    Int { width: u32, value: u64 },
    /// A double, by its IEEE 754 bits.
    Float(u64),
    /// An array of bytes.
    Bytes(Vec<u8>),
    /// The empty struct.
    EmptyStruct,
    /// The zero of the global's type: zero numbers, null pointers, structs of zeros.
    Zero,
}

/// An LLVM global variable, as the code generator declares it.
#[derive(Debug, PartialEq, Eq)]
pub struct LlvmGlobal {
    pub name: String,
    pub ty: LlvmType,
    pub thread_local: bool,
    pub section: Option<String>,
    pub constant: bool,
    pub unnamed_addr: bool,
    pub alignment: u32,
    pub initializer: LlvmConst,
}

/// Whether `s` starts with `p`.
pub open spec fn has_prefix(s: Seq<char>, p: Seq<char>) -> bool {
    p.len() <= s.len() && s.take(p.len() as int) == p
}

/// Whether `s` ends with `p`.
pub open spec fn has_suffix(s: Seq<char>, p: Seq<char>) -> bool {
    p.len() <= s.len() && s.skip(s.len() - p.len()) == p
}

/// The section a global's name asks for: `__const_` names go to `.rodata`,
/// `__bss_` names to `.bss`, `__data_` names to `.data`.
pub open spec fn name_section(n: Seq<char>) -> Option<Seq<char>> {
    if has_prefix(n, "__const_"@) {
        Some(".rodata"@)
    } else if has_prefix(n, "__bss_"@) {
        Some(".bss"@)
    } else if has_prefix(n, "__data_"@) {
        Some(".data"@)
    } else {
        None
    }
}

/// The alignment of a global of a type: 8 for integers, floats and arrays of
/// them, 16 for structs, 4 otherwise.
pub open spec fn global_alignment(k: TypeKind) -> u32 {
    match k {
        TypeKind::Int => 8,
        TypeKind::Float => 8,
        TypeKind::Array(e) => match e.kind {
            TypeKind::Int => 8,
            TypeKind::Float => 8,
            _ => 4,
        },
        TypeKind::Struct { .. } => 16,
        _ => 4,
    }
}

/// Whether `c` is the initial constant for `init`: integers, booleans and
/// characters as integers of 64, 1 and 32 bits, floats by their bits,
/// strings as their UTF-8 bytes and a terminating zero, unit as the empty
/// struct, and zero without an initializer.
pub open spec fn init_matches(c: LlvmConst, init: Option<Literal>) -> bool {
    match init {
        None => c == LlvmConst::Zero,
        Some(Literal::Int(v)) => c == (LlvmConst::Int { width: 64, value: v as u64 }),
        Some(Literal::Float(bits)) => c == LlvmConst::Float(bits),
        Some(Literal::Bool(b)) => c == (LlvmConst::Int { width: 1, value: if b { 1 } else { 0 } }),
        Some(Literal::Char(ch)) => c == (LlvmConst::Int { width: 32, value: ch as u64 }),
        Some(Literal::String(s)) => c matches LlvmConst::Bytes(bs) && bs@ == vstd::utf8::encode_utf8(s@).push(0),
        Some(Literal::Unit) => c == LlvmConst::EmptyStruct,
    }
}

/// Whether an initializer makes a global a constant: any literal but unit.
pub open spec fn constant_init(init: Option<Literal>) -> bool {
    init is Some && !(init matches Some(Literal::Unit))
}

/// Whether `g` is the global declared as `name` of type `t` with `init`:
/// its LLVM type, thread-local for `__thread_` and `_tls` names, its section
/// and constness from its name, unless a constant initializer puts it in
/// `.rodata.cst` as an unnamed constant, its alignment, and its initializer.
pub open spec fn global_matches(g: LlvmGlobal, name: Seq<char>, t: Type, init: Option<Literal>) -> bool {
    &&& g.name@ == name
    &&& lowered(t) == Ok::<LType, Type>(ltype(g.ty))
    &&& g.thread_local == (has_prefix(name, "__thread_"@) || has_suffix(name, "_tls"@))
    &&& g.alignment == global_alignment(t.kind)
    &&& init_matches(g.initializer, init)
    &&& if constant_init(init) {
        (g.section matches Some(x) && x@ == ".rodata.cst"@) && g.constant && g.unnamed_addr
    } else {
        &&& g.constant == has_prefix(name, "__const_"@)
        &&& !g.unnamed_addr
        &&& match name_section(name) {
            Some(sec) => g.section matches Some(x) && x@ == sec,
            None => g.section is None,
        }
    }
}

/// Whether `name` starts with `p`.
fn starts_with(name: &Vec<char>, p: &str) -> (r: bool)
    ensures
        r == has_prefix(name@, p@),
{
    let pc = crate::util::str_to_chars(p);
    if pc.len() > name.len() {
        return false;
    }
    let mut i: usize = 0;
    while i < pc.len()
        invariant
            pc@ == p@,
            pc@.len() <= name@.len(),
            i <= pc@.len(),
            forall|j: int| 0 <= j < i ==> name@[j] == pc@[j],
        decreases pc@.len() - i,
    {
        if name[i] != pc[i] {
            proof {
                assert(name@.take(pc@.len() as int)[i as int] != pc@[i as int]);
            }
            return false;
        }
        i = i + 1;
    }
    proof {
        assert(name@.take(pc@.len() as int) =~= pc@);
    }
    true
}

/// Whether `name` ends with `p`.
fn ends_with(name: &Vec<char>, p: &str) -> (r: bool)
    ensures
        r == has_suffix(name@, p@),
{
    let pc = crate::util::str_to_chars(p);
    if pc.len() > name.len() {
        return false;
    }
    let start = name.len() - pc.len();
    let mut i: usize = 0;
    while i < pc.len()
        invariant
            pc@ == p@,
            pc@.len() <= name@.len(),
            start == name@.len() - pc@.len(),
            start + pc@.len() == name.len(),
            i <= pc@.len(),
            forall|j: int| 0 <= j < i ==> name@[start + j] == pc@[j],
        decreases pc@.len() - i,
    {
        if name[start + i] != pc[i] {
            proof {
                assert(name@.skip(start as int)[i as int] != pc@[i as int]);
            }
            return false;
        }
        i = i + 1;
    }
    proof {
        assert(name@.skip(start as int) =~= pc@);
    }
    true
}

/// The global declared as `name` of type `ty` with `initializer`, or the
/// error for a type without a lowering.
pub fn declare_llvm_global(name: &String, ty: &Type, initializer: Option<&Literal>) -> (r: Result<LlvmGlobal, EidosError>)
    ensures
        match lowered(*ty) {
            Ok(_) => r matches Ok(g) && global_matches(g, name@, *ty, match initializer { Some(l) => Some(*l), None => None }),
            Err(bad) => r matches Err(EidosError::BackendError(m)) && m@ == unsupported_type_message(bad),
        },
{
    let lt = match llvm_type(ty) {
        Ok(l) => l,
        Err(e) => {
            return Err(e);
        },
    };
    let chars = crate::util::str_to_chars(name.as_str());
    let thread_local = starts_with(&chars, "__thread_") || ends_with(&chars, "_tls");
    let is_const_name = starts_with(&chars, "__const_");
    let section_by_name: Option<String> = if is_const_name {
        Some(string_of(".rodata"))
    } else if starts_with(&chars, "__bss_") {
        Some(string_of(".bss"))
    } else if starts_with(&chars, "__data_") {
        Some(string_of(".data"))
    } else {
        None
    };
    let alignment: u32 = match &ty.kind {
        TypeKind::Int => 8,
        TypeKind::Float => 8,
        TypeKind::Array(e) => match &e.kind {
            TypeKind::Int => 8,
            TypeKind::Float => 8,
            _ => 4,
        },
        TypeKind::Struct { .. } => 16,
        _ => 4,
    };
    let (initializer, constant_lit) = match initializer {
        None => (LlvmConst::Zero, false),
        Some(Literal::Int(v)) => (LlvmConst::Int { width: 64, value: *v as u64 }, true),
        Some(Literal::Float(bits)) => (LlvmConst::Float(*bits), true),
        Some(Literal::Bool(b)) => (LlvmConst::Int { width: 1, value: if *b { 1 } else { 0 } }, true),
        Some(Literal::Char(c)) => (LlvmConst::Int { width: 32, value: *c as u64 }, true),
        Some(Literal::String(s)) => {
            let mut bytes = s.as_str().as_bytes_vec();
            bytes.push(0u8);
            (LlvmConst::Bytes(bytes), true)
        },
        Some(Literal::Unit) => (LlvmConst::EmptyStruct, false),
    };
    let g = if constant_lit {
        LlvmGlobal {
            name: name.clone(),
            ty: lt,
            thread_local,
            section: Some(string_of(".rodata.cst")),
            constant: true,
            unnamed_addr: true,
            alignment,
            initializer,
        }
    } else {
        LlvmGlobal {
            name: name.clone(),
            ty: lt,
            thread_local,
            section: section_by_name,
            constant: is_const_name,
            unnamed_addr: false,
            alignment,
            initializer,
        }
    };
    Ok(g)
}


// ---------------------------------------------------------------------------
// LLVM instruction selection.

/// What instruction selection sees of an LLVM value: an integer or a float
/// of a width in bits, a pointer, or something else.
#[derive(Debug, Clone, Copy, PartialEq, Eq, Structural)]
pub enum ValueKind {
    Int(u32),
    Float(u32),
    Pointer,
    Other,
}

/// An LLVM arithmetic instruction.
#[derive(Debug, Clone, Copy, PartialEq, Eq, Structural)]
pub enum LlvmOp {
    IntAdd,
    FloatAdd,
    IntSub,
    FloatSub,
    IntMul,
    FloatMul,
    IntSignedDiv,
    FloatDiv,
    IntSignedRem,
    IntNeg,
    FloatNeg,
    Not,
}

/// How a value is brought to the type an argument or a memory slot expects.
#[derive(Debug, Clone, Copy, PartialEq, Eq, Structural)]
pub enum Conversion {
    Keep,
    SignExtend,
    Truncate,
    FloatExtend,
    FloatTruncate,
    Bitcast,
}

/// The calling convention of a call.
#[derive(Debug, Clone, Copy, PartialEq, Eq, Structural)]
pub enum CallConv {
    Default,
    X86Stdcall,
    X86Fastcall,
}

/// The name of a binary operator of the intermediate representation.
pub open spec fn eir_binary_name(op: EirBinaryOp) -> Seq<char> {
    match op {
        EirBinaryOp::Add => "Add"@,
        EirBinaryOp::Sub => "Sub"@,
        EirBinaryOp::Mul => "Mul"@,
        EirBinaryOp::Div => "Div"@,
        EirBinaryOp::Rem => "Rem"@,
        EirBinaryOp::BitAnd => "BitAnd"@,
        EirBinaryOp::BitOr => "BitOr"@,
        EirBinaryOp::BitXor => "BitXor"@,
        EirBinaryOp::Shl => "Shl"@,
        EirBinaryOp::Shr => "Shr"@,
        EirBinaryOp::Eq => "Eq"@,
        EirBinaryOp::Ne => "Ne"@,
        EirBinaryOp::Lt => "Lt"@,
        EirBinaryOp::Le => "Le"@,
        EirBinaryOp::Gt => "Gt"@,
        EirBinaryOp::Ge => "Ge"@,
        EirBinaryOp::And => "And"@,
        EirBinaryOp::Or => "Or"@,
    }
}

/// The instruction for a binary operator whose left operand is of kind `k`:
/// the integer or the float form of addition, subtraction, multiplication
/// and division, the integer remainder; the error text otherwise.
pub open spec fn binary_selection(op: EirBinaryOp, k: ValueKind) -> Result<LlvmOp, Seq<char>> {
    match op {
        EirBinaryOp::Add => match k {
            ValueKind::Int(_) => Ok(LlvmOp::IntAdd),
            ValueKind::Float(_) => Ok(LlvmOp::FloatAdd),
            _ => Err("加算は整数か浮動小数点数のみサポートされています"@),
        },
        EirBinaryOp::Sub => match k {
            ValueKind::Int(_) => Ok(LlvmOp::IntSub),
            ValueKind::Float(_) => Ok(LlvmOp::FloatSub),
            _ => Err("減算は整数か浮動小数点数のみサポートされています"@),
        },
        EirBinaryOp::Mul => match k {
            ValueKind::Int(_) => Ok(LlvmOp::IntMul),
            ValueKind::Float(_) => Ok(LlvmOp::FloatMul),
            _ => Err("乗算は整数か浮動小数点数のみサポートされています"@),
        },
        EirBinaryOp::Div => match k {
            ValueKind::Int(_) => Ok(LlvmOp::IntSignedDiv),
            ValueKind::Float(_) => Ok(LlvmOp::FloatDiv),
            _ => Err("除算は整数か浮動小数点数のみサポートされています"@),
        },
        EirBinaryOp::Rem => match k {
            ValueKind::Int(_) => Ok(LlvmOp::IntSignedRem),
            _ => Err("剰余は整数のみサポートされています"@),
        },
        _ => Err("未対応の二項演算子: "@ + eir_binary_name(op)),
    }
}

/// The instruction for a unary operator on a value of kind `k`: integer or
/// float negation, and bitwise negation of an integer; the error text otherwise.
pub open spec fn unary_selection(op: EirUnaryOp, k: ValueKind) -> Result<LlvmOp, Seq<char>> {
    match op {
        EirUnaryOp::Neg => match k {
            ValueKind::Int(_) => Ok(LlvmOp::IntNeg),
            ValueKind::Float(_) => Ok(LlvmOp::FloatNeg),
            _ => Err("負数化は整数か浮動小数点数のみサポートされています"@),
        },
        EirUnaryOp::Not => match k {
            ValueKind::Int(_) => Ok(LlvmOp::Not),
            _ => Err("論理否定はブール値のみサポートされています"@),
        },
        EirUnaryOp::BitNot => Err("未対応の単項演算子: BitNot"@),
        EirUnaryOp::Cast => Err("未対応の単項演算子: Cast"@),
    }
}

/// The instruction for a binary operator, as `binary_selection` says.
pub fn select_binary(op: EirBinaryOp, lhs: ValueKind) -> (r: Result<LlvmOp, EidosError>)
    ensures
        match binary_selection(op, lhs) {
            Ok(o) => r == Ok::<LlvmOp, EidosError>(o),
            Err(t) => r matches Err(EidosError::BackendError(m)) && m@ == t,
        },
{
    let msg = match op {
        EirBinaryOp::Add => match lhs {
            ValueKind::Int(_) => return Ok(LlvmOp::IntAdd),
            ValueKind::Float(_) => return Ok(LlvmOp::FloatAdd),
            _ => "加算は整数か浮動小数点数のみサポートされています",
        },
        EirBinaryOp::Sub => match lhs {
            ValueKind::Int(_) => return Ok(LlvmOp::IntSub),
            ValueKind::Float(_) => return Ok(LlvmOp::FloatSub),
            _ => "減算は整数か浮動小数点数のみサポートされています",
        },
        EirBinaryOp::Mul => match lhs {
            ValueKind::Int(_) => return Ok(LlvmOp::IntMul),
            ValueKind::Float(_) => return Ok(LlvmOp::FloatMul),
            _ => "乗算は整数か浮動小数点数のみサポートされています",
        },
        EirBinaryOp::Div => match lhs {
            ValueKind::Int(_) => return Ok(LlvmOp::IntSignedDiv),
            ValueKind::Float(_) => return Ok(LlvmOp::FloatDiv),
            _ => "除算は整数か浮動小数点数のみサポートされています",
        },
        EirBinaryOp::Rem => match lhs {
            ValueKind::Int(_) => return Ok(LlvmOp::IntSignedRem),
            _ => "剰余は整数のみサポートされています",
        },
        _ => {
            let mut m = string_of("未対応の二項演算子: ");
            let name = match op {
                EirBinaryOp::BitAnd => "BitAnd",
                EirBinaryOp::BitOr => "BitOr",
                EirBinaryOp::BitXor => "BitXor",
                EirBinaryOp::Shl => "Shl",
                EirBinaryOp::Shr => "Shr",
                EirBinaryOp::Eq => "Eq",
                EirBinaryOp::Ne => "Ne",
                EirBinaryOp::Lt => "Lt",
                EirBinaryOp::Le => "Le",
                EirBinaryOp::Gt => "Gt",
                EirBinaryOp::Ge => "Ge",
                EirBinaryOp::And => "And",
                _ => "Or",
            };
            append_str(&mut m, name);
            return Err(EidosError::BackendError(m));
        },
    };
    Err(EidosError::BackendError(string_of(msg)))
}

/// The instruction for a unary operator, as `unary_selection` says.
pub fn select_unary(op: EirUnaryOp, operand: ValueKind) -> (r: Result<LlvmOp, EidosError>)
    ensures
        match unary_selection(op, operand) {
            Ok(o) => r == Ok::<LlvmOp, EidosError>(o),
            Err(t) => r matches Err(EidosError::BackendError(m)) && m@ == t,
        },
{
    match op {
        EirUnaryOp::Neg => match operand {
            ValueKind::Int(_) => Ok(LlvmOp::IntNeg),
            ValueKind::Float(_) => Ok(LlvmOp::FloatNeg),
            _ => Err(EidosError::BackendError(string_of("負数化は整数か浮動小数点数のみサポートされています"))),
        },
        EirUnaryOp::Not => match operand {
            ValueKind::Int(_) => Ok(LlvmOp::Not),
            _ => Err(EidosError::BackendError(string_of("論理否定はブール値のみサポートされています"))),
        },
        EirUnaryOp::BitNot => Err(EidosError::BackendError(string_of("未対応の単項演算子: BitNot"))),
        EirUnaryOp::Cast => Err(EidosError::BackendError(string_of("未対応の単項演算子: Cast"))),
    }
}

/// How a value of kind `from` is brought to kind `to`: kept when they are
/// equal; integers sign-extended or truncated, floats extended or truncated
/// to the other width; pointers cast; none for other pairs.
pub open spec fn conversion(from: ValueKind, to: ValueKind) -> Option<Conversion> {
    if from == to {
        Some(Conversion::Keep)
    } else {
        match (from, to) {
            (ValueKind::Int(a), ValueKind::Int(b)) =>
                Some(if b > a { Conversion::SignExtend } else if b < a { Conversion::Truncate } else { Conversion::Keep }),
            (ValueKind::Float(a), ValueKind::Float(b)) =>
                Some(if b > a { Conversion::FloatExtend } else if b < a { Conversion::FloatTruncate } else { Conversion::Keep }),
            (ValueKind::Pointer, ValueKind::Pointer) => Some(Conversion::Bitcast),
            _ => None,
        }
    }
}

/// How a value of kind `from` is brought to kind `to`, as `conversion` says.
pub fn convert_value(from: ValueKind, to: ValueKind) -> (r: Option<Conversion>)
    ensures
        r == conversion(from, to),
{
    if from == to {
        return Some(Conversion::Keep);
    }
    match (from, to) {
        (ValueKind::Int(a), ValueKind::Int(b)) =>
            Some(if b > a { Conversion::SignExtend } else if b < a { Conversion::Truncate } else { Conversion::Keep }),
        (ValueKind::Float(a), ValueKind::Float(b)) =>
            Some(if b > a { Conversion::FloatExtend } else if b < a { Conversion::FloatTruncate } else { Conversion::Keep }),
        (ValueKind::Pointer, ValueKind::Pointer) => Some(Conversion::Bitcast),
        _ => None,
    }
}

/// How a stored value is brought to the kind of the slot: as `conversion`
/// says, and kept where it says nothing.
pub fn store_conversion(value: ValueKind, slot: ValueKind) -> (r: Conversion)
    ensures
        r == match conversion(value, slot) {
            Some(c) => c,
            None => Conversion::Keep,
        },
{
    match convert_value(value, slot) {
        Some(c) => c,
        None => Conversion::Keep,
    }
}

/// The conversions of call arguments to the parameters, or the error text:
/// a different number of arguments, or the first argument that cannot be converted.
pub open spec fn argument_conversions(function: Seq<char>, args: Seq<ValueKind>, params: Seq<ValueKind>) -> Result<Seq<Conversion>, Seq<char>> {
    if args.len() != params.len() {
        Err("関数 "@ + function + " の引数の数が一致しません。期待: "@ + decimal(params.len()) + ", 実際: "@ + decimal(args.len()))
    } else {
        first_conversions(args, params, 0)
    }
}

/// The conversions of `args[i..]`, or the error of the first that has none.
pub open spec fn first_conversions(args: Seq<ValueKind>, params: Seq<ValueKind>, i: int) -> Result<Seq<Conversion>, Seq<char>>
    decreases args.len() - i,
{
    if i < 0 || i >= args.len() {
        Ok(seq![])
    } else {
        match conversion(args[i], params[i]) {
            None => Err("引数 "@ + decimal(i as nat) + " の型を変換できません"@),
            Some(c) => match first_conversions(args, params, i + 1) {
                Ok(rest) => Ok(seq![c] + rest),
                Err(e) => Err(e),
            },
        }
    }
}

/// The conversions of call arguments, as `argument_conversions` says.
pub fn convert_arguments(function: &String, args: &Vec<ValueKind>, params: &Vec<ValueKind>) -> (r: Result<Vec<Conversion>, EidosError>)
    ensures
        match argument_conversions(function@, args@, params@) {
            Ok(cs) => r matches Ok(v) && v@ == cs,
            Err(t) => r matches Err(EidosError::BackendError(m)) && m@ == t,
        },
{
    if args.len() != params.len() {
        let mut m = string_of("関数 ");
        append_str(&mut m, function.as_str());
        append_str(&mut m, " の引数の数が一致しません。期待: ");
        push_decimal(&mut m, params.len());
        append_str(&mut m, ", 実際: ");
        push_decimal(&mut m, args.len());
        return Err(EidosError::BackendError(m));
    }
    let mut out: Vec<Conversion> = Vec::new();
    let mut k: usize = 0;
    while k < args.len()
        invariant
            args@.len() == params@.len(),
            k <= args@.len(),
            forall|j: int| 0 <= j < k ==> conversion(args@[j], params@[j]) is Some,
            out@.len() == k,
            forall|j: int| 0 <= j < k ==> Some(#[trigger] out@[j]) == conversion(args@[j], params@[j]),
        decreases args@.len() - k,
    {
        match convert_value(args[k], params[k]) {
            Some(c) => {
                out.push(c);
            },
            None => {
                proof {
                    lemma_first_conversions_fail(args@, params@, 0, k as int);
                }
                let mut m = string_of("引数 ");
                push_decimal(&mut m, k);
                append_str(&mut m, " の型を変換できません");
                return Err(EidosError::BackendError(m));
            },
        }
        k = k + 1;
    }
    proof {
        lemma_first_conversions_ok(args@, params@, 0, out@);
    }
    Ok(out)
}

proof fn lemma_first_conversions_fail(args: Seq<ValueKind>, params: Seq<ValueKind>, i: int, k: int)
    requires
        0 <= i <= k < args.len(),
        args.len() == params.len(),
        forall|j: int| i <= j < k ==> conversion(args[j], params[j]) is Some,
        conversion(args[k], params[k]) is None,
    ensures
        first_conversions(args, params, i) == Err::<Seq<Conversion>, Seq<char>>("引数 "@ + decimal(k as nat) + " の型を変換できません"@),
    decreases k - i,
{
    if i < k {
        lemma_first_conversions_fail(args, params, i + 1, k);
    }
}

proof fn lemma_first_conversions_ok(args: Seq<ValueKind>, params: Seq<ValueKind>, i: int, out: Seq<Conversion>)
    requires
        0 <= i <= args.len(),
        args.len() == params.len(),
        out.len() == args.len(),
        forall|j: int| 0 <= j < args.len() ==> Some(#[trigger] out[j]) == conversion(args[j], params[j]),
    ensures
        first_conversions(args, params, i) == Ok::<Seq<Conversion>, Seq<char>>(out.skip(i)),
    decreases args.len() - i,
{
    if i < args.len() {
        lemma_first_conversions_ok(args, params, i + 1, out);
        assert(seq![out[i]] + out.skip(i + 1) =~= out.skip(i));
    } else {
        assert(out.skip(i) =~= Seq::<Conversion>::empty());
    }
}

/// Whether `p` occurs in `s`.
pub open spec fn has_infix(s: Seq<char>, p: Seq<char>) -> bool {
    exists|i: int| 0 <= i && i + p.len() <= s.len() && #[trigger] s.subrange(i, i + p.len()) == p
}

fn contains_text(s: &String, p: &str) -> (r: bool)
    ensures
        r == has_infix(s@, p@),
{
    let sc = crate::util::str_to_chars(s.as_str());
    let pc = crate::util::str_to_chars(p);
    if pc.len() > sc.len() {
        proof {
            assert forall|i: int| 0 <= i && i + p@.len() <= s@.len() implies #[trigger] s@.subrange(i, i + p@.len()) != p@ by {}
        }
        return false;
    }
    let limit = sc.len() - pc.len();
    let mut i: usize = 0;
    loop
        invariant
            sc@ == s@,
            pc@ == p@,
            limit + pc@.len() == sc.len(),
            i <= limit,
            forall|j: int| 0 <= j < i ==> #[trigger] s@.subrange(j, j + p@.len()) != p@,
        ensures
            forall|j: int| 0 <= j <= limit ==> #[trigger] s@.subrange(j, j + p@.len()) != p@,
        decreases limit - i,
    {
        let mut k: usize = 0;
        let mut same = true;
        while k < pc.len()
            invariant
                sc@ == s@,
                pc@ == p@,
                i + pc@.len() <= sc.len(),
                k <= pc@.len(),
                same == (forall|j: int| 0 <= j < k ==> sc@[i + j] == pc@[j]),
            decreases pc@.len() - k,
        {
            if sc[i + k] != pc[k] {
                same = false;
            }
            k = k + 1;
        }
        if same {
            proof {
                assert(s@.subrange(i as int, i + p@.len()) =~= p@);
            }
            return true;
        }
        proof {
            let j = choose|j: int| 0 <= j < pc@.len() && sc@[i + j] != pc@[j];
            assert(s@.subrange(i as int, i + p@.len())[j] != p@[j]);
        }
        if i == limit {
            break;
        }
        i = i + 1;
    }
    false
}

/// The calling convention a function's name asks for.
pub open spec fn call_convention_of(name: Seq<char>) -> CallConv {
    if has_infix(name, "_stdcall"@) {
        CallConv::X86Stdcall
    } else if has_infix(name, "_fastcall"@) {
        CallConv::X86Fastcall
    } else {
        CallConv::Default
    }
}

/// The calling convention of a call to `function`, as `call_convention_of` says.
pub fn call_convention(function: &String) -> (r: CallConv)
    ensures
        r == call_convention_of(function@),
{
    if contains_text(function, "_stdcall") {
        CallConv::X86Stdcall
    } else if contains_text(function, "_fastcall") {
        CallConv::X86Fastcall
    } else {
        CallConv::Default
    }
}

/// Whether a call to `function` is a tail call: its name holds `_tail`.
pub fn is_tail_call(function: &String) -> (r: bool)
    ensures
        r == has_infix(function@, "_tail"@),
{
    contains_text(function, "_tail")
}


// ---------------------------------------------------------------------------
// LLVM alignments.

/// The alignment of a value of an LLVM type: an integer's width in bytes,
/// between 1 and 8; 8 for a double; the pointer size for pointers and
/// function pointers; 16 for structs.
pub open spec fn alignment_of(t: LType, pointer_size: u32) -> u32 {
    match t {
        LType::Int(bits) => if bits / 8 < 1 { 1 } else if bits / 8 > 8 { 8 } else { (bits / 8) as u32 },
        LType::Double => 8,
        LType::Pointer(_) => pointer_size,
        LType::FunctionPointer(_, _) => pointer_size,
        LType::Struct(_) => 16,
        LType::NamedStruct(_, _) => 16,
    }
}

/// The alignment of a value of an LLVM type, as `alignment_of` says.
pub fn type_alignment(t: &LlvmType, pointer_size: u32) -> (r: u32)
    ensures
        r == alignment_of(ltype(*t), pointer_size),
{
    match t {
        LlvmType::Int(bits) => {
            let b = *bits / 8;
            if b < 1 {
                1
            } else if b > 8 {
                8
            } else {
                b
            }
        },
        LlvmType::Double => 8,
        LlvmType::Pointer(_) => pointer_size,
        LlvmType::FunctionPointer(_, _) => pointer_size,
        LlvmType::Struct(_) => 16,
        LlvmType::NamedStruct(_, _) => 16,
    }
}

/// The alignment of a load through a pointer of type `ptr`: that of the
/// pointee, or 8 when `ptr` is no plain pointer.
pub fn load_alignment(ptr: &LlvmType, pointer_size: u32) -> (r: u32)
    ensures
        r == match ltype(*ptr) {
            LType::Pointer(e) => alignment_of(*e, pointer_size),
            _ => 8,
        },
{
    match ptr {
        LlvmType::Pointer(e) => type_alignment(e, pointer_size),
        _ => 8,
    }
}

/// The alignment of a store of a value of type `value` through a pointer of
/// type `ptr`: that of the pointee, or that of the value when `ptr` is no
/// plain pointer.
pub fn store_alignment(ptr: &LlvmType, value: &LlvmType, pointer_size: u32) -> (r: u32)
    ensures
        r == match ltype(*ptr) {
            LType::Pointer(e) => alignment_of(*e, pointer_size),
            _ => alignment_of(ltype(*value), pointer_size),
        },
{
    match ptr {
        LlvmType::Pointer(e) => type_alignment(e, pointer_size),
        _ => type_alignment(value, pointer_size),
    }
}

/// Instruction selection follows the type of the left operand: on integers
/// of any width the integer add, subtract, multiply, signed divide and signed
/// remainder; on floats of any width the float add, subtract, multiply and
/// divide; no float remainder, and no instruction for comparisons, bitwise
/// and logical operators here.
pub proof fn lemma_binary_selection_meaning(op: EirBinaryOp, w: u32)
    ensures
        op == EirBinaryOp::Add ==> binary_selection(op, ValueKind::Int(w)) == Ok::<LlvmOp, Seq<char>>(LlvmOp::IntAdd)
            && binary_selection(op, ValueKind::Float(w)) == Ok::<LlvmOp, Seq<char>>(LlvmOp::FloatAdd),
        op == EirBinaryOp::Sub ==> binary_selection(op, ValueKind::Int(w)) == Ok::<LlvmOp, Seq<char>>(LlvmOp::IntSub)
            && binary_selection(op, ValueKind::Float(w)) == Ok::<LlvmOp, Seq<char>>(LlvmOp::FloatSub),
        op == EirBinaryOp::Mul ==> binary_selection(op, ValueKind::Int(w)) == Ok::<LlvmOp, Seq<char>>(LlvmOp::IntMul)
            && binary_selection(op, ValueKind::Float(w)) == Ok::<LlvmOp, Seq<char>>(LlvmOp::FloatMul),
        op == EirBinaryOp::Div ==> binary_selection(op, ValueKind::Int(w)) == Ok::<LlvmOp, Seq<char>>(LlvmOp::IntSignedDiv)
            && binary_selection(op, ValueKind::Float(w)) == Ok::<LlvmOp, Seq<char>>(LlvmOp::FloatDiv),
        op == EirBinaryOp::Rem ==> binary_selection(op, ValueKind::Int(w)) == Ok::<LlvmOp, Seq<char>>(LlvmOp::IntSignedRem)
            && binary_selection(op, ValueKind::Float(w)) is Err,
        !(op == EirBinaryOp::Add || op == EirBinaryOp::Sub || op == EirBinaryOp::Mul || op == EirBinaryOp::Div
            || op == EirBinaryOp::Rem) ==> binary_selection(op, ValueKind::Int(w)) is Err,
        binary_selection(op, ValueKind::Pointer) is Err,
        binary_selection(op, ValueKind::Other) is Err,
{
}

/// Negation of an integer is the integer negation and of a float the float
/// negation; logical negation applies to integers (booleans) only; other
/// unary operators and operand kinds have no instruction.
pub proof fn lemma_unary_selection_meaning(w: u32)
    ensures
        unary_selection(EirUnaryOp::Neg, ValueKind::Int(w)) == Ok::<LlvmOp, Seq<char>>(LlvmOp::IntNeg),
        unary_selection(EirUnaryOp::Neg, ValueKind::Float(w)) == Ok::<LlvmOp, Seq<char>>(LlvmOp::FloatNeg),
        unary_selection(EirUnaryOp::Not, ValueKind::Int(w)) == Ok::<LlvmOp, Seq<char>>(LlvmOp::Not),
        unary_selection(EirUnaryOp::Not, ValueKind::Float(w)) is Err,
        unary_selection(EirUnaryOp::Neg, ValueKind::Pointer) is Err,
        unary_selection(EirUnaryOp::BitNot, ValueKind::Int(w)) is Err,
        unary_selection(EirUnaryOp::Cast, ValueKind::Int(w)) is Err,
{
}

/// A value is converted by width: an integer to a wider integer is
/// sign-extended and to a narrower one truncated, a float to a wider float
/// extended and to a narrower one truncated, a value of the same kind kept;
/// integers and floats do not convert into each other.
pub proof fn lemma_conversion_meaning(a: u32, b: u32)
    ensures
        a < b ==> conversion(ValueKind::Int(a), ValueKind::Int(b)) == Some(Conversion::SignExtend),
        a > b ==> conversion(ValueKind::Int(a), ValueKind::Int(b)) == Some(Conversion::Truncate),
        a < b ==> conversion(ValueKind::Float(a), ValueKind::Float(b)) == Some(Conversion::FloatExtend),
        a > b ==> conversion(ValueKind::Float(a), ValueKind::Float(b)) == Some(Conversion::FloatTruncate),
        conversion(ValueKind::Int(a), ValueKind::Int(a)) == Some(Conversion::Keep),
        conversion(ValueKind::Float(a), ValueKind::Float(a)) == Some(Conversion::Keep),
        conversion(ValueKind::Pointer, ValueKind::Pointer) == Some(Conversion::Keep),
        conversion(ValueKind::Int(a), ValueKind::Float(b)) is None,
        conversion(ValueKind::Float(a), ValueKind::Int(b)) is None,
{
}

/// The primitive types lower to the LLVM types of their size: unit to the
/// empty struct, `bool` to `i1`, `int` to `i64`, `float` to `double`, `char`
/// to `i32` and a string to a pointer to `i8`.
pub proof fn lemma_primitive_lowering(t: Type)
    ensures
        t.kind is Unit ==> lowered(t) == Ok::<LType, Type>(LType::Struct(seq![])),
        t.kind is Bool ==> lowered(t) == Ok::<LType, Type>(LType::Int(1)),
        t.kind is Int ==> lowered(t) == Ok::<LType, Type>(LType::Int(64)),
        t.kind is Float ==> lowered(t) == Ok::<LType, Type>(LType::Double),
        t.kind is Char ==> lowered(t) == Ok::<LType, Type>(LType::Int(32)),
        t.kind is String ==> lowered(t) == Ok::<LType, Type>(LType::Pointer(Box::new(LType::Int(8)))),
{
}

/// An integer is aligned to its width in whole bytes, at least 1 and at most 8.
pub proof fn lemma_int_alignment(bits: u32, pointer_size: u32)
    ensures
        bits < 8 ==> alignment_of(LType::Int(bits), pointer_size) == 1,
        8 <= bits < 72 ==> alignment_of(LType::Int(bits), pointer_size) == bits / 8,
        72 <= bits ==> alignment_of(LType::Int(bits), pointer_size) == 8,
        alignment_of(LType::Double, pointer_size) == 8,
{
}

/// The WebAssembly representation of the basic types: `int` an `i64` of 8
/// bytes, `float` an `f64` of 8 bytes, `bool` an `i32` of 1 byte, `char` an
/// `i32` of 4 bytes, unit an `i32` of no bytes; a string is an `i32` address.
pub proof fn lemma_wasm_representation(t: Type)
    ensures
        t.kind is Int ==> wasm_val_type(t.kind) == Some(WasmValType::I64) && wasm_size(t.kind) == 8,
        t.kind is Float ==> wasm_val_type(t.kind) == Some(WasmValType::F64) && wasm_size(t.kind) == 8,
        t.kind is Bool ==> wasm_val_type(t.kind) == Some(WasmValType::I32) && wasm_size(t.kind) == 1,
        t.kind is Char ==> wasm_val_type(t.kind) == Some(WasmValType::I32) && wasm_size(t.kind) == 4,
        t.kind is Unit ==> wasm_val_type(t.kind) == Some(WasmValType::I32) && wasm_size(t.kind) == 0,
        t.kind is String ==> wasm_val_type(t.kind) == Some(WasmValType::I32),
        t.kind is Int ==> global_alignment(t.kind) == 8,
        t.kind is Float ==> global_alignment(t.kind) == 8,
        t.kind is Struct ==> global_alignment(t.kind) == 16,
{
}

} // verus!
