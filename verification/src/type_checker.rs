use vstd::prelude::*;

use crate::assoc::AssocMap;
use crate::ast::{ASTNode, BinaryOp, FunctionParam, Literal, Node, NodeId, Program, TypeInfo, UnaryOp};
use crate::error::{location_text, EidosError, SourceLocation};
use crate::symbol::SymbolId;
use crate::types::{
    lemma_shapes_push, same_shape, shape, shape_text, shapes, type_text, Shape, Type, TypeEnvModel, TypeEnvironment,
    TypeIdSource, TypeKind, TypeId, is_builtin_env,
};
use crate::util::{append_str, decimal, push_decimal, string_of};

verus! {

// ---------------------------------------------------------------------------
// The typing rules.

/// The variables in scope and the shapes of their types.
pub type Vars = Map<Seq<char>, Shape>;

/// A type error: its message and where it occurred.
pub type TErr = (Seq<char>, SourceLocation);

/// An integer or a float.
pub open spec fn is_numeric(s: Shape) -> bool {
    s is Int || s is Float
}

/// Whether a value of shape `from` may stand where `to` is expected: the
/// shapes are equal, or either is unknown.
pub open spec fn assignable(from: Shape, to: Shape) -> bool {
    from == to || from is Unknown || to is Unknown
}

/// Whether two shapes may be compared: they are equal, or both numeric.
pub open spec fn comparable(a: Shape, b: Shape) -> bool {
    a == b || (is_numeric(a) && is_numeric(b))
}

/// The shape of a literal.
pub open spec fn literal_shape(l: Literal) -> Shape {
    match l {
        Literal::Int(_) => Shape::Int,
        Literal::Float(_) => Shape::Float,
        Literal::Bool(_) => Shape::Bool,
        Literal::Char(_) => Shape::Char,
        Literal::String(_) => Shape::Str,
        Literal::Unit => Shape::Unit,
    }
}

/// The name of a binary operator.
pub open spec fn binary_op_name(op: BinaryOp) -> Seq<char> {
    match op {
        BinaryOp::Add => "Add"@,
        BinaryOp::Sub => "Sub"@,
        BinaryOp::Mul => "Mul"@,
        BinaryOp::Div => "Div"@,
        BinaryOp::Mod => "Mod"@,
        BinaryOp::BitAnd => "BitAnd"@,
        BinaryOp::BitOr => "BitOr"@,
        BinaryOp::BitXor => "BitXor"@,
        BinaryOp::LShift => "LShift"@,
        BinaryOp::RShift => "RShift"@,
        BinaryOp::Eq => "Eq"@,
        BinaryOp::NotEq => "NotEq"@,
        BinaryOp::Lt => "Lt"@,
        BinaryOp::LtEq => "LtEq"@,
        BinaryOp::Gt => "Gt"@,
        BinaryOp::GtEq => "GtEq"@,
        BinaryOp::And => "And"@,
        BinaryOp::Or => "Or"@,
    }
}

/// `l op r`, as messages show it.
pub open spec fn operation_text(l: Shape, op: BinaryOp, r: Shape) -> Seq<char> {
    shape_text(l) + " "@ + binary_op_name(op) + " "@ + shape_text(r)
}

/// The message for a mismatch between an expected and an actual shape.
pub open spec fn mismatch_text(prefix: Seq<char>, expected: Shape, actual: Shape) -> Seq<char> {
    prefix + "期待 "@ + shape_text(expected) + ", 実際 "@ + shape_text(actual)
}

/// The shape of `l op r`, or the error at `loc`.
pub open spec fn binary_result(op: BinaryOp, l: Shape, r: Shape, loc: SourceLocation) -> Result<Shape, TErr> {
    match op {
        BinaryOp::Add | BinaryOp::Sub | BinaryOp::Mul | BinaryOp::Div | BinaryOp::Mod => {
            if is_numeric(l) && is_numeric(r) {
                if l is Float || r is Float { Ok(Shape::Float) } else { Ok(Shape::Int) }
            } else if op == BinaryOp::Add && (l is Str || r is Str) {
                Ok(Shape::Str)
            } else {
                Err(("不適切な演算: "@ + operation_text(l, op, r), loc))
            }
        },
        BinaryOp::Eq | BinaryOp::NotEq | BinaryOp::Lt | BinaryOp::LtEq | BinaryOp::Gt | BinaryOp::GtEq => {
            if comparable(l, r) {
                Ok(Shape::Bool)
            } else {
                Err(("比較できない型: "@ + operation_text(l, op, r), loc))
            }
        },
        BinaryOp::And | BinaryOp::Or => {
            if l is Bool && r is Bool {
                Ok(Shape::Bool)
            } else {
                Err(("論理演算子はブール型のみサポート: "@ + operation_text(l, op, r), loc))
            }
        },
        _ => Err(("未サポートの演算子: "@ + binary_op_name(op), loc)),
    }
}

/// The shape of `op e` where `e` has shape `s`, or the error at `loc`.
pub open spec fn unary_result(op: UnaryOp, s: Shape, loc: SourceLocation) -> Result<Shape, TErr> {
    match op {
        UnaryOp::Neg => if is_numeric(s) {
            Ok(s)
        } else {
            Err(("負数化は数値型のみサポート: "@ + shape_text(s), loc))
        },
        UnaryOp::Not => if s is Bool {
            Ok(Shape::Bool)
        } else {
            Err(("論理否定はブール型のみサポート: "@ + shape_text(s), loc))
        },
        UnaryOp::BitNot => Err(("未サポートの単項演算子: BitNot"@, loc)),
    }
}

/// The shape of an `if` with both branches, or the error at `loc`.
pub open spec fn branches_result(t: Shape, e: Shape, loc: SourceLocation) -> Result<Shape, TErr> {
    if assignable(t, e) {
        Ok(t)
    } else if assignable(e, t) {
        Ok(e)
    } else {
        Err(("if-elseの各分岐の型が一致しません: "@ + shape_text(t) + " と "@ + shape_text(e), loc))
    }
}

/// The index of the first argument whose shape may not stand for its parameter's.
pub open spec fn first_bad_arg(args: Seq<Shape>, params: Seq<Shape>, i: int) -> int
    decreases args.len() - i,
{
    if i >= args.len() || i < 0 {
        args.len() as int
    } else if !assignable(args[i], params[i]) {
        i
    } else {
        first_bad_arg(args, params, i + 1)
    }
}

/// The result of calling a function with parameters `params` and result
/// `ret` on arguments of shapes `args`, or the error at `loc`.
pub open spec fn call_result(params: Seq<Shape>, ret: Shape, args: Seq<Shape>, loc: SourceLocation) -> Result<Shape, TErr> {
    if args.len() != params.len() {
        Err(("引数の数が一致しません: 期待 "@ + decimal(params.len()) + ", 実際 "@ + decimal(args.len()), loc))
    } else {
        let i = first_bad_arg(args, params, 0);
        if i < args.len() {
            Err((mismatch_text("引数 #"@ + decimal((i + 1) as nat) + " の型が一致しません: "@, params[i], args[i]), loc))
        } else {
            Ok(ret)
        }
    }
}

/// Binds the parameters in `vars`, in order: the shapes of their types, or
/// the error at `loc` for the first one without a type.
pub open spec fn bind_params(vars: Vars, ps: Seq<FunctionParam>, loc: SourceLocation) -> (Result<Seq<Shape>, TErr>, Vars)
    decreases ps.len(),
{
    if ps.len() == 0 {
        (Ok(seq![]), vars)
    } else {
        let (r, v) = bind_params(vars, ps.drop_last(), loc);
        match r {
            Err(e) => (Err(e), v),
            Ok(ss) => match ps.last().param_type {
                Some(t) => (Ok(ss.push(shape(t))), v.insert(ps.last().name@, shape(t))),
                None => (Err(("パラメータ"@ + ps.last().name@ + "に型注釈が必要です"@, loc)), v),
            },
        }
    }
}

/// The shape of an expression under the variables `vars`, and the variables
/// after it; or the first type error.
pub open spec fn infer(vars: Vars, n: ASTNode) -> (Result<Shape, TErr>, Vars)
    decreases n,
{
    let loc = n.location;
    match n.kind {
        Node::Literal(l) => (Ok(literal_shape(l)), vars),
        Node::Identifier { name, .. } => if vars.contains_key(name@) {
            (Ok(vars[name@]), vars)
        } else {
            (Err(("未定義の変数: "@ + name@, loc)), vars)
        },
        Node::BinaryExpr { op, left, right } => {
            let (lr, v1) = infer(vars, *left);
            match lr {
                Err(e) => (Err(e), v1),
                Ok(lt) => {
                    let (rr, v2) = infer(v1, *right);
                    match rr {
                        Err(e) => (Err(e), v2),
                        Ok(rt) => (binary_result(op, lt, rt, loc), v2),
                    }
                },
            }
        },
        Node::UnaryExpr { op, expr } => {
            let (r, v1) = infer(vars, *expr);
            match r {
                Err(e) => (Err(e), v1),
                Ok(s) => (unary_result(op, s, loc), v1),
            }
        },
        Node::IfExpr { condition, then_branch, else_branch } => {
            let (cr, v1) = infer(vars, *condition);
            match cr {
                Err(e) => (Err(e), v1),
                Ok(ct) => if !(ct is Bool) {
                    (Err(("条件式はブール型である必要があります: "@ + shape_text(ct), loc)), v1)
                } else {
                    let (tr, v2) = infer(v1, *then_branch);
                    match tr {
                        Err(e) => (Err(e), v2),
                        Ok(tt) => match else_branch {
                            Some(eb) => {
                                let (er, v3) = infer(v2, *eb);
                                match er {
                                    Err(e) => (Err(e), v3),
                                    Ok(et) => (branches_result(tt, et, loc), v3),
                                }
                            },
                            None => (Ok(Shape::Unit), v2),
                        },
                    }
                },
            }
        },
        Node::BlockExpr { statements, result } => {
            let (sr, v1) = infer_stmts(vars, statements@);
            match sr {
                Err(e) => (Err(e), v1),
                Ok(_) => match result {
                    Some(r) => infer(v1, *r),
                    None => (Ok(Shape::Unit), v1),
                },
            }
        },
        Node::VarDecl { name, type_annotation, initializer, .. } => {
            let (ir, v1) = match initializer {
                Some(i) => infer(vars, *i),
                None => (Ok(Shape::Unknown), vars),
            };
            match ir {
                Err(e) => (Err(e), v1),
                Ok(it) => match type_annotation {
                    Some(t) => if initializer is Some && !assignable(it, shape(t)) {
                        (Err((mismatch_text("型の不一致: "@, shape(t), it), loc)), v1)
                    } else {
                        (Ok(Shape::Unit), v1.insert(name@, shape(t)))
                    },
                    None => if it is Unknown {
                        (Err(("型注釈か初期化子が必要です"@, loc)), v1)
                    } else {
                        (Ok(Shape::Unit), v1.insert(name@, it))
                    },
                },
            }
        },
        Node::Assignment { target, value } => {
            let (tr, v1) = infer(vars, *target);
            match tr {
                Err(e) => (Err(e), v1),
                Ok(tt) => {
                    let (vr, v2) = infer(v1, *value);
                    match vr {
                        Err(e) => (Err(e), v2),
                        Ok(vt) => if !assignable(vt, tt) {
                            (Err((mismatch_text("型の不一致: "@, tt, vt), loc)), v2)
                        } else {
                            (Ok(Shape::Unit), v2)
                        },
                    }
                },
            }
        },
        Node::FunctionDef { name, params, return_type, body, .. } => {
            let (pr, v1) = bind_params(vars, params@, loc);
            match pr {
                Err(e) => (Err(e), v1),
                Ok(ps) => {
                    let ret = match return_type {
                        Some(t) => shape(t),
                        None => Shape::Unit,
                    };
                    let (br, v2) = infer(v1, *body);
                    match br {
                        Err(e) => (Err(e), v2),
                        Ok(bt) => if !assignable(bt, ret) {
                            (Err((mismatch_text("戻り値の型の不一致: "@, ret, bt), body.location)), v2)
                        } else {
                            let f = Shape::Function(ps, Box::new(ret));
                            (Ok(f), v2.insert(name@, f))
                        },
                    }
                },
            }
        },
        Node::FunctionCall { callee, args } => {
            let (cr, v1) = infer(vars, *callee);
            match cr {
                Err(e) => (Err(e), v1),
                Ok(ct) => match ct {
                    Shape::Function(ps, ret) => {
                        let (ar, v2) = infer_args(v1, args@);
                        match ar {
                            Err(e) => (Err(e), v2),
                            Ok(ats) => (call_result(ps, *ret, ats, loc), v2),
                        }
                    },
                    _ => (Err(("呼び出し可能でない値: "@ + shape_text(ct), loc)), v1),
                },
            }
        },
        _ => (Ok(Shape::Unknown), vars),
    }
}

/// The statements of a block, in order, each under the variables the one
/// before left; or the first type error.
pub open spec fn infer_stmts(vars: Vars, ss: Seq<ASTNode>) -> (Result<(), TErr>, Vars)
    decreases ss,
{
    if ss.len() == 0 {
        (Ok(()), vars)
    } else {
        let (r, v1) = infer(vars, ss[0]);
        match r {
            Err(e) => (Err(e), v1),
            Ok(_) => infer_stmts(v1, ss.drop_first()),
        }
    }
}

/// The shapes of call arguments, in order; or the first type error.
pub open spec fn infer_args(vars: Vars, ss: Seq<ASTNode>) -> (Result<Seq<Shape>, TErr>, Vars)
    decreases ss,
{
    if ss.len() == 0 {
        (Ok(seq![]), vars)
    } else {
        let (r, v1) = infer(vars, ss[0]);
        match r {
            Err(e) => (Err(e), v1),
            Ok(s) => {
                let (rest, v2) = infer_args(v1, ss.drop_first());
                match rest {
                    Err(e) => (Err(e), v2),
                    Ok(ts) => (Ok(seq![s] + ts), v2),
                }
            },
        }
    }
}

/// The typing law of a unary expression `op e`, where `e` has the outcome
/// `r`: negation keeps the type of an integer or float operand and refuses any
/// other type; logical negation gives `bool` from `bool` and refuses any
/// other type; an error in the operand is the error of the whole.
pub open spec fn unary_typing(op: UnaryOp, r: Result<Shape, TErr>, whole: Result<Shape, TErr>, t: Shape) -> bool {
    &&& (op == UnaryOp::Neg && r == Ok::<Shape, TErr>(Shape::Int)) ==> whole == Ok::<Shape, TErr>(Shape::Int)
    &&& (op == UnaryOp::Neg && r == Ok::<Shape, TErr>(Shape::Float)) ==> whole == Ok::<Shape, TErr>(Shape::Float)
    &&& (op == UnaryOp::Neg && r == Ok::<Shape, TErr>(t) && t != Shape::Int && t != Shape::Float) ==> whole is Err
    &&& (op == UnaryOp::Not && r == Ok::<Shape, TErr>(Shape::Bool)) ==> whole == Ok::<Shape, TErr>(Shape::Bool)
    &&& (op == UnaryOp::Not && r == Ok::<Shape, TErr>(t) && t != Shape::Bool) ==> whole is Err
    &&& r is Err ==> whole == r
}

/// The typing law of a binary expression `a op b`, where `a` has the outcome
/// `ra` and `b` then `rb`: `+ - * / %` on two integers give `int` and with a
/// float operand `float`; a comparison of two values of one type, or of an
/// integer and a float, gives `bool`; `&&` and `||` on two booleans give
/// `bool`; an error in an operand is the error of the whole.
pub open spec fn binary_typing(op: BinaryOp, ra: Result<Shape, TErr>, rb: Result<Shape, TErr>, whole: Result<Shape, TErr>, t: Shape) -> bool {
    let arith = op == BinaryOp::Add || op == BinaryOp::Sub || op == BinaryOp::Mul || op == BinaryOp::Div || op == BinaryOp::Mod;
    let comparison = op == BinaryOp::Eq || op == BinaryOp::NotEq || op == BinaryOp::Lt || op == BinaryOp::LtEq || op == BinaryOp::Gt
        || op == BinaryOp::GtEq;
    let int_ok = Ok::<Shape, TErr>(Shape::Int);
    let float_ok = Ok::<Shape, TErr>(Shape::Float);
    &&& (arith && ra == int_ok && rb == int_ok) ==> whole == int_ok
    &&& (arith && ra == float_ok && (rb == int_ok || rb == float_ok)) ==> whole == float_ok
    &&& (arith && ra == int_ok && rb == float_ok) ==> whole == float_ok
    &&& (comparison && ra == Ok::<Shape, TErr>(t) && rb == Ok::<Shape, TErr>(t)) ==> whole == Ok::<Shape, TErr>(Shape::Bool)
    &&& (comparison && ((ra == int_ok && rb == float_ok) || (ra == float_ok && rb == int_ok))) ==> whole == Ok::<Shape, TErr>(Shape::Bool)
    &&& ((op == BinaryOp::And || op == BinaryOp::Or) && ra == Ok::<Shape, TErr>(Shape::Bool) && rb == Ok::<Shape, TErr>(Shape::Bool))
        ==> whole == Ok::<Shape, TErr>(Shape::Bool)
    &&& ((op == BinaryOp::And || op == BinaryOp::Or) && ra == Ok::<Shape, TErr>(t) && t != Shape::Bool) ==> whole is Err
    &&& ra is Err ==> whole == ra
    &&& (ra is Ok && rb is Err) ==> whole == rb
}

/// The typing law of a literal: each literal has its own type.
pub open spec fn literal_typing(l: Literal, whole: Result<Shape, TErr>) -> bool {
    &&& l is Int ==> whole == Ok::<Shape, TErr>(Shape::Int)
    &&& l is Float ==> whole == Ok::<Shape, TErr>(Shape::Float)
    &&& l is Bool ==> whole == Ok::<Shape, TErr>(Shape::Bool)
    &&& l is Char ==> whole == Ok::<Shape, TErr>(Shape::Char)
    &&& l is String ==> whole == Ok::<Shape, TErr>(Shape::Str)
}

/// Inference follows the typing laws of literals and of unary and binary
/// operators, for every shape `t` an operand may have.
pub proof fn lemma_operator_typing(vars: Vars, n: ASTNode, t: Shape)
    ensures
        n.kind matches Node::Literal(l) ==> literal_typing(l, infer(vars, n).0),
        n.kind matches Node::Identifier { name, .. } ==> (vars.contains_key(name@) ==> infer(vars, n).0 == Ok::<Shape, TErr>(
            vars[name@],
        )) && (!vars.contains_key(name@) ==> infer(vars, n).0 is Err),
        n.kind matches Node::UnaryExpr { op, expr } ==> unary_typing(op, infer(vars, *expr).0, infer(vars, n).0, t),
        n.kind matches Node::BinaryExpr { op, left, right } ==> binary_typing(
            op,
            infer(vars, *left).0,
            infer(infer(vars, *left).1, *right).0,
            infer(vars, n).0,
            t,
        ),
{
}

/// The typing law of `if c { a } else { b }`, where `c`, `a` and `b` have
/// the outcomes `rc`, `ra` and `rb` (`rb` absent without an `else`): a
/// condition that is not `bool` is refused; with a `bool` condition, branches
/// of one type `t` give `t`, and an `if` without `else` gives unit; an error in
/// the condition is the error of the whole.
pub open spec fn if_typing(rc: Result<Shape, TErr>, ra: Result<Shape, TErr>, rb: Option<Result<Shape, TErr>>, whole: Result<Shape, TErr>, t: Shape) -> bool {
    &&& (rc == Ok::<Shape, TErr>(t) && t != Shape::Bool) ==> whole is Err
    &&& (rc == Ok::<Shape, TErr>(Shape::Bool) && ra == Ok::<Shape, TErr>(t) && rb == Some(Ok::<Shape, TErr>(t))) ==> whole == Ok::<Shape, TErr>(t)
    &&& (rc == Ok::<Shape, TErr>(Shape::Bool) && ra is Ok && rb is None) ==> whole == Ok::<Shape, TErr>(Shape::Unit)
    &&& rc is Err ==> whole == rc
}

/// The outcomes of the condition and the branches of an `if`, each under the
/// variables the part before it left.
pub open spec fn if_parts(vars: Vars, c: ASTNode, a: ASTNode, b: Option<Box<ASTNode>>) -> (Result<Shape, TErr>, Result<Shape, TErr>, Option<Result<Shape, TErr>>) {
    let (rc, v1) = infer(vars, c);
    let (ra, v2) = infer(v1, a);
    (rc, ra, match b {
        Some(e) => Some(infer(v2, *e).0),
        None => None,
    })
}

/// The typing law of a call `f(args)` where `f` has a function type with
/// parameters `ps` and result `ret`, and the arguments have the shapes
/// `ats`: a wrong number of arguments is refused, and arguments of exactly
/// the parameters' types give `ret`.
pub open spec fn call_typing(rf: Result<Shape, TErr>, ra: Result<Seq<Shape>, TErr>, whole: Result<Shape, TErr>, ps: Seq<Shape>, ret: Shape) -> bool {
    &&& (rf == Ok::<Shape, TErr>(Shape::Function(ps, Box::new(ret))) && ra is Ok && ra->Ok_0.len() != ps.len()) ==> whole is Err
    &&& (rf == Ok::<Shape, TErr>(Shape::Function(ps, Box::new(ret))) && ra == Ok::<Seq<Shape>, TErr>(ps)) ==> whole == Ok::<Shape, TErr>(ret)
    &&& (rf == Ok::<Shape, TErr>(Shape::Int) || rf == Ok::<Shape, TErr>(Shape::Bool)) ==> whole is Err
}

proof fn lemma_no_bad_arg(ps: Seq<Shape>, i: int)
    requires
        0 <= i <= ps.len(),
    ensures
        first_bad_arg(ps, ps, i) == ps.len(),
    decreases ps.len() - i,
{
    if i < ps.len() {
        lemma_no_bad_arg(ps, i + 1);
    }
}

/// Inference follows the typing laws of `if` and of calls.
pub proof fn lemma_control_typing(vars: Vars, n: ASTNode, t: Shape, ps: Seq<Shape>, ret: Shape)
    ensures
        n.kind matches Node::IfExpr { condition, then_branch, else_branch } ==> if_typing(
            if_parts(vars, *condition, *then_branch, else_branch).0,
            if_parts(vars, *condition, *then_branch, else_branch).1,
            if_parts(vars, *condition, *then_branch, else_branch).2,
            infer(vars, n).0,
            t,
        ),
        n.kind matches Node::FunctionCall { callee, args } ==> call_typing(
            infer(vars, *callee).0,
            infer_args(infer(vars, *callee).1, args@).0,
            infer(vars, n).0,
            ps,
            ret,
        ),
{
    lemma_no_bad_arg(ps, 0);
}

/// The typing law of `let x: t = e`, where `e` has the outcome `ri` with
/// the variables `v1` after it, and the whole the outcome `whole` with the
/// variables `after`: an initializer of the annotated type, or without an
/// annotation of a known type, gives unit and binds `x` to that type; an
/// initializer of another known type than the annotation is refused; a
/// declaration with neither is refused.
pub open spec fn decl_typing(name: Seq<char>, ann: Option<Shape>, has_init: bool, ri: Result<Shape, TErr>, v1: Vars, whole: Result<Shape, TErr>, after: Vars, t: Shape) -> bool {
    &&& (ann == Some(t) && has_init && ri == Ok::<Shape, TErr>(t)) ==> whole == Ok::<Shape, TErr>(Shape::Unit) && after == v1.insert(name, t)
    &&& (ann is None && has_init && ri == Ok::<Shape, TErr>(t) && t != Shape::Unknown) ==> whole == Ok::<Shape, TErr>(Shape::Unit)
        && after == v1.insert(name, t)
    &&& (ann matches Some(a) && a != t && a != Shape::Unknown && t != Shape::Unknown && has_init && ri == Ok::<Shape, TErr>(t)) ==> whole is Err
    &&& (ann is None && !has_init) ==> whole is Err
}

/// The typing law of `x = e`, where `x` has the outcome `rt` and `e` then
/// `rv`: a value of the target's type gives unit, a value of another known
/// type is refused.
pub open spec fn assign_typing(rt: Result<Shape, TErr>, rv: Result<Shape, TErr>, whole: Result<Shape, TErr>, t: Shape, u: Shape) -> bool {
    &&& (rt == Ok::<Shape, TErr>(t) && rv == Ok::<Shape, TErr>(t)) ==> whole == Ok::<Shape, TErr>(Shape::Unit)
    &&& (rt == Ok::<Shape, TErr>(t) && rv == Ok::<Shape, TErr>(u) && t != u && t != Shape::Unknown && u != Shape::Unknown) ==> whole is Err
}

/// Inference follows the typing laws of declarations and assignments.
pub proof fn lemma_binding_typing(vars: Vars, n: ASTNode, t: Shape, u: Shape)
    ensures
        n.kind matches Node::VarDecl { name, type_annotation, initializer, .. } ==> decl_typing(
            name@,
            match type_annotation {
                Some(a) => Some(shape(a)),
                None => None,
            },
            initializer is Some,
            match initializer {
                Some(i) => infer(vars, *i).0,
                None => Ok::<Shape, TErr>(Shape::Unknown),
            },
            match initializer {
                Some(i) => infer(vars, *i).1,
                None => vars,
            },
            infer(vars, n).0,
            infer(vars, n).1,
            t,
        ),
        n.kind matches Node::Assignment { target, value } ==> assign_typing(
            infer(vars, *target).0,
            infer(infer(vars, *target).1, *value).0,
            infer(vars, n).0,
            t,
            u,
        ),
{
}

/// The number of nodes of an expression.
pub open spec fn node_count(n: ASTNode) -> nat
    decreases n,
{
    1 + match n.kind {
        Node::UnaryExpr { expr, .. } => node_count(*expr),
        Node::BinaryExpr { left, right, .. } => node_count(*left) + node_count(*right),
        Node::IfExpr { condition, then_branch, else_branch } => node_count(*condition) + node_count(*then_branch)
            + match else_branch {
            Some(e) => node_count(*e),
            None => 0,
        },
        Node::BlockExpr { statements, result } => nodes_count(statements@) + match result {
            Some(r) => node_count(*r),
            None => 0,
        },
        Node::VarDecl { initializer, .. } => match initializer {
            Some(i) => node_count(*i),
            None => 0,
        },
        Node::FunctionDef { body, .. } => node_count(*body),
        Node::FunctionCall { callee, args } => node_count(*callee) + nodes_count(args@),
        Node::Assignment { target, value } => node_count(*target) + node_count(*value),
        Node::WhileLoop { condition, body } => node_count(*condition) + node_count(*body),
        Node::DSLBlock { processed_ast, .. } => match processed_ast {
            Some(p) => node_count(*p),
            None => 0,
        },
        _ => 0,
    }
}

/// The number of nodes of a list of expressions.
pub open spec fn nodes_count(ss: Seq<ASTNode>) -> nat
    decreases ss,
{
    if ss.len() == 0 {
        0
    } else {
        node_count(ss[0]) + nodes_count(ss.drop_first())
    }
}

/// Why checking a program stopped.
pub enum CheckFailure {
    /// A top-level node id with no node.
    Missing(NodeId),
    /// A type error.
    Type(TErr),
}

/// Checks the top-level nodes `ids` of node map `map` in order: the failure
/// that stopped it, if any, the shapes found so far by node id, and the variables.
pub open spec fn check_nodes(vars: Vars, ids: Seq<NodeId>, map: Map<usize, ASTNode>) -> (Option<CheckFailure>, Map<usize, Shape>, Vars)
    decreases ids.len(),
{
    if ids.len() == 0 {
        (None, Map::empty(), vars)
    } else {
        let (f, m, v) = check_nodes(vars, ids.drop_last(), map);
        if f is Some {
            (f, m, v)
        } else {
            let id = ids.last();
            if !map.contains_key(id.0) {
                (Some(CheckFailure::Missing(id)), m, v)
            } else {
                let (r, v2) = infer(v, map[id.0]);
                match r {
                    Err(e) => (Some(CheckFailure::Type(e)), m, v2),
                    Ok(sh) => (None, m.insert(id.0, sh), v2),
                }
            }
        }
    }
}

/// The number of nodes under the top-level ids `ids`.
pub open spec fn program_count(ids: Seq<NodeId>, map: Map<usize, ASTNode>) -> nat
    decreases ids.len(),
{
    if ids.len() == 0 {
        0
    } else {
        (if map.contains_key(ids[0].0) { node_count(map[ids[0].0]) } else { 0 }) + program_count(ids.drop_first(), map)
    }
}

/// The message for a top-level id without a node.
pub open spec fn missing_node_text(id: NodeId) -> Seq<char> {
    "ノードが見つかりません: NodeId("@ + decimal(id.0 as nat) + ")"@
}

/// Whether `p` is program `q` with the types in `m` given to its nodes.
pub open spec fn typed_program(q: Program, p: Program, m: Map<usize, Shape>) -> bool {
    &&& p.nodes@ == q.nodes@
    &&& p.file_path == q.file_path
    &&& p.node_map@.dom() == q.node_map@.dom()
    &&& forall|k: usize| #[trigger] q.node_map@.contains_key(k) ==> {
        &&& p.node_map@[k].id == q.node_map@[k].id
        &&& p.node_map@[k].kind == q.node_map@[k].kind
        &&& p.node_map@[k].location == q.node_map@[k].location
        &&& m.contains_key(k) ==> (p.node_map@[k].type_info matches TypeInfo::Resolved(t) && shape(t) == m[k])
        &&& !m.contains_key(k) ==> p.node_map@[k].type_info == q.node_map@[k].type_info
    }
}

proof fn lemma_check_nodes_stop(v: Vars, ids: Seq<NodeId>, i: int, map: Map<usize, ASTNode>)
    requires
        0 <= i < ids.len(),
        check_nodes(v, ids.take(i + 1), map).0 is Some,
    ensures
        check_nodes(v, ids, map) == check_nodes(v, ids.take(i + 1), map),
    decreases ids.len() - i,
{
    if i + 1 < ids.len() {
        assert(ids.drop_last().take(i + 1) =~= ids.take(i + 1));
        lemma_check_nodes_stop(v, ids.drop_last(), i, map);
    } else {
        assert(ids.take(i + 1) =~= ids);
    }
}

pub(crate) proof fn lemma_program_count_step(ids: Seq<NodeId>, i: int, map: Map<usize, ASTNode>)
    requires
        0 <= i < ids.len(),
    ensures
        program_count(ids.subrange(i, ids.len() as int), map) == (if map.contains_key(ids[i].0) { node_count(map[ids[i].0]) } else { 0 })
            + program_count(ids.subrange(i + 1, ids.len() as int), map),
{
    assert(ids.subrange(i, ids.len() as int).drop_first() =~= ids.subrange(i + 1, ids.len() as int));
}

proof fn lemma_infer_same(v: Vars, a: ASTNode, b: ASTNode)
    requires
        a.kind == b.kind,
        a.location == b.location,
    ensures
        infer(v, a) == infer(v, b),
        node_count(a) == node_count(b),
{
}

/// A variable declared with a type annotation has that type afterwards: an
/// identifier naming it is inferred to have the annotated type.
pub proof fn lemma_declared_variable_type(vars: Vars, decl: ASTNode, use_site: ASTNode)
    requires
        decl.kind is VarDecl,
        decl.kind->VarDecl_type_annotation is Some,
        use_site.kind is Identifier,
        use_site.kind->Identifier_name@ == decl.kind->VarDecl_name@,
        infer(vars, decl).0 is Ok,
    ensures
        infer(infer(vars, decl).1, use_site).0 == Ok::<Shape, TErr>(shape(decl.kind->VarDecl_type_annotation->0)),
{
}

/// A variable declared without annotation has the type of its initializer.
pub proof fn lemma_inferred_variable_type(vars: Vars, decl: ASTNode, use_site: ASTNode)
    requires
        decl.kind is VarDecl,
        decl.kind->VarDecl_type_annotation is None,
        decl.kind->VarDecl_initializer is Some,
        use_site.kind is Identifier,
        use_site.kind->Identifier_name@ == decl.kind->VarDecl_name@,
        infer(vars, decl).0 is Ok,
    ensures
        infer(infer(vars, decl).1, use_site).0 == infer(vars, *decl.kind->VarDecl_initializer->0).0,
{
}

/// A defined function is bound to its type: an identifier naming it is
/// inferred to have the type its definition was given.
pub proof fn lemma_defined_function_type(vars: Vars, def: ASTNode, use_site: ASTNode)
    requires
        def.kind is FunctionDef,
        use_site.kind is Identifier,
        use_site.kind->Identifier_name@ == def.kind->FunctionDef_name@,
        infer(vars, def).0 is Ok,
    ensures
        infer(infer(vars, def).1, use_site).0 == infer(vars, def).0,
{
}

/// Expressions that bind nothing leave the variables as they were.
pub proof fn lemma_pure_expression_keeps_vars(vars: Vars, n: ASTNode)
    requires
        n.kind is Literal || n.kind is Identifier || n.kind is WhileLoop || n.kind is TypeDef || n.kind is DSLBlock,
    ensures
        infer(vars, n).1 == vars,
{
}

/// The text of a type error: `file:line:column: message`.
pub open spec fn type_error_text(e: TErr) -> Seq<char> {
    location_text(e.1) + ": "@ + e.0
}

/// The shapes of the types bound to names.
pub open spec fn vars_of(m: Map<Seq<char>, Type>) -> Vars {
    Map::new(|k: Seq<char>| m.contains_key(k), |k: Seq<char>| shape(m[k]))
}


/// Whether the result `r` is what the rules give as `res`.
pub open spec fn result_post(res: Result<Shape, TErr>, r: Result<Type, EidosError>) -> bool {
    match res {
        Ok(s) => r matches Ok(t) && shape(t) == s,
        Err(e) => r matches Err(EidosError::TypeError(m)) && m@ == type_error_text(e),
    }
}

/// The argument shapes `acc` followed by the outcome of the remaining arguments.
pub open spec fn prepend_args(acc: Seq<Shape>, r: (Result<Seq<Shape>, TErr>, Vars)) -> (Result<Seq<Shape>, TErr>, Vars) {
    (match r.0 {
        Ok(ts) => Ok(acc + ts),
        Err(e) => Err(e),
    }, r.1)
}

proof fn lemma_bind_params_err(v: Vars, ps: Seq<FunctionParam>, i: int, loc: SourceLocation)
    requires
        0 <= i < ps.len(),
        bind_params(v, ps.take(i + 1), loc).0 is Err,
    ensures
        bind_params(v, ps, loc) == bind_params(v, ps.take(i + 1), loc),
    decreases ps.len() - i,
{
    if i + 1 < ps.len() {
        assert(ps.drop_last().take(i + 1) =~= ps.take(i + 1));
        lemma_bind_params_err(v, ps.drop_last(), i, loc);
    } else {
        assert(ps.take(i + 1) =~= ps);
    }
}

pub(crate) proof fn lemma_nodes_count_step(ss: Seq<ASTNode>, i: int)
    requires
        0 <= i < ss.len(),
    ensures
        nodes_count(ss.subrange(i, ss.len() as int)) == node_count(ss[i]) + nodes_count(ss.subrange(i + 1, ss.len() as int)),
        ss.subrange(i, ss.len() as int).drop_first() == ss.subrange(i + 1, ss.len() as int),
        ss.subrange(i, ss.len() as int)[0] == ss[i],
{
    assert(ss.subrange(i, ss.len() as int).drop_first() =~= ss.subrange(i + 1, ss.len() as int));
}

/// `x`, or `usize::MAX` where `x` is larger.
pub open spec fn capped(x: nat) -> nat {
    if x < usize::MAX { x } else { usize::MAX as nat }
}

/// `a + b`, or `usize::MAX` where the sum is larger.
fn add_capped(a: usize, b: usize) -> (r: usize)
    ensures
        r == capped((a + b) as nat),
{
    if a > usize::MAX - b { usize::MAX } else { a + b }
}

/// The number of nodes of an expression, as `node_count` says, or
/// `usize::MAX` where there are more.
pub fn count_nodes(node: &ASTNode) -> (r: usize)
    ensures
        r == capped(node_count(*node)),
    decreases node,
{
    let children: usize = match &node.kind {
        Node::UnaryExpr { expr, .. } => count_nodes(expr),
        Node::BinaryExpr { left, right, .. } => add_capped(count_nodes(left), count_nodes(right)),
        Node::IfExpr { condition, then_branch, else_branch } => {
            let c = add_capped(count_nodes(condition), count_nodes(then_branch));
            match else_branch {
                Some(e) => add_capped(c, count_nodes(e)),
                None => c,
            }
        },
        Node::BlockExpr { statements, result } => {
            proof {
                assert(decreases_to!(*node => node.kind));
                assert(decreases_to!(node.kind => *statements));
            }
            let c = count_list(statements);
            match result {
                Some(r) => add_capped(c, count_nodes(r)),
                None => c,
            }
        },
        Node::VarDecl { initializer, .. } => match initializer {
            Some(i) => count_nodes(i),
            None => 0,
        },
        Node::FunctionDef { body, .. } => count_nodes(body),
        Node::FunctionCall { callee, args } => {
            proof {
                assert(decreases_to!(*node => node.kind));
                assert(decreases_to!(node.kind => *args));
            }
            add_capped(count_nodes(callee), count_list(args))
        },
        Node::Assignment { target, value } => add_capped(count_nodes(target), count_nodes(value)),
        Node::WhileLoop { condition, body } => add_capped(count_nodes(condition), count_nodes(body)),
        Node::DSLBlock { processed_ast, .. } => match processed_ast {
            Some(p) => count_nodes(p),
            None => 0,
        },
        _ => 0,
    };
    add_capped(1, children)
}

/// The number of nodes of a list of expressions, as `nodes_count` says, or
/// `usize::MAX` where there are more.
pub fn count_list(ss: &Vec<ASTNode>) -> (r: usize)
    ensures
        r == capped(nodes_count(ss@)),
    decreases ss,
{
    let mut acc: usize = 0;
    let mut i: usize = ss.len();
    proof {
        assert(ss@.subrange(i as int, ss@.len() as int) =~= Seq::<ASTNode>::empty());
    }
    while i > 0
        invariant
            i <= ss@.len(),
            acc == capped(nodes_count(ss@.subrange(i as int, ss@.len() as int))),
        decreases i,
    {
        i = i - 1;
        proof {
            lemma_nodes_count_step(ss@, i as int);
            assert(decreases_to!(ss => ss@));
            assert(decreases_to!(ss@ => ss@[i as int]));
        }
        let c = count_nodes(&ss[i]);
        acc = add_capped(c, acc);
    }
    proof {
        assert(ss@.subrange(0, ss@.len() as int) =~= ss@);
    }
    acc
}

/// The number of nodes of a program's top-level nodes, as `program_count`
/// says, or `usize::MAX` where there are more.
pub fn program_size(program: &Program) -> (r: usize)
    ensures
        r == capped(program_count(program.nodes@, program.node_map@)),
{
    let ids = &program.nodes;
    let mut acc: usize = 0;
    let mut i: usize = ids.len();
    proof {
        assert(ids@.subrange(i as int, ids@.len() as int) =~= Seq::<NodeId>::empty());
    }
    while i > 0
        invariant
            i <= ids@.len(),
            acc == capped(program_count(ids@.subrange(i as int, ids@.len() as int), program.node_map@)),
        decreases i,
    {
        i = i - 1;
        proof {
            lemma_program_count_step(ids@, i as int, program.node_map@);
        }
        let c = match program.get_node(ids[i]) {
            Some(n) => count_nodes(n),
            None => 0,
        };
        acc = add_capped(c, acc);
    }
    proof {
        assert(ids@.subrange(0, ids@.len() as int) =~= ids@);
    }
    acc
}

/// Whether `types` holds, under id `k`, the named type `name`.
pub open spec fn registered_ref(types: Map<usize, Type>, k: int, name: Seq<char>) -> bool {
    &&& types.contains_key(k as usize)
    &&& types[k as usize].id.0 == k
    &&& types[k as usize].kind matches TypeKind::TypeRef { name: n, symbol: s } && n@ == name && s is None
}

/// The standard collection types' names.
pub open spec fn stdlib_type_names() -> Seq<Seq<char>> {
    seq!["Vector"@, "HashMap"@, "HashSet"@, "LinkedList"@, "Queue"@, "Stack"@, "PriorityQueue"@]
}

/// The views of a list of string slices.
pub open spec fn stdlib_names_view(s: Seq<&str>) -> Seq<Seq<char>> {
    s.map_values(|x: &str| x@)
}

/// `m` with the names bound, in order, to consecutive ids from `base`.
pub open spec fn bind_names(m: Map<Seq<char>, TypeId>, names: Seq<Seq<char>>, base: nat) -> Map<Seq<char>, TypeId>
    decreases names.len(),
{
    if names.len() == 0 {
        m
    } else {
        bind_names(m, names.drop_last(), base).insert(names.last(), TypeId((base + names.len() - 1) as usize))
    }
}

/// What the checker promises for node `n`: the rules' result and
/// variables, ids within budget, the rest unchanged.
pub open spec fn checker_post(a: TypeChecker, b: TypeChecker, n: ASTNode, r: Result<Type, EidosError>) -> bool {
    &&& infer_post(a.vars(), b.vars(), n, r)
    &&& b.next_type_id() <= a.next_type_id() + 2 * node_count(n)
    &&& b.env() == a.env()
    &&& b.node_shapes() == a.node_shapes()
}

/// What `infer_node_type` promises for node `n`: the variables and the result
/// that the typing rules give.
pub open spec fn infer_post(v_old: Vars, v_new: Vars, n: ASTNode, r: Result<Type, EidosError>) -> bool {
    &&& v_new == infer(v_old, n).1
    &&& match infer(v_old, n).0 {
        Ok(s) => r matches Ok(t) && shape(t) == s,
        Err(e) => r matches Err(EidosError::TypeError(m)) && m@ == type_error_text(e),
    }
}

fn type_error(loc: &SourceLocation, message: &String) -> (e: EidosError)
    ensures
        e matches EidosError::TypeError(m) && m@ == type_error_text((message@, *loc)),
{
    let mut m = loc.to_string();
    append_str(&mut m, ": ");
    append_str(&mut m, message.as_str());
    EidosError::TypeError(m)
}

fn op_name(op: BinaryOp) -> (r: String)
    ensures
        r@ == binary_op_name(op),
{
    match op {
        BinaryOp::Add => string_of("Add"),
        BinaryOp::Sub => string_of("Sub"),
        BinaryOp::Mul => string_of("Mul"),
        BinaryOp::Div => string_of("Div"),
        BinaryOp::Mod => string_of("Mod"),
        BinaryOp::BitAnd => string_of("BitAnd"),
        BinaryOp::BitOr => string_of("BitOr"),
        BinaryOp::BitXor => string_of("BitXor"),
        BinaryOp::LShift => string_of("LShift"),
        BinaryOp::RShift => string_of("RShift"),
        BinaryOp::Eq => string_of("Eq"),
        BinaryOp::NotEq => string_of("NotEq"),
        BinaryOp::Lt => string_of("Lt"),
        BinaryOp::LtEq => string_of("LtEq"),
        BinaryOp::Gt => string_of("Gt"),
        BinaryOp::GtEq => string_of("GtEq"),
        BinaryOp::And => string_of("And"),
        BinaryOp::Or => string_of("Or"),
    }
}

fn operation_message(prefix: &str, l: &Type, op: BinaryOp, r: &Type) -> (m: String)
    ensures
        m@ == prefix@ + operation_text(shape(*l), op, shape(*r)),
{
    let mut m = string_of(prefix);
    let lt = type_text(l);
    append_str(&mut m, lt.as_str());
    append_str(&mut m, " ");
    let o = op_name(op);
    append_str(&mut m, o.as_str());
    append_str(&mut m, " ");
    let rt = type_text(r);
    append_str(&mut m, rt.as_str());
    m
}

fn mismatch_message(prefix: String, expected: &Type, actual: &Type) -> (m: String)
    ensures
        m@ == mismatch_text(prefix@, shape(*expected), shape(*actual)),
{
    let mut m = prefix;
    append_str(&mut m, "期待 ");
    let e = type_text(expected);
    append_str(&mut m, e.as_str());
    append_str(&mut m, ", 実際 ");
    let a = type_text(actual);
    append_str(&mut m, a.as_str());
    m
}

fn text_message(prefix: &str, t: &Type) -> (m: String)
    ensures
        m@ == prefix@ + shape_text(shape(*t)),
{
    let mut m = string_of(prefix);
    let x = type_text(t);
    append_str(&mut m, x.as_str());
    m
}

fn is_numeric_type(t: &Type) -> (r: bool)
    ensures
        r == is_numeric(shape(*t)),
{
    match t.kind {
        TypeKind::Int | TypeKind::Float => true,
        _ => false,
    }
}

fn is_type(t: &Type, k: &TypeKind) -> (r: bool)
    requires
        *k == TypeKind::Bool || *k == TypeKind::Float || *k == TypeKind::String || *k == TypeKind::Unknown,
    ensures
        *k == TypeKind::Bool ==> r == (shape(*t) is Bool),
        *k == TypeKind::Float ==> r == (shape(*t) is Float),
        *k == TypeKind::String ==> r == (shape(*t) is Str),
        *k == TypeKind::Unknown ==> r == (shape(*t) is Unknown),
{
    match (&t.kind, k) {
        (TypeKind::Bool, TypeKind::Bool) => true,
        (TypeKind::Float, TypeKind::Float) => true,
        (TypeKind::String, TypeKind::String) => true,
        (TypeKind::Unknown, TypeKind::Unknown) => true,
        _ => false,
    }
}

/// Whether a value of type `from` may stand where `to` is expected.
pub fn is_assignable(from: &Type, to: &Type) -> (r: bool)
    ensures
        r == assignable(shape(*from), shape(*to)),
{
    same_shape(from, to) || is_type(from, &TypeKind::Unknown) || is_type(to, &TypeKind::Unknown)
}

/// Whether values of the two types may be compared.
pub fn is_comparable(a: &Type, b: &Type) -> (r: bool)
    ensures
        r == comparable(shape(*a), shape(*b)),
{
    same_shape(a, b) || (is_numeric_type(a) && is_numeric_type(b))
}

proof fn lemma_vars_insert(m: Map<Seq<char>, Type>, k: Seq<char>, t: Type)
    ensures
        vars_of(m.insert(k, t)) == vars_of(m).insert(k, shape(t)),
{
    assert(vars_of(m.insert(k, t)) =~= vars_of(m).insert(k, shape(t)));
}

/// The type checker: the type environment, the types found for nodes, and
/// the variables in scope with their types.
pub struct TypeChecker {
    type_env: TypeEnvironment,
    node_types: AssocMap<NodeId, Type>,
    variables: AssocMap<String, Type>,
    ids: TypeIdSource,
}

impl TypeChecker {
    /// The variables in scope and the shapes of their types.
    pub closed spec fn vars(&self) -> Vars {
        vars_of(self.variables@)
    }

    /// The id the next type made by the checker gets.
    pub closed spec fn next_type_id(&self) -> nat {
        self.ids.next_id()
    }

    /// The type environment.
    pub closed spec fn env(&self) -> TypeEnvModel {
        self.type_env@
    }

    /// The shapes of the types found for nodes, by node id.
    pub closed spec fn node_shapes(&self) -> Map<usize, Shape> {
        Map::new(|k: usize| self.node_types@.contains_key(k), |k: usize| shape(self.node_types@[k]))
    }

    fn new_type(&mut self, kind: TypeKind) -> (t: Type)
        requires
            old(self).next_type_id() < usize::MAX,
        ensures
            t.kind == kind,
            final(self).next_type_id() == old(self).next_type_id() + 1,
            final(self).vars() == old(self).vars(),
            final(self).env() == old(self).env(),
            final(self).node_shapes() == old(self).node_shapes(),
    {
        Type::new(kind, &mut self.ids)
    }

    fn set_var(&mut self, name: String, t: Type)
        ensures
            final(self).vars() == old(self).vars().insert(name@, shape(t)),
            final(self).next_type_id() == old(self).next_type_id(),
            final(self).env() == old(self).env(),
            final(self).node_shapes() == old(self).node_shapes(),
    {
        proof {
            lemma_vars_insert(self.variables@, name@, t);
        }
        self.variables.insert(name, t);
    }

    fn var_type(&self, name: &String) -> (r: Option<Type>)
        ensures
            self.vars().contains_key(name@) ==> (r matches Some(t) && shape(t) == self.vars()[name@]),
            !self.vars().contains_key(name@) ==> r is None,
    {
        match self.variables.get(name) {
            Some(t) => Some(t.duplicate()),
            None => None,
        }
    }

    fn binary_type(&mut self, op: BinaryOp, lt: &Type, rt: &Type, loc: &SourceLocation) -> (r: Result<Type, EidosError>)
        requires
            old(self).next_type_id() < usize::MAX,
        ensures
            result_post(binary_result(op, shape(*lt), shape(*rt), *loc), r),
            final(self).next_type_id() <= old(self).next_type_id() + 1,
            final(self).vars() == old(self).vars(),
            final(self).env() == old(self).env(),
            final(self).node_shapes() == old(self).node_shapes(),
    {
        match op {
            BinaryOp::Add | BinaryOp::Sub | BinaryOp::Mul | BinaryOp::Div | BinaryOp::Mod => {
                if is_numeric_type(lt) && is_numeric_type(rt) {
                    if is_type(lt, &TypeKind::Float) || is_type(rt, &TypeKind::Float) {
                        Ok(self.new_type(TypeKind::Float))
                    } else {
                        Ok(self.new_type(TypeKind::Int))
                    }
                } else if op == BinaryOp::Add && (is_type(lt, &TypeKind::String) || is_type(rt, &TypeKind::String)) {
                    Ok(self.new_type(TypeKind::String))
                } else {
                    Err(type_error(loc, &operation_message("不適切な演算: ", lt, op, rt)))
                }
            },
            BinaryOp::Eq | BinaryOp::NotEq | BinaryOp::Lt | BinaryOp::LtEq | BinaryOp::Gt | BinaryOp::GtEq => {
                if is_comparable(lt, rt) {
                    Ok(self.new_type(TypeKind::Bool))
                } else {
                    Err(type_error(loc, &operation_message("比較できない型: ", lt, op, rt)))
                }
            },
            BinaryOp::And | BinaryOp::Or => {
                if is_type(lt, &TypeKind::Bool) && is_type(rt, &TypeKind::Bool) {
                    Ok(self.new_type(TypeKind::Bool))
                } else {
                    Err(type_error(loc, &operation_message("論理演算子はブール型のみサポート: ", lt, op, rt)))
                }
            },
            _ => {
                let mut m = string_of("未サポートの演算子: ");
                let o = op_name(op);
                append_str(&mut m, o.as_str());
                Err(type_error(loc, &m))
            },
        }
    }

    fn check_call(&self, params: Vec<Type>, ret: Type, args: Vec<Type>, loc: &SourceLocation) -> (r: Result<Type, EidosError>)
        ensures
            result_post(call_result(shapes(params@), shape(ret), shapes(args@), *loc), r),
    {
        proof {
            crate::types::lemma_shapes_len(params@);
            crate::types::lemma_shapes_len(args@);
        }
        if args.len() != params.len() {
            let mut m = string_of("引数の数が一致しません: 期待 ");
            push_decimal(&mut m, params.len());
            append_str(&mut m, ", 実際 ");
            push_decimal(&mut m, args.len());
            return Err(type_error(loc, &m));
        }
        let ghost a = shapes(args@);
        let ghost p = shapes(params@);
        let mut i: usize = 0;
        while i < args.len()
            invariant
                args@.len() == params@.len(),
                a == shapes(args@),
                p == shapes(params@),
                a.len() == args@.len(),
                p.len() == params@.len(),
                i <= args@.len(),
                first_bad_arg(a, p, 0) == first_bad_arg(a, p, i as int),
            decreases args@.len() - i,
        {
            proof {
                crate::types::lemma_shapes_index(args@, i as int);
                crate::types::lemma_shapes_index(params@, i as int);
            }
            if !is_assignable(&args[i], &params[i]) {
                let mut m = string_of("引数 #");
                push_decimal(&mut m, i + 1);
                append_str(&mut m, " の型が一致しません: ");
                let m2 = mismatch_message(m, &params[i], &args[i]);
                return Err(type_error(loc, &m2));
            }
            i = i + 1;
        }
        Ok(ret)
    }

    fn infer_binary(&mut self, node: &ASTNode, op: BinaryOp, left: &Box<ASTNode>, right: &Box<ASTNode>) -> (r: Result<Type, EidosError>)
        requires
            node.kind == (Node::BinaryExpr { op, left: *left, right: *right }),
            old(self).next_type_id() + 2 * node_count(*node) < usize::MAX,
        ensures
            checker_post(*old(self), *final(self), *node, r),
        decreases node, 0int,
    {
        let lt = match self.infer_node_type(left) {
            Ok(t) => t,
            Err(e) => {
                return Err(e);
            },
        };
        let rt = match self.infer_node_type(right) {
            Ok(t) => t,
            Err(e) => {
                return Err(e);
            },
        };
        self.binary_type(op, &lt, &rt, &node.location)
    }

    fn infer_unary(&mut self, node: &ASTNode, op: UnaryOp, expr: &Box<ASTNode>) -> (r: Result<Type, EidosError>)
        requires
            node.kind == (Node::UnaryExpr { op, expr: *expr }),
            old(self).next_type_id() + 2 * node_count(*node) < usize::MAX,
        ensures
            checker_post(*old(self), *final(self), *node, r),
        decreases node, 0int,
    {
        let loc = &node.location;
        let t = match self.infer_node_type(expr) {
            Ok(t) => t,
            Err(e) => {
                return Err(e);
            },
        };
        match op {
            UnaryOp::Neg => {
                if is_numeric_type(&t) {
                    Ok(t)
                } else {
                    Err(type_error(loc, &text_message("負数化は数値型のみサポート: ", &t)))
                }
            },
            UnaryOp::Not => {
                if is_type(&t, &TypeKind::Bool) {
                    Ok(self.new_type(TypeKind::Bool))
                } else {
                    Err(type_error(loc, &text_message("論理否定はブール型のみサポート: ", &t)))
                }
            },
            UnaryOp::BitNot => {
                let m = string_of("未サポートの単項演算子: BitNot");
                Err(type_error(loc, &m))
            },
        }
    }

    fn infer_if(
        &mut self,
        node: &ASTNode,
        condition: &Box<ASTNode>,
        then_branch: &Box<ASTNode>,
        else_branch: &Option<Box<ASTNode>>,
    ) -> (r: Result<Type, EidosError>)
        requires
            node.kind == (Node::IfExpr { condition: *condition, then_branch: *then_branch, else_branch: *else_branch }),
            old(self).next_type_id() + 2 * node_count(*node) < usize::MAX,
        ensures
            checker_post(*old(self), *final(self), *node, r),
        decreases node, 0int,
    {
        let loc = &node.location;
        let ct = match self.infer_node_type(condition) {
            Ok(t) => t,
            Err(e) => {
                return Err(e);
            },
        };
        if !is_type(&ct, &TypeKind::Bool) {
            return Err(type_error(loc, &text_message("条件式はブール型である必要があります: ", &ct)));
        }
        let tt = match self.infer_node_type(then_branch) {
            Ok(t) => t,
            Err(e) => {
                return Err(e);
            },
        };
        match else_branch {
            Some(eb) => {
                let et = match self.infer_node_type(eb) {
                    Ok(t) => t,
                    Err(e) => {
                        return Err(e);
                    },
                };
                if is_assignable(&tt, &et) {
                    Ok(tt)
                } else if is_assignable(&et, &tt) {
                    Ok(et)
                } else {
                    let mut m = string_of("if-elseの各分岐の型が一致しません: ");
                    let a = type_text(&tt);
                    append_str(&mut m, a.as_str());
                    append_str(&mut m, " と ");
                    let b = type_text(&et);
                    append_str(&mut m, b.as_str());
                    Err(type_error(loc, &m))
                }
            },
            None => Ok(self.new_type(TypeKind::Unit)),
        }
    }

    fn infer_block(&mut self, node: &ASTNode, statements: &Vec<ASTNode>, result: &Option<Box<ASTNode>>) -> (r: Result<Type, EidosError>)
        requires
            node.kind == (Node::BlockExpr { statements: *statements, result: *result }),
            old(self).next_type_id() + 2 * node_count(*node) < usize::MAX,
        ensures
            checker_post(*old(self), *final(self), *node, r),
        decreases node, 0int,
    {
        let ghost v0 = self.vars();
        let ghost n0 = self.next_type_id();
        let ghost ss = statements@;
        let ghost rc: nat = match result {
            Some(r) => node_count(**r),
            None => 0,
        };
        let mut i: usize = 0;
        proof {
            assert(ss.subrange(0, ss.len() as int) =~= ss);
        }
        while i < statements.len()
            invariant
                ss == statements@,
                node.kind == (Node::BlockExpr { statements: *statements, result: *result }),
                i <= ss.len(),
                infer_stmts(v0, ss) == infer_stmts(self.vars(), ss.subrange(i as int, ss.len() as int)),
                self.next_type_id() + 2 * nodes_count(ss.subrange(i as int, ss.len() as int)) + 2 * rc + 2
                    <= n0 + 2 * node_count(*node),
                n0 + 2 * node_count(*node) < usize::MAX,
                self.env() == old(self).env(),
                self.node_shapes() == old(self).node_shapes(),
                v0 == old(self).vars(),
                n0 == old(self).next_type_id(),
            decreases ss.len() - i,
        {
            proof {
                lemma_nodes_count_step(ss, i as int);
                assert(decreases_to!(*node => node.kind));
                assert(decreases_to!(node.kind => *statements));
                assert(decreases_to!(*statements => statements@));
                assert(decreases_to!(statements@ => statements@[i as int]));
            }
            match self.infer_node_type(&statements[i]) {
                Ok(_) => {},
                Err(e) => {
                    return Err(e);
                },
            }
            i = i + 1;
        }
        proof {
            assert(ss.subrange(i as int, ss.len() as int) =~= Seq::<ASTNode>::empty());
            assert(infer_stmts(v0, ss) == (Ok::<(), TErr>(()), self.vars()));
        }
        match result {
            Some(res) => self.infer_node_type(res),
            None => Ok(self.new_type(TypeKind::Unit)),
        }
    }

    fn infer_var_decl(
        &mut self,
        node: &ASTNode,
        name: &String,
        symbol: &Option<SymbolId>,
        type_annotation: &Option<Type>,
        initializer: &Option<Box<ASTNode>>,
        is_mutable: &bool,
    ) -> (r: Result<Type, EidosError>)
        requires
            node.kind == (Node::VarDecl { name: *name, symbol: *symbol, type_annotation: *type_annotation,
                initializer: *initializer, is_mutable: *is_mutable }),
            old(self).next_type_id() + 2 * node_count(*node) < usize::MAX,
        ensures
            checker_post(*old(self), *final(self), *node, r),
        decreases node, 0int,
    {
        let loc = &node.location;
        let it = match initializer {
            Some(init) => match self.infer_node_type(init) {
                Ok(t) => t,
                Err(e) => {
                    return Err(e);
                },
            },
            None => self.new_type(TypeKind::Unknown),
        };
        match type_annotation {
            Some(t) => {
                if initializer.is_some() && !is_assignable(&it, t) {
                    return Err(type_error(loc, &mismatch_message(string_of("型の不一致: "), t, &it)));
                }
                self.set_var(name.clone(), t.duplicate());
            },
            None => {
                if is_type(&it, &TypeKind::Unknown) {
                    let m = string_of("型注釈か初期化子が必要です");
                    return Err(type_error(loc, &m));
                }
                self.set_var(name.clone(), it);
            },
        }
        Ok(self.new_type(TypeKind::Unit))
    }

    fn infer_assignment(&mut self, node: &ASTNode, target: &Box<ASTNode>, value: &Box<ASTNode>) -> (r: Result<Type, EidosError>)
        requires
            node.kind == (Node::Assignment { target: *target, value: *value }),
            old(self).next_type_id() + 2 * node_count(*node) < usize::MAX,
        ensures
            checker_post(*old(self), *final(self), *node, r),
        decreases node, 0int,
    {
        let loc = &node.location;
        let tt = match self.infer_node_type(target) {
            Ok(t) => t,
            Err(e) => {
                return Err(e);
            },
        };
        let vt = match self.infer_node_type(value) {
            Ok(t) => t,
            Err(e) => {
                return Err(e);
            },
        };
        if !is_assignable(&vt, &tt) {
            return Err(type_error(loc, &mismatch_message(string_of("型の不一致: "), &tt, &vt)));
        }
        Ok(self.new_type(TypeKind::Unit))
    }

    fn bind_parameters(&mut self, params: &Vec<FunctionParam>, loc: &SourceLocation) -> (r: Result<Vec<Type>, EidosError>)
        ensures
            final(self).vars() == bind_params(old(self).vars(), params@, *loc).1,
            match bind_params(old(self).vars(), params@, *loc).0 {
                Ok(ss) => r matches Ok(ts) && shapes(ts@) == ss,
                Err(e) => r matches Err(EidosError::TypeError(m)) && m@ == type_error_text(e),
            },
            final(self).next_type_id() == old(self).next_type_id(),
            final(self).env() == old(self).env(),
            final(self).node_shapes() == old(self).node_shapes(),
    {
        let ghost v0 = self.vars();
        let ghost ps = params@;
        let mut param_types: Vec<Type> = Vec::new();
        let mut i: usize = 0;
        proof {
            assert(ps.take(0) =~= Seq::<FunctionParam>::empty());
            assert(shapes(param_types@) =~= Seq::<Shape>::empty());
        }
        while i < params.len()
            invariant
                ps == params@,
                i <= ps.len(),
                bind_params(v0, ps.take(i as int), *loc) == (Ok::<Seq<Shape>, TErr>(shapes(param_types@)), self.vars()),
                self.next_type_id() == old(self).next_type_id(),
                self.env() == old(self).env(),
                self.node_shapes() == old(self).node_shapes(),
                v0 == old(self).vars(),
            decreases ps.len() - i,
        {
            let p = &params[i];
            proof {
                assert(ps.take(i + 1).drop_last() =~= ps.take(i as int));
                assert(ps.take(i + 1).last() == ps[i as int]);
            }
            match &p.param_type {
                Some(t) => {
                    let pt = t.duplicate();
                    self.set_var(p.name.clone(), t.duplicate());
                    proof {
                        lemma_shapes_push(param_types@, pt);
                    }
                    param_types.push(pt);
                },
                None => {
                    let mut m = string_of("パラメータ");
                    append_str(&mut m, p.name.as_str());
                    append_str(&mut m, "に型注釈が必要です");
                    proof {
                        assert(bind_params(v0, ps.take(i + 1), *loc).0 is Err);
                        lemma_bind_params_err(v0, ps, i as int, *loc);
                    }
                    return Err(type_error(loc, &m));
                },
            }
            i = i + 1;
        }
        proof {
            assert(ps.take(i as int) =~= ps);
        }
        Ok(param_types)
    }

    fn infer_function(
        &mut self,
        node: &ASTNode,
        name: &String,
        symbol: &Option<SymbolId>,
        params: &Vec<FunctionParam>,
        return_type: &Option<Type>,
        body: &Box<ASTNode>,
    ) -> (r: Result<Type, EidosError>)
        requires
            node.kind == (Node::FunctionDef { name: *name, symbol: *symbol, params: *params,
                return_type: *return_type, body: *body }),
            old(self).next_type_id() + 2 * node_count(*node) < usize::MAX,
        ensures
            checker_post(*old(self), *final(self), *node, r),
        decreases node, 0int,
    {
        let param_types = match self.bind_parameters(params, &node.location) {
            Ok(ts) => ts,
            Err(e) => {
                return Err(e);
            },
        };
        let ret = match return_type {
            Some(t) => t.duplicate(),
            None => self.new_type(TypeKind::Unit),
        };
        let bt = match self.infer_node_type(body) {
            Ok(t) => t,
            Err(e) => {
                return Err(e);
            },
        };
        if !is_assignable(&bt, &ret) {
            return Err(type_error(&body.location, &mismatch_message(string_of("戻り値の型の不一致: "), &ret, &bt)));
        }
        let f = self.new_type(TypeKind::Function { params: param_types, return_type: Box::new(ret) });
        self.set_var(name.clone(), f.duplicate());
        Ok(f)
    }

    fn infer_call(&mut self, node: &ASTNode, callee: &Box<ASTNode>, args: &Vec<ASTNode>) -> (r: Result<Type, EidosError>)
        requires
            node.kind == (Node::FunctionCall { callee: *callee, args: *args }),
            old(self).next_type_id() + 2 * node_count(*node) < usize::MAX,
        ensures
            checker_post(*old(self), *final(self), *node, r),
        decreases node, 0int,
    {
        let ghost v0 = self.vars();
        let ghost n0 = self.next_type_id();
        let loc = &node.location;
        let ct = match self.infer_node_type(callee) {
            Ok(t) => t,
            Err(e) => {
                return Err(e);
            },
        };
        let cid = ct.id;
        let ghost cshape = shape(ct);
        let ghost v1 = self.vars();
        match ct.kind {
            TypeKind::Function { params, return_type } => {
                let ghost ss = args@;
                let mut arg_types: Vec<Type> = Vec::new();
                let mut i: usize = 0;
                proof {
                    assert(ss.subrange(0, ss.len() as int) =~= ss);
                    assert(shapes(arg_types@) =~= Seq::<Shape>::empty());
                    assert(prepend_args(seq![], infer_args(v1, ss)) =~= infer_args(v1, ss));
                }
                while i < args.len()
                    invariant
                        ss == args@,
                        node.kind == (Node::FunctionCall { callee: *callee, args: *args }),
                        i <= ss.len(),
                        infer_args(v1, ss) == prepend_args(shapes(arg_types@), infer_args(self.vars(), ss.subrange(i as int, ss.len() as int))),
                        infer(v0, **callee) == (Ok::<Shape, TErr>(cshape), v1),
                        cshape == Shape::Function(shapes(params@), Box::new(shape(*return_type))),
                        v0 == old(self).vars(),
                        n0 == old(self).next_type_id(),
                        self.next_type_id() + 2 * nodes_count(ss.subrange(i as int, ss.len() as int)) + 2
                            <= n0 + 2 * node_count(*node),
                        n0 + 2 * node_count(*node) < usize::MAX,
                        self.env() == old(self).env(),
                        self.node_shapes() == old(self).node_shapes(),
                    decreases ss.len() - i,
                {
                    proof {
                        lemma_nodes_count_step(ss, i as int);
                        assert(decreases_to!(*node => node.kind));
                        assert(decreases_to!(node.kind => *args));
                        assert(decreases_to!(*args => args@));
                        assert(decreases_to!(args@ => args@[i as int]));
                    }
                    let ghost acc = shapes(arg_types@);
                    let at = match self.infer_node_type(&args[i]) {
                        Ok(t) => t,
                        Err(e) => {
                            return Err(e);
                        },
                    };
                    proof {
                        lemma_shapes_push(arg_types@, at);
                        let rest = infer_args(self.vars(), ss.subrange(i + 1, ss.len() as int));
                        match rest.0 {
                            Ok(ts) => {
                                assert(acc + (seq![shape(at)] + ts) =~= acc.push(shape(at)) + ts);
                            },
                            Err(_) => {},
                        }
                    }
                    arg_types.push(at);
                    i = i + 1;
                }
                proof {
                    assert(ss.subrange(i as int, ss.len() as int) =~= Seq::<ASTNode>::empty());
                    assert(shapes(arg_types@) + Seq::<Shape>::empty() =~= shapes(arg_types@));
                }
                self.check_call(params, *return_type, arg_types, loc)
            },
            other => {
                let t = Type { id: cid, kind: other };
                Err(type_error(loc, &text_message("呼び出し可能でない値: ", &t)))
            },
        }
    }

    /// Infers the type of an expression by the typing rules, binding the
    /// variables that declarations and function definitions introduce.
    pub fn infer_node_type(&mut self, node: &ASTNode) -> (r: Result<Type, EidosError>)
        requires
            old(self).next_type_id() + 2 * node_count(*node) < usize::MAX,
        ensures
            infer_post(old(self).vars(), final(self).vars(), *node, r),
            final(self).next_type_id() <= old(self).next_type_id() + 2 * node_count(*node),
            final(self).env() == old(self).env(),
            final(self).node_shapes() == old(self).node_shapes(),
        decreases node, 1int,
    {
        let loc = &node.location;
        match &node.kind {
            Node::Literal(l) => {
                let kind = match l {
                    Literal::Int(_) => TypeKind::Int,
                    Literal::Float(_) => TypeKind::Float,
                    Literal::Bool(_) => TypeKind::Bool,
                    Literal::Char(_) => TypeKind::Char,
                    Literal::String(_) => TypeKind::String,
                    Literal::Unit => TypeKind::Unit,
                };
                Ok(self.new_type(kind))
            },
            Node::Identifier { name, .. } => {
                match self.var_type(name) {
                    Some(t) => Ok(t),
                    None => {
                        let mut m = string_of("未定義の変数: ");
                        append_str(&mut m, name.as_str());
                        Err(type_error(loc, &m))
                    },
                }
            },
            Node::BinaryExpr { op, left, right } => self.infer_binary(node, *op, left, right),
            Node::UnaryExpr { op, expr } => self.infer_unary(node, *op, expr),
            Node::IfExpr { condition, then_branch, else_branch } => self.infer_if(node, condition, then_branch, else_branch),
            Node::BlockExpr { statements, result } => self.infer_block(node, statements, result),
            Node::VarDecl { name, symbol, type_annotation, initializer, is_mutable } =>
                self.infer_var_decl(node, name, symbol, type_annotation, initializer, is_mutable),
            Node::Assignment { target, value } => self.infer_assignment(node, target, value),
            Node::FunctionDef { name, symbol, params, return_type, body } =>
                self.infer_function(node, name, symbol, params, return_type, body),
            Node::FunctionCall { callee, args } => self.infer_call(node, callee, args),
            _ => Ok(self.new_type(TypeKind::Unknown)),
        }
    }


    /// A checker with the built-in types (ids 0 to 5), no variables and no
    /// node types.
    pub fn new() -> (c: Self)
        ensures
            is_builtin_env(c.env(), 0),
            c.next_type_id() == 6,
            c.vars() == Map::<Seq<char>, Shape>::empty(),
            c.node_shapes() == Map::<usize, Shape>::empty(),
    {
        let mut ids = TypeIdSource::new();
        let type_env = TypeEnvironment::new(&mut ids);
        let c = TypeChecker { type_env, node_types: AssocMap::new(), variables: AssocMap::new(), ids };
        proof {
            assert(c.vars() =~= Map::<Seq<char>, Shape>::empty());
            assert(c.node_shapes() =~= Map::<usize, Shape>::empty());
        }
        c
    }

    /// Registers the standard collection types `Vector`, `HashMap`,
    /// `HashSet`, `LinkedList`, `Queue`, `Stack` and `PriorityQueue` as named
    /// types, with the next seven ids, each under its name.
    pub fn register_stdlib_types(&mut self)
        requires
            old(self).next_type_id() + 7 < usize::MAX,
        ensures
            final(self).next_type_id() == old(self).next_type_id() + 7,
            final(self).env().type_map == bind_names(old(self).env().type_map, stdlib_type_names(), old(self).next_type_id()),
            forall|i: int| 0 <= i < 7 ==> #[trigger] registered_ref(final(self).env().types,
                old(self).next_type_id() + i, stdlib_type_names()[i]),
            forall|k: usize| #![trigger final(self).env().types.contains_key(k)] #![trigger old(self).env().types.contains_key(k)]
                k < old(self).next_type_id() ==> final(self).env().types.contains_key(k) == old(self).env().types.contains_key(k)
                && (old(self).env().types.contains_key(k) ==> final(self).env().types[k] == old(self).env().types[k]),
            final(self).env().symbol_types == old(self).env().symbol_types,
            final(self).vars() == old(self).vars(),
            final(self).node_shapes() == old(self).node_shapes(),
    {
        let names = ["Vector", "HashMap", "HashSet", "LinkedList", "Queue", "Stack", "PriorityQueue"];
        let ghost n0 = self.next_type_id();
        let ghost m0 = self.env().type_map;
        let ghost t0 = self.env().types;
        proof {
            reveal_strlit("Vector");
            reveal_strlit("HashMap");
            reveal_strlit("HashSet");
            reveal_strlit("LinkedList");
            reveal_strlit("Queue");
            reveal_strlit("Stack");
            reveal_strlit("PriorityQueue");
            assert(stdlib_names_view(names@) =~= stdlib_type_names());
            assert(stdlib_type_names().take(0) =~= Seq::<Seq<char>>::empty());
        }
        let mut i: usize = 0;
        while i < 7
            invariant
                i <= 7,
                names@.len() == 7,
                stdlib_names_view(names@) == stdlib_type_names(),
                n0 == old(self).next_type_id(),
                n0 + 7 < usize::MAX,
                m0 == old(self).env().type_map,
                t0 == old(self).env().types,
                self.next_type_id() == n0 + i,
                self.env().type_map == bind_names(m0, stdlib_type_names().take(i as int), n0),
                forall|j: int| 0 <= j < i ==> #[trigger] registered_ref(self.env().types, n0 + j, stdlib_type_names()[j]),
                forall|k: usize| #![trigger self.env().types.contains_key(k)] #![trigger t0.contains_key(k)]
                    k < n0 ==> self.env().types.contains_key(k) == t0.contains_key(k)
                    && (t0.contains_key(k) ==> self.env().types[k] == t0[k]),
                self.env().symbol_types == old(self).env().symbol_types,
                self.vars() == old(self).vars(),
                self.node_shapes() == old(self).node_shapes(),
            decreases 7 - i,
        {
            let name = names[i];
            let t = Type::type_ref(string_of(name), &mut self.ids);
            let ghost tv = t;
            let ghost before = self.env().types;
            self.type_env.register_type(string_of(name), t);
            proof {
                assert(self.env().types == before.insert(tv.id.0, tv));
                assert forall|j: int| 0 <= j < i + 1 implies #[trigger] registered_ref(self.env().types, n0 + j, stdlib_type_names()[j]) by {
                    if j < i {
                        assert(registered_ref(before, n0 + j, stdlib_type_names()[j]));
                        assert((n0 + j) as usize != tv.id.0);
                    } else {
                        assert(name@ == stdlib_names_view(names@)[i as int]);
                    }
                }
                assert forall|k: usize| k < n0 implies self.env().types.contains_key(k) == t0.contains_key(k)
                    && (t0.contains_key(k) ==> self.env().types[k] == t0[k]) by {
                    assert(k != tv.id.0);
                    assert(before.contains_key(k) == t0.contains_key(k));
                    if t0.contains_key(k) {
                        assert(before[k] == t0[k]);
                    }
                }
                let ns = stdlib_type_names();
                assert(name@ == ns[i as int]);
                assert(ns.take(i + 1).drop_last() =~= ns.take(i as int));
                assert(ns.take(i + 1).last() == ns[i as int]);
            }
            i = i + 1;
        }
        proof {
            assert(stdlib_type_names().take(7) =~= stdlib_type_names());
        }
    }

    /// Checks the top-level nodes of a program in order, recording the type
    /// found for each and giving it to the node; stops at the first node id
    /// without a node or the first type error.
    pub fn check(&mut self, program: Program) -> (r: Result<Program, EidosError>)
        requires
            old(self).next_type_id() + 2 * program_count(program.nodes@, program.node_map@) < usize::MAX,
        ensures
            final(self).vars() == check_nodes(old(self).vars(), program.nodes@, program.node_map@).2,
            final(self).node_shapes() == old(self).node_shapes().union_prefer_right(
                check_nodes(old(self).vars(), program.nodes@, program.node_map@).1),
            match check_nodes(old(self).vars(), program.nodes@, program.node_map@).0 {
                None => r matches Ok(p) && typed_program(program, p, check_nodes(old(self).vars(), program.nodes@, program.node_map@).1),
                Some(CheckFailure::Missing(id)) => r matches Err(EidosError::InternalError(x)) && x@ == missing_node_text(id),
                Some(CheckFailure::Type(e)) => r matches Err(EidosError::TypeError(x)) && x@ == type_error_text(e),
            },
            final(self).env() == old(self).env(),
            final(self).next_type_id() <= old(self).next_type_id() + 2 * program_count(program.nodes@, program.node_map@),
    {
        let ghost q = program;
        let ghost ids = program.nodes@;
        let ghost map0 = program.node_map@;
        let ghost v0 = self.vars();
        let ghost n0 = self.next_type_id();
        let ghost s0 = self.node_shapes();
        let mut program = program;
        let mut failure: Option<EidosError> = None;
        let mut i: usize = 0;
        proof {
            assert(ids.take(0) =~= Seq::<NodeId>::empty());
            assert(ids.subrange(0, ids.len() as int) =~= ids);
            assert(s0.union_prefer_right(Map::<usize, Shape>::empty()) =~= s0);
        }
        loop
            invariant_except_break
                failure is None,
                check_nodes(v0, ids.take(i as int), map0).0 is None,
                check_nodes(v0, ids.take(i as int), map0).2 == self.vars(),
                self.node_shapes() == s0.union_prefer_right(check_nodes(v0, ids.take(i as int), map0).1),
                typed_program(q, program, check_nodes(v0, ids.take(i as int), map0).1),
                self.next_type_id() + 2 * program_count(ids.subrange(i as int, ids.len() as int), map0)
                    <= n0 + 2 * program_count(ids, map0),
            invariant
                q.nodes@ == ids,
                q.node_map@ == map0,
                v0 == old(self).vars(),
                n0 == old(self).next_type_id(),
                s0 == old(self).node_shapes(),
                program.nodes@ == ids,
                program.file_path == q.file_path,
                i <= ids.len(),
                n0 + 2 * program_count(ids, map0) < usize::MAX,
                self.env() == old(self).env(),
            ensures
                self.next_type_id() <= n0 + 2 * program_count(ids, map0),
                failure is None ==> {
                    &&& check_nodes(v0, ids, map0).0 is None
                    &&& check_nodes(v0, ids, map0).2 == self.vars()
                    &&& self.node_shapes() == s0.union_prefer_right(check_nodes(v0, ids, map0).1)
                    &&& typed_program(q, program, check_nodes(v0, ids, map0).1)
                },
                failure matches Some(err) ==> {
                    &&& check_nodes(v0, ids, map0).2 == self.vars()
                    &&& self.node_shapes() == s0.union_prefer_right(check_nodes(v0, ids, map0).1)
                    &&& match check_nodes(v0, ids, map0).0 {
                        Some(CheckFailure::Missing(id)) => err matches EidosError::InternalError(x) && x@ == missing_node_text(id),
                        Some(CheckFailure::Type(e)) => err matches EidosError::TypeError(x) && x@ == type_error_text(e),
                        None => false,
                    }
                },
            decreases ids.len() - i,
        {
            if i >= program.nodes.len() {
                proof {
                    assert(ids.take(i as int) =~= ids);
                    assert(ids.subrange(i as int, ids.len() as int) =~= Seq::<NodeId>::empty());
                }
                break;
            }
            let id = program.nodes[i];
            let ghost m = check_nodes(v0, ids.take(i as int), map0).1;
            proof {
                lemma_program_count_step(ids, i as int, map0);
                assert(ids.take(i + 1).drop_last() =~= ids.take(i as int));
                assert(ids.take(i + 1).last() == id);
            }
            if !program.node_map.contains_key(&id) {
                let mut x = string_of("ノードが見つかりません: NodeId(");
                push_decimal(&mut x, id.0);
                append_str(&mut x, ")");
                proof {
                    assert(!map0.contains_key(id.0));
                    assert(check_nodes(v0, ids.take(i + 1), map0) == (Some(CheckFailure::Missing(id)), m, self.vars()));
                    lemma_check_nodes_stop(v0, ids, i as int, map0);
                    assert(program_count(ids.subrange(i as int, ids.len() as int), map0) >= 0);
                }
                failure = Some(EidosError::InternalError(x));
                break;
            }
            let placeholder = ASTNode {
                id,
                kind: Node::Literal(Literal::Unit),
                location: SourceLocation::unknown(),
                type_info: TypeInfo::Unknown,
            };
            let taken = program.node_map.replace(id, placeholder);
            let node = match taken {
                Some(n) => n,
                None => {
                    proof {
                        assert(false);
                    }
                    failure = Some(EidosError::InternalError(string_of("")));
                    break;
                },
            };
            proof {
                assert(map0.contains_key(id.0));
                lemma_infer_same(self.vars(), node, map0[id.0]);
            }
            let ghost before_map = program.node_map@;
            match self.infer_node_type(&node) {
                Ok(t) => {
                    let ghost sh = shape(t);
                    let ghost ns_before = self.node_shapes();
                    let d = t.duplicate();
                    self.node_types.insert(id, d);
                    proof {
                        assert(self.node_shapes() =~= ns_before.insert(id.0, sh));
                    }
                    let typed = node.with_type(TypeInfo::Resolved(t));
                    let _ = program.node_map.replace(id, typed);
                    proof {
                        let m2 = m.insert(id.0, sh);
                        assert(check_nodes(v0, ids.take(i + 1), map0) == (None::<CheckFailure>, m2, self.vars()));
                        assert(self.node_shapes() =~= s0.union_prefer_right(m2));
                        assert(program.node_map@.dom() =~= q.node_map@.dom());
                        assert forall|k: usize| #[trigger] q.node_map@.contains_key(k) implies {
                            &&& program.node_map@[k].id == q.node_map@[k].id
                            &&& program.node_map@[k].kind == q.node_map@[k].kind
                            &&& program.node_map@[k].location == q.node_map@[k].location
                            &&& m2.contains_key(k) ==> (program.node_map@[k].type_info matches TypeInfo::Resolved(t) && shape(t) == m2[k])
                            &&& !m2.contains_key(k) ==> program.node_map@[k].type_info == q.node_map@[k].type_info
                        } by {
                            if k != id.0 {
                                assert(program.node_map@[k] == before_map[k]);
                            }
                        }
                    }
                },
                Err(e) => {
                    proof {
                        lemma_check_nodes_stop(v0, ids, i as int, map0);
                    }
                    failure = Some(e);
                    break;
                },
            }
            i = i + 1;
        }
        match failure {
            Some(e) => {
                return Err(e);
            },
            None => {},
        }
        Ok(program)
    }
}

} // verus!
