use vstd::prelude::*;

use crate::assoc::{AssocMap, MapKey};
use crate::error::SourceLocation;
use crate::symbol::SymbolId;
use crate::types::Type;
use crate::util::{decimal, push_decimal, append_str, string_of};

verus! {

/// Identifier of an AST node.
#[derive(Debug, Clone, Copy, PartialEq, Eq, Hash, Structural)]
pub struct NodeId(pub usize);

impl NodeId {
    /// Display form, `Node(n)`.
    pub fn to_string(&self) -> (r: String)
        ensures
            r@ == "Node("@ + decimal(self.0 as nat) + ")"@,
    {
        let mut s = string_of("Node(");
        push_decimal(&mut s, self.0);
        append_str(&mut s, ")");
        s
    }
}

impl MapKey for NodeId {
    type KV = usize;

    open spec fn key_view(&self) -> usize {
        self.0
    }

    fn key_eq(&self, other: &Self) -> (r: bool) {
        self.0 == other.0
    }

    fn key_clone(&self) -> (r: Self) {
        *self
    }
}

/// Hands out node ids: each id once, in increasing order.
#[derive(Debug)]
pub struct NodeIdSource {
    next: usize,
}

impl NodeIdSource {
    /// The id that the next call of `fresh` returns.
    pub closed spec fn next_id(&self) -> nat {
        self.next as nat
    }

    /// A source whose first id is 0.
    pub fn new() -> (s: Self)
        ensures
            s.next_id() == 0,
    {
        NodeIdSource { next: 0 }
    }

    /// A new id, larger than every id handed out before.
    pub fn fresh(&mut self) -> (id: NodeId)
        requires
            old(self).next_id() < usize::MAX,
        ensures
            id.0 == old(self).next_id(),
            final(self).next_id() == old(self).next_id() + 1,
    {
        let id = NodeId(self.next);
        self.next = self.next + 1;
        id
    }
}

/// The type information an AST node carries.
#[derive(Debug, PartialEq, Eq)]
pub enum TypeInfo {
    Unknown,
    Resolved(Type),
    Explicit(Type),
}

/// Unary operator.
#[derive(Debug, Clone, Copy, PartialEq, Eq, Structural)]
pub enum UnaryOp {
    Neg,
    Not,
    BitNot,
}

/// Binary operator.
#[derive(Debug, Clone, Copy, PartialEq, Eq, Structural)]
pub enum BinaryOp {
    Add,
    Sub,
    Mul,
    Div,
    Mod,
    BitAnd,
    BitOr,
    BitXor,
    LShift,
    RShift,
    Eq,
    NotEq,
    Lt,
    LtEq,
    Gt,
    GtEq,
    And,
    Or,
}

/// A literal value. A float literal holds its source text.
#[derive(Debug, Clone, PartialEq, Eq)]
pub enum Literal {
    Int(i64),
    Float(String),
    Bool(bool),
    Char(char),
    String(String),
    Unit,
}

/// The shape of an AST node.
#[derive(Debug, PartialEq, Eq)]
pub enum Node {
    Literal(Literal),
    Identifier { name: String, symbol: Option<SymbolId> },
    UnaryExpr { op: UnaryOp, expr: Box<ASTNode> },
    BinaryExpr { op: BinaryOp, left: Box<ASTNode>, right: Box<ASTNode> },
    IfExpr { condition: Box<ASTNode>, then_branch: Box<ASTNode>, else_branch: Option<Box<ASTNode>> },
    BlockExpr { statements: Vec<ASTNode>, result: Option<Box<ASTNode>> },
    VarDecl {
        name: String,
        symbol: Option<SymbolId>,
        type_annotation: Option<Type>,
        initializer: Option<Box<ASTNode>>,
        is_mutable: bool,
    },
    FunctionDef {
        name: String,
        symbol: Option<SymbolId>,
        params: Vec<FunctionParam>,
        return_type: Option<Type>,
        body: Box<ASTNode>,
    },
    FunctionCall { callee: Box<ASTNode>, args: Vec<ASTNode> },
    Assignment { target: Box<ASTNode>, value: Box<ASTNode> },
    WhileLoop { condition: Box<ASTNode>, body: Box<ASTNode> },
    TypeDef { name: String, symbol: Option<SymbolId>, definition: Type },
    DSLBlock { name: String, content: String, processed_ast: Option<Box<ASTNode>> },
}

/// A function parameter.
#[derive(Debug, PartialEq, Eq)]
pub struct FunctionParam {
    pub name: String,
    pub symbol: Option<SymbolId>,
    pub param_type: Option<Type>,
}

/// An AST node with its id, location and type information.
#[derive(Debug, PartialEq, Eq)]
pub struct ASTNode {
    pub id: NodeId,
    pub kind: Node,
    pub location: SourceLocation,
    pub type_info: TypeInfo,
}

impl ASTNode {
    /// A node with the next id of `ids` and no type information yet.
    pub fn new(kind: Node, location: SourceLocation, ids: &mut NodeIdSource) -> (n: Self)
        requires
            old(ids).next_id() < usize::MAX,
        ensures
            n.id.0 == old(ids).next_id(),
            final(ids).next_id() == old(ids).next_id() + 1,
            n.kind == kind,
            n.location == location,
            n.type_info == TypeInfo::Unknown,
    {
        let id = ids.fresh();
        Self { id, kind, location, type_info: TypeInfo::Unknown }
    }

    /// The same node with the given type information.
    pub fn with_type(self, type_info: TypeInfo) -> (n: Self)
        ensures
            n.id == self.id,
            n.kind == self.kind,
            n.location == self.location,
            n.type_info == type_info,
    {
        let mut n = self;
        n.type_info = type_info;
        n
    }
}

/// A whole program: the ids of its top-level nodes in order, each node under its id.
#[derive(Debug)]
pub struct Program {
    pub nodes: Vec<NodeId>,
    pub node_map: AssocMap<NodeId, ASTNode>,
    pub file_path: String,
}

impl Program {
    /// An empty program of the given file.
    pub fn new(file_path: String) -> (p: Self)
        ensures
            p.nodes@.len() == 0,
            p.node_map@ == Map::<usize, ASTNode>::empty(),
            p.file_path == file_path,
    {
        Self { nodes: Vec::new(), node_map: AssocMap::new(), file_path }
    }

    /// Appends a top-level node and records it under its id; returns the id.
    pub fn add_node(&mut self, node: ASTNode) -> (id: NodeId)
        ensures
            id == node.id,
            final(self).nodes@ == old(self).nodes@.push(id),
            final(self).node_map@ == old(self).node_map@.insert(id.0, node),
            final(self).file_path == old(self).file_path,
    {
        let id = node.id;
        self.nodes.push(id);
        self.node_map.insert(id, node);
        id
    }

    /// The node with id `id`.
    pub fn get_node(&self, id: NodeId) -> (r: Option<&ASTNode>)
        ensures
            r matches Some(n) ==> self.node_map@.contains_key(id.0) && *n == self.node_map@[id.0],
            r is None ==> !self.node_map@.contains_key(id.0),
    {
        self.node_map.get(&id)
    }
}

} // verus!
