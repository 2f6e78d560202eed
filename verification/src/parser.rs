use vstd::prelude::*;

use crate::ast::{ASTNode, Literal, Node, NodeId, NodeIdSource, Program, TypeInfo};
use crate::error::EidosError;
use crate::lexer::{kind_debug, variant_index, Token, TokenKind};
use crate::util::{append_str, decimal, push_decimal, string_of};

verus! {

/// Whether a token kind ends the input.
pub open spec fn is_eof(k: TokenKind) -> bool {
    k is Eof
}

/// The index of the first `Eof` token at or after `i`, or the length if there is none.
pub open spec fn first_eof(ts: Seq<Token>, i: int) -> int
    decreases ts.len() - i,
{
    if i < 0 || i >= ts.len() {
        ts.len() as int
    } else if is_eof(ts[i].kind) {
        i
    } else {
        first_eof(ts, i + 1)
    }
}

/// Whether a token kind starts an expression: an integer, a string, `true` or `false`.
pub open spec fn is_expr_token(k: TokenKind) -> bool {
    k is Integer || k is String || k is True || k is False
}

/// The index of the first token in `[i, e)` that starts no expression, or `e`.
pub open spec fn first_non_expr(ts: Seq<Token>, i: int, e: int) -> int
    decreases e - i,
{
    if i >= e {
        e
    } else if !is_expr_token(ts[i].kind) {
        i
    } else {
        first_non_expr(ts, i + 1, e)
    }
}

/// Whether node `n` is the literal node parsed from token `t`.
pub open spec fn node_from_token(n: ASTNode, t: Token) -> bool {
    &&& n.location == t.location
    &&& n.type_info == TypeInfo::Unknown
    &&& match t.kind {
        TokenKind::Integer(v) => n.kind == Node::Literal(Literal::Int(v)),
        TokenKind::String(x) => n.kind matches Node::Literal(Literal::String(y)) && y@ == x@,
        TokenKind::True => n.kind == Node::Literal(Literal::Bool(true)),
        TokenKind::False => n.kind == Node::Literal(Literal::Bool(false)),
        _ => false,
    }
}

/// The message for a token that starts no expression.
pub open spec fn expression_error_message(t: Token) -> Seq<char> {
    "式を解析できません: "@ + kind_debug(t.kind)
}

/// The text of a parse error in file `file` at token `t`: `file:line:column: message`.
pub open spec fn parse_error_text(file: Seq<char>, t: Token, message: Seq<char>) -> Seq<char> {
    file + ":"@ + decimal(t.location.line as nat) + ":"@ + decimal(t.location.column as nat) + ": "@ + message
}

/// A parser over a list of tokens.
pub struct Parser {
    tokens: Vec<Token>,
    current: usize,
    file_path: String,
    node_ids: NodeIdSource,
}

fn parse_error(file: &String, t: &Token, message: &str) -> (e: EidosError)
    ensures
        e matches EidosError::ParserError(m) && m@ == parse_error_text(file@, *t, message@),
{
    let mut m = string_of(file.as_str());
    append_str(&mut m, ":");
    push_decimal(&mut m, t.location.line);
    append_str(&mut m, ":");
    push_decimal(&mut m, t.location.column);
    append_str(&mut m, ": ");
    append_str(&mut m, message);
    EidosError::ParserError(m)
}

impl Parser {
    /// The tokens.
    pub closed spec fn tokens(&self) -> Seq<Token> {
        self.tokens@
    }

    /// The index of the current token.
    pub closed spec fn position(&self) -> int {
        self.current as int
    }

    /// The file the tokens come from.
    pub closed spec fn file(&self) -> Seq<char> {
        self.file_path@
    }

    /// The id that the next node gets.
    pub closed spec fn next_node_id(&self) -> nat {
        self.node_ids.next_id()
    }

    /// A parser at the first token; node ids start at 0.
    pub fn new(tokens: Vec<Token>, file_path: String) -> (p: Self)
        ensures
            p.tokens() == tokens@,
            p.position() == 0,
            p.file() == file_path@,
            p.next_node_id() == 0,
    {
        Self { tokens, current: 0, file_path, node_ids: NodeIdSource::new() }
    }

    /// The current token.
    fn peek(&self) -> (t: &Token)
        requires
            self.position() < self.tokens().len(),
        ensures
            *t == self.tokens()[self.position()],
    {
        &self.tokens[self.current]
    }

    /// Whether the current token is `Eof`.
    fn is_at_end(&self) -> (r: bool)
        requires
            self.position() < self.tokens().len(),
        ensures
            r == is_eof(self.tokens()[self.position()].kind),
    {
        match self.peek().kind {
            TokenKind::Eof => true,
            _ => false,
        }
    }

    /// The token before the current one.
    fn previous(&self) -> (t: Token)
        requires
            1 <= self.position() <= self.tokens().len(),
        ensures
            t == self.tokens()[self.position() - 1],
    {
        self.tokens[self.current - 1].duplicate()
    }

    /// Moves past the current token unless it is `Eof`, and returns the token before the cursor.
    fn advance(&mut self) -> (t: Token)
        requires
            old(self).position() < old(self).tokens().len(),
            !is_eof(old(self).tokens()[old(self).position()].kind) || old(self).position() >= 1,
        ensures
            final(self).position() == if is_eof(old(self).tokens()[old(self).position()].kind) {
                old(self).position()
            } else {
                old(self).position() + 1
            },
            t == old(self).tokens()[final(self).position() - 1],
            final(self).tokens() == old(self).tokens(),
            final(self).file() == old(self).file(),
            final(self).next_node_id() == old(self).next_node_id(),
    {
        if !self.is_at_end() {
            let n = self.tokens.len();
            assert(self.current < n);
            self.current = self.current + 1;
        }
        self.previous()
    }

    /// Whether the current token has the same kind as `kind`, payload aside; never at `Eof`.
    fn check(&self, kind: &TokenKind) -> (r: bool)
        requires
            self.position() < self.tokens().len(),
        ensures
            r == (!is_eof(self.tokens()[self.position()].kind)
                && variant_index(self.tokens()[self.position()].kind) == variant_index(*kind)),
    {
        if self.is_at_end() {
            false
        } else {
            self.peek().kind.variant() == kind.variant()
        }
    }

    /// Moves past the current token if it has the kind of `kind`.
    fn match_token(&mut self, kind: &TokenKind) -> (r: bool)
        requires
            old(self).position() < old(self).tokens().len(),
        ensures
            r == (!is_eof(old(self).tokens()[old(self).position()].kind)
                && variant_index(old(self).tokens()[old(self).position()].kind) == variant_index(*kind)),
            final(self).position() == if r { old(self).position() + 1 } else { old(self).position() },
            final(self).tokens() == old(self).tokens(),
            final(self).file() == old(self).file(),
            final(self).next_node_id() == old(self).next_node_id(),
    {
        if self.check(kind) {
            let _ = self.advance();
            true
        } else {
            false
        }
    }

    /// Moves past the current token if it has the kind of `kind`, and returns
    /// it; otherwise fails with `message` at the current token.
    fn consume(&mut self, kind: &TokenKind, message: &str) -> (r: Result<Token, EidosError>)
        requires
            old(self).position() < old(self).tokens().len(),
        ensures
            final(self).tokens() == old(self).tokens(),
            final(self).file() == old(self).file(),
            final(self).next_node_id() == old(self).next_node_id(),
            (!is_eof(old(self).tokens()[old(self).position()].kind)
                && variant_index(old(self).tokens()[old(self).position()].kind) == variant_index(*kind)) ==> {
                &&& r == Ok::<Token, EidosError>(old(self).tokens()[old(self).position()])
                &&& final(self).position() == old(self).position() + 1
            },
            !(!is_eof(old(self).tokens()[old(self).position()].kind)
                && variant_index(old(self).tokens()[old(self).position()].kind) == variant_index(*kind)) ==> {
                &&& r matches Err(EidosError::ParserError(m))
                    && m@ == parse_error_text(old(self).file(), old(self).tokens()[old(self).position()], message@)
                &&& final(self).position() == old(self).position()
            },
    {
        if self.check(kind) {
            Ok(self.advance())
        } else {
            Err(parse_error(&self.file_path, self.peek(), message))
        }
    }

    /// After an error, skips tokens up to the end of the statement: just past
    /// a `;`, or to a token that starts a declaration or statement, or to `Eof`.
    fn synchronize(&mut self)
        requires
            old(self).position() < first_eof(old(self).tokens(), old(self).position()),
            first_eof(old(self).tokens(), old(self).position()) < old(self).tokens().len(),
        ensures
            final(self).tokens() == old(self).tokens(),
            final(self).file() == old(self).file(),
            final(self).next_node_id() == old(self).next_node_id(),
            old(self).position() < final(self).position() <= first_eof(old(self).tokens(), old(self).position()),
    {
        let ghost e = first_eof(self.tokens(), self.position());
        proof {
            lemma_first_eof(self.tokens(), self.position());
        }
        let _ = self.advance();
        while !self.is_at_end()
            invariant
                self.tokens() == old(self).tokens(),
                self.file() == old(self).file(),
                self.next_node_id() == old(self).next_node_id(),
                e == first_eof(self.tokens(), old(self).position()),
                e < self.tokens().len(),
                old(self).position() < self.position() <= e,
                e == first_eof(self.tokens(), self.position()),
            decreases e - self.position(),
        {
            proof {
                lemma_first_eof(self.tokens(), self.position());
            }
            let prev = self.previous();
            if let TokenKind::Semicolon = prev.kind {
                return;
            }
            match self.peek().kind {
                TokenKind::Fn | TokenKind::Let | TokenKind::Var | TokenKind::If | TokenKind::While
                | TokenKind::Return | TokenKind::Type | TokenKind::Struct | TokenKind::Enum => {
                    return;
                },
                _ => {},
            }
            let _ = self.advance();
        }
    }

    /// An expression: a literal made of the current token.
    fn expression(&mut self) -> (r: Result<ASTNode, EidosError>)
        requires
            old(self).position() < old(self).tokens().len(),
            !is_eof(old(self).tokens()[old(self).position()].kind),
            old(self).next_node_id() < usize::MAX,
        ensures
            final(self).tokens() == old(self).tokens(),
            final(self).file() == old(self).file(),
            is_expr_token(old(self).tokens()[old(self).position()].kind) ==> {
                &&& r matches Ok(n) && n.id.0 == old(self).next_node_id()
                    && node_from_token(n, old(self).tokens()[old(self).position()])
                &&& final(self).position() == old(self).position() + 1
                &&& final(self).next_node_id() == old(self).next_node_id() + 1
            },
            !is_expr_token(old(self).tokens()[old(self).position()].kind) ==>
                (r matches Err(EidosError::ParserError(m)) && m@ == parse_error_text(old(self).file(),
                    old(self).tokens()[old(self).position()],
                    expression_error_message(old(self).tokens()[old(self).position()]))),
    {
        let lit = match &self.peek().kind {
            TokenKind::Integer(value) => Literal::Int(*value),
            TokenKind::String(value) => Literal::String(value.clone()),
            TokenKind::True => Literal::Bool(true),
            TokenKind::False => Literal::Bool(false),
            _ => {
                let mut message = string_of("式を解析できません: ");
                let text = self.peek().kind.debug_text();
                append_str(&mut message, text.as_str());
                return Err(parse_error(&self.file_path, self.peek(), message.as_str()));
            },
        };
        let token = self.advance();
        let location = token.location;
        Ok(ASTNode::new(Node::Literal(lit), location, &mut self.node_ids))
    }

    /// A declaration; for now, an expression.
    fn declaration(&mut self) -> (r: Result<ASTNode, EidosError>)
        requires
            old(self).position() < old(self).tokens().len(),
            !is_eof(old(self).tokens()[old(self).position()].kind),
            old(self).next_node_id() < usize::MAX,
        ensures
            final(self).tokens() == old(self).tokens(),
            final(self).file() == old(self).file(),
            is_expr_token(old(self).tokens()[old(self).position()].kind) ==> {
                &&& r matches Ok(n) && n.id.0 == old(self).next_node_id()
                    && node_from_token(n, old(self).tokens()[old(self).position()])
                &&& final(self).position() == old(self).position() + 1
                &&& final(self).next_node_id() == old(self).next_node_id() + 1
            },
            !is_expr_token(old(self).tokens()[old(self).position()].kind) ==>
                (r matches Err(EidosError::ParserError(m)) && m@ == parse_error_text(old(self).file(),
                    old(self).tokens()[old(self).position()],
                    expression_error_message(old(self).tokens()[old(self).position()]))),
    {
        self.expression()
    }

    /// Parses declarations up to the first `Eof`: a program with one node per
    /// token, or the error at the first token that starts no expression.
    pub fn parse(&mut self) -> (r: Result<Program, EidosError>)
        requires
            first_eof(old(self).tokens(), old(self).position()) < old(self).tokens().len(),
            old(self).next_node_id() + old(self).tokens().len() < usize::MAX,
        ensures
            ({
                let ts = old(self).tokens();
                let c0 = old(self).position();
                let e = first_eof(ts, c0);
                let j = first_non_expr(ts, c0, e);
                let n0 = old(self).next_node_id();
                if j < e {
                    r matches Err(EidosError::ParserError(m))
                        && m@ == parse_error_text(old(self).file(), ts[j], expression_error_message(ts[j]))
                } else {
                    r matches Ok(p) && {
                        &&& p.file_path@ == old(self).file()
                        &&& p.nodes@.len() == e - c0
                        &&& p.node_map@.dom() == Set::new(|x: usize| n0 <= x < n0 + (e - c0))
                        &&& forall|k: int| 0 <= k < e - c0 ==> {
                            &&& (#[trigger] p.nodes@[k]).0 == n0 + k
                            &&& node_from_token(p.node_map@[(n0 + k) as usize], ts[c0 + k])
                            &&& p.node_map@[(n0 + k) as usize].id == p.nodes@[k]
                        }
                    }
                }
            }),
    {
        let ghost ts = self.tokens();
        let ghost c0 = self.position();
        let ghost e = first_eof(ts, c0);
        let ghost n0 = self.next_node_id();
        proof {
            lemma_first_eof(ts, c0);
        }
        let mut program = Program::new(self.file_path.clone());
        proof {
            assert(program.node_map@.dom() =~= Set::new(|x: usize| n0 <= x < n0 + (self.position() - c0)));
        }
        while !self.is_at_end()
            invariant
                ts == old(self).tokens(),
                c0 == old(self).position(),
                n0 == old(self).next_node_id(),
                e == first_eof(ts, c0),
                e < ts.len(),
                n0 + ts.len() < usize::MAX,
                self.tokens() == ts,
                self.file() == old(self).file(),
                program.file_path@ == old(self).file(),
                c0 <= self.position() <= e,
                e == first_eof(ts, self.position()),
                first_non_expr(ts, c0, e) == first_non_expr(ts, self.position(), e),
                self.next_node_id() == n0 + (self.position() - c0),
                program.nodes@.len() == self.position() - c0,
                program.node_map@.dom() == Set::new(|x: usize| n0 <= x < n0 + (self.position() - c0)),
                forall|k: int| 0 <= k < self.position() - c0 ==> {
                    &&& (#[trigger] program.nodes@[k]).0 == n0 + k
                    &&& node_from_token(program.node_map@[(n0 + k) as usize], ts[c0 + k])
                    &&& program.node_map@[(n0 + k) as usize].id == program.nodes@[k]
                },
            decreases e - self.position(),
        {
            proof {
                lemma_first_eof(ts, self.position());
            }
            let ghost p = self.position();
            match self.declaration() {
                Ok(node) => {
                    let ghost old_map = program.node_map@;
                    let ghost old_nodes = program.nodes@;
                    program.add_node(node);
                    proof {
                        assert(program.node_map@.dom() =~= Set::new(|x: usize| n0 <= x < n0 + (self.position() - c0)));
                        assert forall|k: int| 0 <= k < self.position() - c0 implies {
                            &&& (#[trigger] program.nodes@[k]).0 == n0 + k
                            &&& node_from_token(program.node_map@[(n0 + k) as usize], ts[c0 + k])
                            &&& program.node_map@[(n0 + k) as usize].id == program.nodes@[k]
                        } by {
                            if k < p - c0 {
                                assert(program.nodes@[k] == old_nodes[k]);
                                assert(old_map.contains_key((n0 + k) as usize));
                            }
                        }
                    }
                },
                Err(err) => {
                    return Err(err);
                },
            }
        }
        proof {
            assert(first_non_expr(ts, self.position(), e) == e);
        }
        Ok(program)
    }
}

/// The first `Eof` at or after `i` is an `Eof`, and no token before it is.
pub proof fn lemma_first_eof(ts: Seq<Token>, i: int)
    requires
        0 <= i <= ts.len(),
    ensures
        i <= first_eof(ts, i) <= ts.len(),
        first_eof(ts, i) < ts.len() ==> is_eof(ts[first_eof(ts, i)].kind),
        forall|k: int| i <= k < first_eof(ts, i) ==> !is_eof(#[trigger] ts[k].kind),
        i < ts.len() && !is_eof(ts[i].kind) ==> first_eof(ts, i + 1) == first_eof(ts, i),
    decreases ts.len() - i,
{
    if i < ts.len() && !is_eof(ts[i].kind) {
        lemma_first_eof(ts, i + 1);
    }
}

/// A literal token becomes the literal of the same value: an integer its
/// integer, `true` and `false` the booleans, a string its text.
pub proof fn lemma_literal_nodes(n: ASTNode, t: Token)
    requires
        node_from_token(n, t),
    ensures
        t.kind matches TokenKind::Integer(v) ==> n.kind == Node::Literal(Literal::Int(v)),
        t.kind is True ==> n.kind == Node::Literal(Literal::Bool(true)),
        t.kind is False ==> n.kind == Node::Literal(Literal::Bool(false)),
        t.kind matches TokenKind::String(x) ==> (n.kind matches Node::Literal(Literal::String(y)) && y@ == x@),
        n.location == t.location,
{
}

} // verus!
