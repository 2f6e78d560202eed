use vstd::prelude::*;

use crate::error::{EidosError, SourceLocation};
use crate::util::{append_str, decimal, push_char, push_decimal, push_signed, signed_decimal, str_eq, str_to_chars, string_of};

verus! {

// ---------------------------------------------------------------------------
// Character classes.

/// Whether a character has the Unicode `White_Space` property: tab, line
/// feed, vertical tab, form feed, carriage return, space, next line,
/// no-break space, ogham space mark, the spaces U+2000 to U+200A, line and
/// paragraph separators, narrow no-break space, medium mathematical space
/// and ideographic space.
pub open spec fn char_is_whitespace(c: char) -> bool {
    let u = c as u32;
    ||| 0x09 <= u && u <= 0x0D
    ||| u == 0x20
    ||| u == 0x85
    ||| u == 0xA0
    ||| u == 0x1680
    ||| 0x2000 <= u && u <= 0x200A
    ||| u == 0x2028
    ||| u == 0x2029
    ||| u == 0x202F
    ||| u == 0x205F
    ||| u == 0x3000
}

/// Whether a character has the Unicode `Alphabetic` property.
pub uninterp spec fn char_is_alphabetic(c: char) -> bool;

/// Whether a character is alphabetic or numeric in the Unicode sense.
pub uninterp spec fn char_is_alphanumeric(c: char) -> bool;

/// Whether a character has the Unicode `White_Space` property, as
/// `char_is_whitespace` lists them.
fn is_whitespace(c: char) -> (r: bool)
    ensures
        r == char_is_whitespace(c),
{
    let u = c as u32;
    (0x09 <= u && u <= 0x0D) || u == 0x20 || u == 0x85 || u == 0xA0 || u == 0x1680
        || (0x2000 <= u && u <= 0x200A) || u == 0x2028 || u == 0x2029 || u == 0x202F
        || u == 0x205F || u == 0x3000
}

/// Trusted: calls `char::is_alphabetic`, which tells whether the character has
/// the Unicode `Alphabetic` property. The result is named; of ASCII
/// characters, that property holds of the letters `A`-`Z` and `a`-`z` alone;
/// of other characters nothing is stated.
#[verifier::external_body]
fn is_alphabetic(c: char) -> (r: bool)
    ensures
        r == char_is_alphabetic(c),
        (c as u32) < 0x80 ==> (r <==> ('a' <= c <= 'z' || 'A' <= c <= 'Z')),
{
    c.is_alphabetic()
}

/// Trusted: calls `char::is_alphanumeric`, which tells whether the character is
/// alphabetic or numeric in the Unicode sense. The result is named; of ASCII
/// characters, the letters `A`-`Z`, `a`-`z` and the digits `0`-`9` are these
/// and no others; of other characters nothing is stated.
#[verifier::external_body]
fn is_alphanumeric(c: char) -> (r: bool)
    ensures
        r == char_is_alphanumeric(c),
        (c as u32) < 0x80 ==> (r <==> ('a' <= c <= 'z' || 'A' <= c <= 'Z' || '0' <= c <= '9')),
{
    c.is_alphanumeric()
}

/// An ASCII decimal digit.
pub open spec fn is_digit(c: char) -> bool {
    '0' <= c && c <= '9'
}

/// A character that may continue an identifier.
pub open spec fn is_ident_char(c: char) -> bool {
    char_is_alphanumeric(c) || c == '_'
}

/// The value of a decimal digit character.
pub open spec fn digit_value(c: char) -> i64 {
    ((c as u32) - ('0' as u32)) as i64
}

/// The value of a run of decimal digits, computed digit by digit in 64-bit
/// two's complement arithmetic that wraps on overflow.
pub open spec fn digits_value(ds: Seq<char>) -> i64
    decreases ds.len(),
{
    if ds.len() == 0 {
        0
    } else {
        digits_value(ds.drop_last()).wrapping_mul(10).wrapping_add(digit_value(ds.last()))
    }
}

// ---------------------------------------------------------------------------
// Tokens.

/// The kind of a token. A float literal holds its source text, which the
/// application reads as a number.
#[derive(Debug, Clone, PartialEq, Eq)]
pub enum TokenKind {
    Integer(i64),
    Float(String),
    String(String),
    Character(char),
    Boolean(bool),
    Identifier(String),
    Let,
    Var,
    Fn,
    Return,
    If,
    Else,
    While,
    For,
    In,
    Break,
    Continue,
    Type,
    Struct,
    Enum,
    Import,
    Export,
    Unsafe,
    As,
    Mut,
    True,
    False,
    LeftParen,
    RightParen,
    LeftBrace,
    RightBrace,
    LeftBracket,
    RightBracket,
    Semicolon,
    Colon,
    Comma,
    Dot,
    Arrow,
    Plus,
    Minus,
    Star,
    Slash,
    Percent,
    Ampersand,
    Pipe,
    Caret,
    Bang,
    Equal,
    EqualEqual,
    BangEqual,
    Less,
    LessEqual,
    Greater,
    GreaterEqual,
    AmpersandAmpersand,
    PipePipe,
    LessLess,
    GreaterGreater,
    DSLStart(String),
    DSLEnd,
    Eof,
    Unknown(char),
}

/// A token kind in the specification, with text as sequences of characters.
pub enum Lexeme {
    /// A kind without text.
    Plain(TokenKind),
    Ident(Seq<char>),
    Int(i64),
    Float(Seq<char>),
    Str(Seq<char>),
    Char(char),
    Dsl(Seq<char>),
}

/// Whether the token kind `k` is the lexeme `l`.
pub open spec fn kind_is(k: TokenKind, l: Lexeme) -> bool {
    match l {
        Lexeme::Plain(p) => k == p,
        Lexeme::Ident(n) => k matches TokenKind::Identifier(x) && x@ == n,
        Lexeme::Int(v) => k == TokenKind::Integer(v),
        Lexeme::Float(t) => k matches TokenKind::Float(x) && x@ == t,
        Lexeme::Str(t) => k matches TokenKind::String(x) && x@ == t,
        Lexeme::Char(c) => k == TokenKind::Character(c),
        Lexeme::Dsl(n) => k matches TokenKind::DSLStart(x) && x@ == n,
    }
}

/// A token and where it stands.
#[derive(Debug, Clone, PartialEq, Eq)]
pub struct Token {
    pub kind: TokenKind,
    pub location: SourceLocation,
}

impl Token {
    pub fn new(kind: TokenKind, location: SourceLocation) -> (t: Self)
        ensures
            t.kind == kind,
            t.location == location,
    {
        Self { kind, location }
    }
}

/// The position of a token kind among the kinds; kinds with the same
/// position differ only in their payload.
pub open spec fn variant_index(k: TokenKind) -> nat {
    match k {
        TokenKind::Integer(..) => 0,
        TokenKind::Float(..) => 1,
        TokenKind::String(..) => 2,
        TokenKind::Character(..) => 3,
        TokenKind::Boolean(..) => 4,
        TokenKind::Identifier(..) => 5,
        TokenKind::Let => 6,
        TokenKind::Var => 7,
        TokenKind::Fn => 8,
        TokenKind::Return => 9,
        TokenKind::If => 10,
        TokenKind::Else => 11,
        TokenKind::While => 12,
        TokenKind::For => 13,
        TokenKind::In => 14,
        TokenKind::Break => 15,
        TokenKind::Continue => 16,
        TokenKind::Type => 17,
        TokenKind::Struct => 18,
        TokenKind::Enum => 19,
        TokenKind::Import => 20,
        TokenKind::Export => 21,
        TokenKind::Unsafe => 22,
        TokenKind::As => 23,
        TokenKind::Mut => 24,
        TokenKind::True => 25,
        TokenKind::False => 26,
        TokenKind::LeftParen => 27,
        TokenKind::RightParen => 28,
        TokenKind::LeftBrace => 29,
        TokenKind::RightBrace => 30,
        TokenKind::LeftBracket => 31,
        TokenKind::RightBracket => 32,
        TokenKind::Semicolon => 33,
        TokenKind::Colon => 34,
        TokenKind::Comma => 35,
        TokenKind::Dot => 36,
        TokenKind::Arrow => 37,
        TokenKind::Plus => 38,
        TokenKind::Minus => 39,
        TokenKind::Star => 40,
        TokenKind::Slash => 41,
        TokenKind::Percent => 42,
        TokenKind::Ampersand => 43,
        TokenKind::Pipe => 44,
        TokenKind::Caret => 45,
        TokenKind::Bang => 46,
        TokenKind::Equal => 47,
        TokenKind::EqualEqual => 48,
        TokenKind::BangEqual => 49,
        TokenKind::Less => 50,
        TokenKind::LessEqual => 51,
        TokenKind::Greater => 52,
        TokenKind::GreaterEqual => 53,
        TokenKind::AmpersandAmpersand => 54,
        TokenKind::PipePipe => 55,
        TokenKind::LessLess => 56,
        TokenKind::GreaterGreater => 57,
        TokenKind::DSLStart(..) => 58,
        TokenKind::DSLEnd => 59,
        TokenKind::Eof => 60,
        TokenKind::Unknown(..) => 61,
    }
}

/// The debug text of a token kind: its name, and its payload in brackets
/// (text in double quotes, characters in single quotes, without escapes).
pub open spec fn kind_debug(k: TokenKind) -> Seq<char> {
    match k {
        TokenKind::Integer(v) => "Integer("@ + signed_decimal(v as int) + ")"@,
        TokenKind::Float(x) => "Float("@ + x@ + ")"@,
        TokenKind::String(x) => "String(\""@ + x@ + "\")"@,
        TokenKind::Character(c) => "Character('"@.push(c) + "')"@,
        TokenKind::Boolean(b) => if b { "Boolean(true)"@ } else { "Boolean(false)"@ },
        TokenKind::Identifier(x) => "Identifier(\""@ + x@ + "\")"@,
        TokenKind::Let => "Let"@,
        TokenKind::Var => "Var"@,
        TokenKind::Fn => "Fn"@,
        TokenKind::Return => "Return"@,
        TokenKind::If => "If"@,
        TokenKind::Else => "Else"@,
        TokenKind::While => "While"@,
        TokenKind::For => "For"@,
        TokenKind::In => "In"@,
        TokenKind::Break => "Break"@,
        TokenKind::Continue => "Continue"@,
        TokenKind::Type => "Type"@,
        TokenKind::Struct => "Struct"@,
        TokenKind::Enum => "Enum"@,
        TokenKind::Import => "Import"@,
        TokenKind::Export => "Export"@,
        TokenKind::Unsafe => "Unsafe"@,
        TokenKind::As => "As"@,
        TokenKind::Mut => "Mut"@,
        TokenKind::True => "True"@,
        TokenKind::False => "False"@,
        TokenKind::LeftParen => "LeftParen"@,
        TokenKind::RightParen => "RightParen"@,
        TokenKind::LeftBrace => "LeftBrace"@,
        TokenKind::RightBrace => "RightBrace"@,
        TokenKind::LeftBracket => "LeftBracket"@,
        TokenKind::RightBracket => "RightBracket"@,
        TokenKind::Semicolon => "Semicolon"@,
        TokenKind::Colon => "Colon"@,
        TokenKind::Comma => "Comma"@,
        TokenKind::Dot => "Dot"@,
        TokenKind::Arrow => "Arrow"@,
        TokenKind::Plus => "Plus"@,
        TokenKind::Minus => "Minus"@,
        TokenKind::Star => "Star"@,
        TokenKind::Slash => "Slash"@,
        TokenKind::Percent => "Percent"@,
        TokenKind::Ampersand => "Ampersand"@,
        TokenKind::Pipe => "Pipe"@,
        TokenKind::Caret => "Caret"@,
        TokenKind::Bang => "Bang"@,
        TokenKind::Equal => "Equal"@,
        TokenKind::EqualEqual => "EqualEqual"@,
        TokenKind::BangEqual => "BangEqual"@,
        TokenKind::Less => "Less"@,
        TokenKind::LessEqual => "LessEqual"@,
        TokenKind::Greater => "Greater"@,
        TokenKind::GreaterEqual => "GreaterEqual"@,
        TokenKind::AmpersandAmpersand => "AmpersandAmpersand"@,
        TokenKind::PipePipe => "PipePipe"@,
        TokenKind::LessLess => "LessLess"@,
        TokenKind::GreaterGreater => "GreaterGreater"@,
        TokenKind::DSLStart(x) => "DSLStart(\""@ + x@ + "\")"@,
        TokenKind::DSLEnd => "DSLEnd"@,
        TokenKind::Eof => "Eof"@,
        TokenKind::Unknown(c) => "Unknown('"@.push(c) + "')"@,
    }
}

impl TokenKind {
    /// The position of this kind among the kinds.
    pub fn variant(&self) -> (r: u8)
        ensures
            r as nat == variant_index(*self),
    {
        match self {
            TokenKind::Integer(..) => 0,
            TokenKind::Float(..) => 1,
            TokenKind::String(..) => 2,
            TokenKind::Character(..) => 3,
            TokenKind::Boolean(..) => 4,
            TokenKind::Identifier(..) => 5,
            TokenKind::Let => 6,
            TokenKind::Var => 7,
            TokenKind::Fn => 8,
            TokenKind::Return => 9,
            TokenKind::If => 10,
            TokenKind::Else => 11,
            TokenKind::While => 12,
            TokenKind::For => 13,
            TokenKind::In => 14,
            TokenKind::Break => 15,
            TokenKind::Continue => 16,
            TokenKind::Type => 17,
            TokenKind::Struct => 18,
            TokenKind::Enum => 19,
            TokenKind::Import => 20,
            TokenKind::Export => 21,
            TokenKind::Unsafe => 22,
            TokenKind::As => 23,
            TokenKind::Mut => 24,
            TokenKind::True => 25,
            TokenKind::False => 26,
            TokenKind::LeftParen => 27,
            TokenKind::RightParen => 28,
            TokenKind::LeftBrace => 29,
            TokenKind::RightBrace => 30,
            TokenKind::LeftBracket => 31,
            TokenKind::RightBracket => 32,
            TokenKind::Semicolon => 33,
            TokenKind::Colon => 34,
            TokenKind::Comma => 35,
            TokenKind::Dot => 36,
            TokenKind::Arrow => 37,
            TokenKind::Plus => 38,
            TokenKind::Minus => 39,
            TokenKind::Star => 40,
            TokenKind::Slash => 41,
            TokenKind::Percent => 42,
            TokenKind::Ampersand => 43,
            TokenKind::Pipe => 44,
            TokenKind::Caret => 45,
            TokenKind::Bang => 46,
            TokenKind::Equal => 47,
            TokenKind::EqualEqual => 48,
            TokenKind::BangEqual => 49,
            TokenKind::Less => 50,
            TokenKind::LessEqual => 51,
            TokenKind::Greater => 52,
            TokenKind::GreaterEqual => 53,
            TokenKind::AmpersandAmpersand => 54,
            TokenKind::PipePipe => 55,
            TokenKind::LessLess => 56,
            TokenKind::GreaterGreater => 57,
            TokenKind::DSLStart(..) => 58,
            TokenKind::DSLEnd => 59,
            TokenKind::Eof => 60,
            TokenKind::Unknown(..) => 61,
        }
    }

    /// A copy of this kind.
    pub fn duplicate(&self) -> (r: Self)
        ensures
            r == *self,
    {
        match self {
            TokenKind::Integer(x) => TokenKind::Integer(*x),
            TokenKind::Float(x) => TokenKind::Float(x.clone()),
            TokenKind::String(x) => TokenKind::String(x.clone()),
            TokenKind::Character(x) => TokenKind::Character(*x),
            TokenKind::Boolean(x) => TokenKind::Boolean(*x),
            TokenKind::Identifier(x) => TokenKind::Identifier(x.clone()),
            TokenKind::Let => TokenKind::Let,
            TokenKind::Var => TokenKind::Var,
            TokenKind::Fn => TokenKind::Fn,
            TokenKind::Return => TokenKind::Return,
            TokenKind::If => TokenKind::If,
            TokenKind::Else => TokenKind::Else,
            TokenKind::While => TokenKind::While,
            TokenKind::For => TokenKind::For,
            TokenKind::In => TokenKind::In,
            TokenKind::Break => TokenKind::Break,
            TokenKind::Continue => TokenKind::Continue,
            TokenKind::Type => TokenKind::Type,
            TokenKind::Struct => TokenKind::Struct,
            TokenKind::Enum => TokenKind::Enum,
            TokenKind::Import => TokenKind::Import,
            TokenKind::Export => TokenKind::Export,
            TokenKind::Unsafe => TokenKind::Unsafe,
            TokenKind::As => TokenKind::As,
            TokenKind::Mut => TokenKind::Mut,
            TokenKind::True => TokenKind::True,
            TokenKind::False => TokenKind::False,
            TokenKind::LeftParen => TokenKind::LeftParen,
            TokenKind::RightParen => TokenKind::RightParen,
            TokenKind::LeftBrace => TokenKind::LeftBrace,
            TokenKind::RightBrace => TokenKind::RightBrace,
            TokenKind::LeftBracket => TokenKind::LeftBracket,
            TokenKind::RightBracket => TokenKind::RightBracket,
            TokenKind::Semicolon => TokenKind::Semicolon,
            TokenKind::Colon => TokenKind::Colon,
            TokenKind::Comma => TokenKind::Comma,
            TokenKind::Dot => TokenKind::Dot,
            TokenKind::Arrow => TokenKind::Arrow,
            TokenKind::Plus => TokenKind::Plus,
            TokenKind::Minus => TokenKind::Minus,
            TokenKind::Star => TokenKind::Star,
            TokenKind::Slash => TokenKind::Slash,
            TokenKind::Percent => TokenKind::Percent,
            TokenKind::Ampersand => TokenKind::Ampersand,
            TokenKind::Pipe => TokenKind::Pipe,
            TokenKind::Caret => TokenKind::Caret,
            TokenKind::Bang => TokenKind::Bang,
            TokenKind::Equal => TokenKind::Equal,
            TokenKind::EqualEqual => TokenKind::EqualEqual,
            TokenKind::BangEqual => TokenKind::BangEqual,
            TokenKind::Less => TokenKind::Less,
            TokenKind::LessEqual => TokenKind::LessEqual,
            TokenKind::Greater => TokenKind::Greater,
            TokenKind::GreaterEqual => TokenKind::GreaterEqual,
            TokenKind::AmpersandAmpersand => TokenKind::AmpersandAmpersand,
            TokenKind::PipePipe => TokenKind::PipePipe,
            TokenKind::LessLess => TokenKind::LessLess,
            TokenKind::GreaterGreater => TokenKind::GreaterGreater,
            TokenKind::DSLStart(x) => TokenKind::DSLStart(x.clone()),
            TokenKind::DSLEnd => TokenKind::DSLEnd,
            TokenKind::Eof => TokenKind::Eof,
            TokenKind::Unknown(x) => TokenKind::Unknown(*x),
        }
    }

    /// The debug text of this kind.
    pub fn debug_text(&self) -> (r: String)
        ensures
            r@ == kind_debug(*self),
    {
        match self {
            TokenKind::Integer(v) => {
                let mut s = string_of("Integer(");
                push_signed(&mut s, *v);
                append_str(&mut s, ")");
                s
            },
            TokenKind::Float(x) => {
                let mut s = string_of("Float(");
                append_str(&mut s, x.as_str());
                append_str(&mut s, ")");
                s
            },
            TokenKind::String(x) => {
                let mut s = string_of("String(\"");
                append_str(&mut s, x.as_str());
                append_str(&mut s, "\")");
                s
            },
            TokenKind::Character(c) => {
                let mut s = string_of("Character('");
                push_char(&mut s, *c);
                append_str(&mut s, "')");
                s
            },
            TokenKind::Boolean(b) => if *b { string_of("Boolean(true)") } else { string_of("Boolean(false)") },
            TokenKind::Identifier(x) => {
                let mut s = string_of("Identifier(\"");
                append_str(&mut s, x.as_str());
                append_str(&mut s, "\")");
                s
            },
            TokenKind::Let => string_of("Let"),
            TokenKind::Var => string_of("Var"),
            TokenKind::Fn => string_of("Fn"),
            TokenKind::Return => string_of("Return"),
            TokenKind::If => string_of("If"),
            TokenKind::Else => string_of("Else"),
            TokenKind::While => string_of("While"),
            TokenKind::For => string_of("For"),
            TokenKind::In => string_of("In"),
            TokenKind::Break => string_of("Break"),
            TokenKind::Continue => string_of("Continue"),
            TokenKind::Type => string_of("Type"),
            TokenKind::Struct => string_of("Struct"),
            TokenKind::Enum => string_of("Enum"),
            TokenKind::Import => string_of("Import"),
            TokenKind::Export => string_of("Export"),
            TokenKind::Unsafe => string_of("Unsafe"),
            TokenKind::As => string_of("As"),
            TokenKind::Mut => string_of("Mut"),
            TokenKind::True => string_of("True"),
            TokenKind::False => string_of("False"),
            TokenKind::LeftParen => string_of("LeftParen"),
            TokenKind::RightParen => string_of("RightParen"),
            TokenKind::LeftBrace => string_of("LeftBrace"),
            TokenKind::RightBrace => string_of("RightBrace"),
            TokenKind::LeftBracket => string_of("LeftBracket"),
            TokenKind::RightBracket => string_of("RightBracket"),
            TokenKind::Semicolon => string_of("Semicolon"),
            TokenKind::Colon => string_of("Colon"),
            TokenKind::Comma => string_of("Comma"),
            TokenKind::Dot => string_of("Dot"),
            TokenKind::Arrow => string_of("Arrow"),
            TokenKind::Plus => string_of("Plus"),
            TokenKind::Minus => string_of("Minus"),
            TokenKind::Star => string_of("Star"),
            TokenKind::Slash => string_of("Slash"),
            TokenKind::Percent => string_of("Percent"),
            TokenKind::Ampersand => string_of("Ampersand"),
            TokenKind::Pipe => string_of("Pipe"),
            TokenKind::Caret => string_of("Caret"),
            TokenKind::Bang => string_of("Bang"),
            TokenKind::Equal => string_of("Equal"),
            TokenKind::EqualEqual => string_of("EqualEqual"),
            TokenKind::BangEqual => string_of("BangEqual"),
            TokenKind::Less => string_of("Less"),
            TokenKind::LessEqual => string_of("LessEqual"),
            TokenKind::Greater => string_of("Greater"),
            TokenKind::GreaterEqual => string_of("GreaterEqual"),
            TokenKind::AmpersandAmpersand => string_of("AmpersandAmpersand"),
            TokenKind::PipePipe => string_of("PipePipe"),
            TokenKind::LessLess => string_of("LessLess"),
            TokenKind::GreaterGreater => string_of("GreaterGreater"),
            TokenKind::DSLStart(x) => {
                let mut s = string_of("DSLStart(\"");
                append_str(&mut s, x.as_str());
                append_str(&mut s, "\")");
                s
            },
            TokenKind::DSLEnd => string_of("DSLEnd"),
            TokenKind::Eof => string_of("Eof"),
            TokenKind::Unknown(c) => {
                let mut s = string_of("Unknown('");
                push_char(&mut s, *c);
                append_str(&mut s, "')");
                s
            },
        }
    }
}

impl Token {
    /// A copy of this token.
    pub fn duplicate(&self) -> (r: Self)
        ensures
            r == *self,
    {
        Token { kind: self.kind.duplicate(), location: self.location.duplicate() }
    }
}

/// The display text of a token kind: the literal as written, the keyword,
/// the operator or punctuation, `@name {` for a DSL opening, `EOF` at the end.
pub open spec fn kind_display(k: TokenKind) -> Seq<char> {
    match k {
        TokenKind::Integer(v) => signed_decimal(v as int),
        TokenKind::Float(v) => v@,
        TokenKind::String(v) => "\""@ + v@ + "\""@,
        TokenKind::Character(v) => "'"@.push(v) + "'"@,
        TokenKind::Boolean(v) => if v { "true"@ } else { "false"@ },
        TokenKind::Identifier(v) => v@,
        TokenKind::Let => "let"@,
        TokenKind::Var => "var"@,
        TokenKind::Fn => "fn"@,
        TokenKind::Return => "return"@,
        TokenKind::If => "if"@,
        TokenKind::Else => "else"@,
        TokenKind::While => "while"@,
        TokenKind::For => "for"@,
        TokenKind::In => "in"@,
        TokenKind::Break => "break"@,
        TokenKind::Continue => "continue"@,
        TokenKind::Type => "type"@,
        TokenKind::Struct => "struct"@,
        TokenKind::Enum => "enum"@,
        TokenKind::Import => "import"@,
        TokenKind::Export => "export"@,
        TokenKind::Unsafe => "unsafe"@,
        TokenKind::As => "as"@,
        TokenKind::Mut => "mut"@,
        TokenKind::True => "true"@,
        TokenKind::False => "false"@,
        TokenKind::LeftParen => "("@,
        TokenKind::RightParen => ")"@,
        TokenKind::LeftBrace => "{"@,
        TokenKind::RightBrace => "}"@,
        TokenKind::LeftBracket => "["@,
        TokenKind::RightBracket => "]"@,
        TokenKind::Semicolon => ";"@,
        TokenKind::Colon => ":"@,
        TokenKind::Comma => ","@,
        TokenKind::Dot => "."@,
        TokenKind::Arrow => "->"@,
        TokenKind::Plus => "+"@,
        TokenKind::Minus => "-"@,
        TokenKind::Star => "*"@,
        TokenKind::Slash => "/"@,
        TokenKind::Percent => "%"@,
        TokenKind::Ampersand => "&"@,
        TokenKind::Pipe => "|"@,
        TokenKind::Caret => "^"@,
        TokenKind::Bang => "!"@,
        TokenKind::Equal => "="@,
        TokenKind::EqualEqual => "=="@,
        TokenKind::BangEqual => "!="@,
        TokenKind::Less => "<"@,
        TokenKind::LessEqual => "<="@,
        TokenKind::Greater => ">"@,
        TokenKind::GreaterEqual => ">="@,
        TokenKind::AmpersandAmpersand => "&&"@,
        TokenKind::PipePipe => "||"@,
        TokenKind::LessLess => "<<"@,
        TokenKind::GreaterGreater => ">>"@,
        TokenKind::DSLStart(v) => "@"@ + v@ + " {"@,
        TokenKind::DSLEnd => "}"@,
        TokenKind::Eof => "EOF"@,
        TokenKind::Unknown(v) => "Unknown("@.push(v) + ")"@,
    }
}

impl TokenKind {
    /// The display text of this kind.
    pub fn to_string(&self) -> (r: String)
        ensures
            r@ == kind_display(*self),
    {
        match self {
            TokenKind::Integer(v) => {
                let mut s = String::new();
                push_signed(&mut s, *v);
                proof {
                    assert(s@ =~= signed_decimal(*v as int));
                }
                s
            },
            TokenKind::Float(v) => v.clone(),
            TokenKind::String(v) => {
                let mut s = string_of("\"");
                append_str(&mut s, v.as_str());
                append_str(&mut s, "\"");
                s
            },
            TokenKind::Character(v) => {
                let mut s = string_of("'");
                push_char(&mut s, *v);
                append_str(&mut s, "'");
                s
            },
            TokenKind::Boolean(v) => if *v { string_of("true") } else { string_of("false") },
            TokenKind::Identifier(v) => v.clone(),
            TokenKind::Let => string_of("let"),
            TokenKind::Var => string_of("var"),
            TokenKind::Fn => string_of("fn"),
            TokenKind::Return => string_of("return"),
            TokenKind::If => string_of("if"),
            TokenKind::Else => string_of("else"),
            TokenKind::While => string_of("while"),
            TokenKind::For => string_of("for"),
            TokenKind::In => string_of("in"),
            TokenKind::Break => string_of("break"),
            TokenKind::Continue => string_of("continue"),
            TokenKind::Type => string_of("type"),
            TokenKind::Struct => string_of("struct"),
            TokenKind::Enum => string_of("enum"),
            TokenKind::Import => string_of("import"),
            TokenKind::Export => string_of("export"),
            TokenKind::Unsafe => string_of("unsafe"),
            TokenKind::As => string_of("as"),
            TokenKind::Mut => string_of("mut"),
            TokenKind::True => string_of("true"),
            TokenKind::False => string_of("false"),
            TokenKind::LeftParen => string_of("("),
            TokenKind::RightParen => string_of(")"),
            TokenKind::LeftBrace => string_of("{"),
            TokenKind::RightBrace => string_of("}"),
            TokenKind::LeftBracket => string_of("["),
            TokenKind::RightBracket => string_of("]"),
            TokenKind::Semicolon => string_of(";"),
            TokenKind::Colon => string_of(":"),
            TokenKind::Comma => string_of(","),
            TokenKind::Dot => string_of("."),
            TokenKind::Arrow => string_of("->"),
            TokenKind::Plus => string_of("+"),
            TokenKind::Minus => string_of("-"),
            TokenKind::Star => string_of("*"),
            TokenKind::Slash => string_of("/"),
            TokenKind::Percent => string_of("%"),
            TokenKind::Ampersand => string_of("&"),
            TokenKind::Pipe => string_of("|"),
            TokenKind::Caret => string_of("^"),
            TokenKind::Bang => string_of("!"),
            TokenKind::Equal => string_of("="),
            TokenKind::EqualEqual => string_of("=="),
            TokenKind::BangEqual => string_of("!="),
            TokenKind::Less => string_of("<"),
            TokenKind::LessEqual => string_of("<="),
            TokenKind::Greater => string_of(">"),
            TokenKind::GreaterEqual => string_of(">="),
            TokenKind::AmpersandAmpersand => string_of("&&"),
            TokenKind::PipePipe => string_of("||"),
            TokenKind::LessLess => string_of("<<"),
            TokenKind::GreaterGreater => string_of(">>"),
            TokenKind::DSLStart(v) => {
                let mut s = string_of("@");
                append_str(&mut s, v.as_str());
                append_str(&mut s, " {");
                s
            },
            TokenKind::DSLEnd => string_of("}"),
            TokenKind::Eof => string_of("EOF"),
            TokenKind::Unknown(v) => {
                let mut s = string_of("Unknown(");
                push_char(&mut s, *v);
                append_str(&mut s, ")");
                s
            },
        }
    }
}

// ---------------------------------------------------------------------------
// The scanner as functions on the input.

/// A cursor: position in the input, line and column, both counted from one.
pub type Cur = (int, int, int);

/// A lexical error: message, line and column.
pub type LexErr = (Seq<char>, int, int);

/// A scanned token: what it is, where it starts and where the scanner stands after it.
pub type Scanned = (Lexeme, Cur, Cur);

/// The character under the cursor.
pub open spec fn cur_char(s: Seq<char>, c: Cur) -> Option<char> {
    if 0 <= c.0 < s.len() { Some(s[c.0]) } else { None }
}

/// The character after the one under the cursor.
pub open spec fn peek_char(s: Seq<char>, c: Cur) -> Option<char> {
    if 0 <= c.0 + 1 < s.len() { Some(s[c.0 + 1]) } else { None }
}

/// Moves past the character under the cursor; a newline starts the next line.
pub open spec fn adv(s: Seq<char>, c: Cur) -> Cur {
    if cur_char(s, c) == Some('\n') { (c.0 + 1, c.1 + 1, 1) } else { (c.0 + 1, c.1, c.2 + 1) }
}

/// Whether cursor `b` is at or after cursor `a` by line and column.
pub open spec fn cur_le(a: Cur, b: Cur) -> bool {
    a.1 < b.1 || (a.1 == b.1 && a.2 <= b.2)
}

/// A cursor within the input whose line and column are in range.
pub open spec fn cur_wf(s: Seq<char>, c: Cur) -> bool {
    &&& 0 <= c.0 <= s.len()
    &&& 1 <= c.1 <= c.0 + 1
    &&& 1 <= c.2 <= c.0 + 1
}

/// Skips whitespace.
pub open spec fn skip_ws(s: Seq<char>, c: Cur) -> Cur
    decreases s.len() - c.0,
{
    if 0 <= c.0 < s.len() && char_is_whitespace(s[c.0]) { skip_ws(s, adv(s, c)) } else { c }
}

/// Skips to the end of the line, leaving the newline.
pub open spec fn skip_line(s: Seq<char>, c: Cur) -> Cur
    decreases s.len() - c.0,
{
    if 0 <= c.0 < s.len() && s[c.0] != '\n' { skip_line(s, adv(s, c)) } else { c }
}

/// Skips the rest of a block comment that is `depth` comments deep; block
/// comments nest. An unterminated comment ends at the end of the input.
pub open spec fn skip_block(s: Seq<char>, c: Cur, depth: nat) -> Cur
    decreases s.len() - c.0,
{
    if depth == 0 || !(0 <= c.0 < s.len()) {
        c
    } else if s[c.0] == '*' && peek_char(s, c) == Some('/') {
        skip_block(s, adv(s, adv(s, c)), (depth - 1) as nat)
    } else if s[c.0] == '/' && peek_char(s, c) == Some('*') {
        skip_block(s, adv(s, adv(s, c)), depth + 1)
    } else {
        skip_block(s, adv(s, c), depth)
    }
}

/// Whether a comment starts under the cursor.
pub open spec fn at_comment(s: Seq<char>, c: Cur) -> bool {
    cur_char(s, c) == Some('/') && (peek_char(s, c) == Some('/') || peek_char(s, c) == Some('*'))
}

/// Skips the comment that starts under the cursor, if one does.
pub open spec fn skip_comment(s: Seq<char>, c: Cur) -> Cur {
    if cur_char(s, c) == Some('/') && peek_char(s, c) == Some('/') {
        skip_line(s, adv(s, adv(s, c)))
    } else if cur_char(s, c) == Some('/') && peek_char(s, c) == Some('*') {
        skip_block(s, adv(s, adv(s, c)), 1)
    } else {
        c
    }
}

/// Skips whitespace and comments.
pub open spec fn skip_trivia(s: Seq<char>, c: Cur) -> Cur
    decreases s.len() - c.0,
{
    let c1 = skip_ws(s, c);
    if at_comment(s, c1) {
        proof {
            lemma_skip_ws(s, c);
            lemma_skip_comment(s, c1);
        }
        skip_trivia(s, skip_comment(s, c1))
    } else {
        c1
    }
}

/// Moves past characters that may continue an identifier.
pub open spec fn ident_end(s: Seq<char>, c: Cur) -> Cur
    decreases s.len() - c.0,
{
    if 0 <= c.0 < s.len() && is_ident_char(s[c.0]) { ident_end(s, adv(s, c)) } else { c }
}

/// Moves past decimal digits.
pub open spec fn digits_end(s: Seq<char>, c: Cur) -> Cur
    decreases s.len() - c.0,
{
    if 0 <= c.0 < s.len() && is_digit(s[c.0]) { digits_end(s, adv(s, c)) } else { c }
}

/// The token kind of a word: a keyword, or else an identifier.
pub open spec fn keyword_lexeme(w: Seq<char>) -> Lexeme {
    if w == "let"@ { Lexeme::Plain(TokenKind::Let) }
    else if w == "var"@ { Lexeme::Plain(TokenKind::Var) }
    else if w == "fn"@ { Lexeme::Plain(TokenKind::Fn) }
    else if w == "return"@ { Lexeme::Plain(TokenKind::Return) }
    else if w == "if"@ { Lexeme::Plain(TokenKind::If) }
    else if w == "else"@ { Lexeme::Plain(TokenKind::Else) }
    else if w == "while"@ { Lexeme::Plain(TokenKind::While) }
    else if w == "for"@ { Lexeme::Plain(TokenKind::For) }
    else if w == "in"@ { Lexeme::Plain(TokenKind::In) }
    else if w == "break"@ { Lexeme::Plain(TokenKind::Break) }
    else if w == "continue"@ { Lexeme::Plain(TokenKind::Continue) }
    else if w == "type"@ { Lexeme::Plain(TokenKind::Type) }
    else if w == "struct"@ { Lexeme::Plain(TokenKind::Struct) }
    else if w == "enum"@ { Lexeme::Plain(TokenKind::Enum) }
    else if w == "import"@ { Lexeme::Plain(TokenKind::Import) }
    else if w == "export"@ { Lexeme::Plain(TokenKind::Export) }
    else if w == "unsafe"@ { Lexeme::Plain(TokenKind::Unsafe) }
    else if w == "as"@ { Lexeme::Plain(TokenKind::As) }
    else if w == "mut"@ { Lexeme::Plain(TokenKind::Mut) }
    else if w == "true"@ { Lexeme::Plain(TokenKind::True) }
    else if w == "false"@ { Lexeme::Plain(TokenKind::False) }
    else { Lexeme::Ident(w) }
}

/// Whether a `.` followed by a digit is under the cursor.
pub open spec fn starts_fraction(s: Seq<char>, c: Cur) -> bool {
    cur_char(s, c) == Some('.') && match peek_char(s, c) {
        Some(d) => is_digit(d),
        None => false,
    }
}

/// A number literal starting under the cursor: its lexeme and the cursor after it.
/// A `.` followed by a digit makes it a float.
pub open spec fn scan_number(s: Seq<char>, c: Cur) -> (Lexeme, Cur) {
    let e = digits_end(s, c);
    if starts_fraction(s, e) {
        let f = digits_end(s, adv(s, e));
        (Lexeme::Float(s.subrange(c.0, f.0)), f)
    } else {
        (Lexeme::Int(digits_value(s.subrange(c.0, e.0))), e)
    }
}

/// The character an escape letter stands for; `quote` escapes itself.
pub open spec fn escape_char(e: char, quote: char) -> Option<char> {
    if e == 'n' { Some('\n') }
    else if e == 'r' { Some('\r') }
    else if e == 't' { Some('\t') }
    else if e == '\\' { Some('\\') }
    else if e == quote { Some(quote) }
    else { None }
}

/// The message for an unknown escape letter.
pub open spec fn unknown_escape_message(e: char) -> Seq<char> {
    "不明なエスケープシーケンス: \\"@.push(e)
}

/// The rest of a string literal after `acc`: its text and the cursor after
/// the closing quote.
pub open spec fn scan_string_body(s: Seq<char>, c: Cur, acc: Seq<char>) -> Result<(Seq<char>, Cur), LexErr>
    decreases s.len() - c.0,
{
    if !(0 <= c.0 < s.len()) {
        Err(("文字列リテラルが閉じられていません"@, c.1, c.2))
    } else if s[c.0] == '"' {
        Ok((acc, adv(s, c)))
    } else if s[c.0] == '\\' {
        let c1 = adv(s, c);
        if c1.0 < s.len() {
            match escape_char(s[c1.0], '"') {
                Some(x) => scan_string_body(s, adv(s, c1), acc.push(x)),
                None => Err((unknown_escape_message(s[c1.0]), c1.1, c1.2)),
            }
        } else {
            Err(("文字列リテラルが途中で終了しました"@, c1.1, c1.2))
        }
    } else {
        scan_string_body(s, adv(s, c), acc.push(s[c.0]))
    }
}

/// A character literal whose opening quote is under the cursor.
pub open spec fn scan_char(s: Seq<char>, c: Cur) -> Result<(char, Cur), LexErr> {
    let c1 = adv(s, c);
    let body: Result<(char, Cur), LexErr> = match cur_char(s, c1) {
        Some(x) => if x == '\\' {
            let c2 = adv(s, c1);
            match cur_char(s, c2) {
                Some(e) => match escape_char(e, '\'') {
                    Some(y) => Ok((y, c2)),
                    None => Err((unknown_escape_message(e), c2.1, c2.2)),
                },
                None => Err(("文字リテラルが途中で終了しました"@, c2.1, c2.2)),
            }
        } else {
            Ok((x, c1))
        },
        None => Err(("文字リテラルが空です"@, c1.1, c1.2)),
    };
    match body {
        Ok((ch, c3)) => {
            let c4 = adv(s, c3);
            if cur_char(s, c4) == Some('\'') {
                Ok((ch, adv(s, c4)))
            } else {
                Err(("文字リテラルが閉じられていません"@, c4.1, c4.2))
            }
        },
        Err(e) => Err(e),
    }
}

/// A DSL block opening `@name {` whose `@` is under the cursor: the name and
/// the cursor after the brace.
pub open spec fn scan_dsl_start(s: Seq<char>, c: Cur) -> Result<(Seq<char>, Cur), LexErr> {
    let c1 = adv(s, c);
    let e = ident_end(s, c1);
    if e.0 == c1.0 {
        Err(("DSL名が指定されていません"@, e.1, e.2))
    } else {
        let w = skip_ws(s, e);
        if cur_char(s, w) == Some('{') {
            Ok((s.subrange(c1.0, e.0), adv(s, w)))
        } else {
            Err(("DSLブロックの開始には '{' が必要です"@, w.1, w.2))
        }
    }
}

/// An operator or punctuation character `ch` under the cursor, looking at the
/// next character for the two-character operators.
pub open spec fn scan_symbol(s: Seq<char>, c: Cur, ch: char) -> (TokenKind, Cur) {
    let c1 = adv(s, c);
    let next = cur_char(s, c1);
    if ch == '(' { (TokenKind::LeftParen, c1) }
    else if ch == ')' { (TokenKind::RightParen, c1) }
    else if ch == '{' { (TokenKind::LeftBrace, c1) }
    else if ch == '}' { (TokenKind::RightBrace, c1) }
    else if ch == '[' { (TokenKind::LeftBracket, c1) }
    else if ch == ']' { (TokenKind::RightBracket, c1) }
    else if ch == ';' { (TokenKind::Semicolon, c1) }
    else if ch == ':' { (TokenKind::Colon, c1) }
    else if ch == ',' { (TokenKind::Comma, c1) }
    else if ch == '.' { (TokenKind::Dot, c1) }
    else if ch == '+' { (TokenKind::Plus, c1) }
    else if ch == '-' { if next == Some('>') { (TokenKind::Arrow, adv(s, c1)) } else { (TokenKind::Minus, c1) } }
    else if ch == '*' { (TokenKind::Star, c1) }
    else if ch == '/' { (TokenKind::Slash, c1) }
    else if ch == '%' { (TokenKind::Percent, c1) }
    else if ch == '&' { if next == Some('&') { (TokenKind::AmpersandAmpersand, adv(s, c1)) } else { (TokenKind::Ampersand, c1) } }
    else if ch == '|' { if next == Some('|') { (TokenKind::PipePipe, adv(s, c1)) } else { (TokenKind::Pipe, c1) } }
    else if ch == '^' { (TokenKind::Caret, c1) }
    else if ch == '!' { if next == Some('=') { (TokenKind::BangEqual, adv(s, c1)) } else { (TokenKind::Bang, c1) } }
    else if ch == '=' { if next == Some('=') { (TokenKind::EqualEqual, adv(s, c1)) } else { (TokenKind::Equal, c1) } }
    else if ch == '<' {
        if next == Some('=') { (TokenKind::LessEqual, adv(s, c1)) }
        else if next == Some('<') { (TokenKind::LessLess, adv(s, c1)) }
        else { (TokenKind::Less, c1) }
    }
    else if ch == '>' {
        if next == Some('=') { (TokenKind::GreaterEqual, adv(s, c1)) }
        else if next == Some('>') { (TokenKind::GreaterGreater, adv(s, c1)) }
        else { (TokenKind::Greater, c1) }
    }
    else { (TokenKind::Unknown(ch), c1) }
}

/// The next token from cursor `c`: whitespace and comments are skipped first;
/// at the end of the input the token is `Eof`, which starts and ends where the
/// input ends.
pub open spec fn scan_token(s: Seq<char>, c: Cur) -> Result<Scanned, LexErr> {
    let st = skip_trivia(s, c);
    match cur_char(s, st) {
        None => Ok((Lexeme::Plain(TokenKind::Eof), st, st)),
        Some(ch) => {
            if char_is_alphabetic(ch) || ch == '_' {
                let e = ident_end(s, adv(s, st));
                Ok((keyword_lexeme(s.subrange(st.0, e.0)), st, e))
            } else if is_digit(ch) {
                let (l, e) = scan_number(s, st);
                Ok((l, st, e))
            } else if ch == '"' {
                match scan_string_body(s, adv(s, st), seq![]) {
                    Ok((t, e)) => Ok((Lexeme::Str(t), st, e)),
                    Err(err) => Err(err),
                }
            } else if ch == '\'' {
                match scan_char(s, st) {
                    Ok((x, e)) => Ok((Lexeme::Char(x), st, e)),
                    Err(err) => Err(err),
                }
            } else if ch == '@' {
                match scan_dsl_start(s, st) {
                    Ok((n, e)) => Ok((Lexeme::Dsl(n), st, e)),
                    Err(err) => Err(err),
                }
            } else {
                let (k, e) = scan_symbol(s, st, ch);
                Ok((Lexeme::Plain(k), st, e))
            }
        },
    }
}

/// The length recorded for a token: its width when it stays on one line, else one.
pub open spec fn token_length(st: Cur, e: Cur) -> int {
    if e.1 == st.1 { e.2 - st.2 } else { 1 }
}

/// The location of a scanned token in file `file`.
pub open spec fn token_location(file: Seq<char>, t: Scanned) -> (Seq<char>, int, int, int) {
    if t.0 == Lexeme::Plain(TokenKind::Eof) {
        (file, t.1.1, t.1.2, 0)
    } else {
        (file, t.1.1, t.1.2, token_length(t.1, t.2))
    }
}

/// Whether `loc` is the location `l`.
pub open spec fn location_is(loc: SourceLocation, l: (Seq<char>, int, int, int)) -> bool {
    loc.file@ == l.0 && loc.line == l.1 && loc.column == l.2 && loc.length == l.3
}

/// The text of a lexical error in file `file`: `file:line:column: message`.
pub open spec fn lex_error_text(file: Seq<char>, e: LexErr) -> Seq<char> {
    file + ":"@ + decimal(e.1 as nat) + ":"@ + decimal(e.2 as nat) + ": "@ + e.0
}

/// All tokens from cursor `c` up to and including `Eof`, or the first error.
pub open spec fn scan_all(s: Seq<char>, c: Cur) -> Result<Seq<Scanned>, LexErr>
    decreases s.len() - c.0,
{
    match scan_token(s, c) {
        Err(e) => Err(e),
        Ok(t) => if t.0 == Lexeme::Plain(TokenKind::Eof) {
            Ok(seq![t])
        } else {
            proof {
                lemma_scan_token_progress(s, c);
                assert(scan_progress(s, c, t));
            }
            match scan_all(s, t.2) {
                Ok(rest) => Ok(seq![t] + rest),
                Err(e) => Err(e),
            }
        },
    }
}

/// The tokens `done` followed by the outcome `r` of scanning the rest.
pub open spec fn prepend_scanned(done: Seq<Scanned>, r: Result<Seq<Scanned>, LexErr>) -> Result<Seq<Scanned>, LexErr> {
    match r {
        Ok(rest) => Ok(done + rest),
        Err(e) => Err(e),
    }
}

// ---------------------------------------------------------------------------
// Lemmas on the cursor.

pub proof fn lemma_adv(s: Seq<char>, c: Cur)
    ensures
        cur_le(c, adv(s, c)),
        cur_wf(s, c) && c.0 < s.len() ==> cur_wf(s, adv(s, c)),
        adv(s, c).0 == c.0 + 1,
{
}

pub proof fn lemma_skip_ws(s: Seq<char>, c: Cur)
    ensures
        skip_ws(s, c).0 >= c.0,
        cur_le(c, skip_ws(s, c)),
        c.0 <= s.len() ==> skip_ws(s, c).0 <= s.len(),
        cur_wf(s, c) ==> cur_wf(s, skip_ws(s, c)),
    decreases s.len() - c.0,
{
    if 0 <= c.0 < s.len() && char_is_whitespace(s[c.0]) {
        lemma_skip_ws(s, adv(s, c));
    }
}

pub proof fn lemma_skip_line(s: Seq<char>, c: Cur)
    ensures
        skip_line(s, c).0 >= c.0,
        c.0 <= s.len() ==> skip_line(s, c).0 <= s.len(),
        cur_wf(s, c) ==> cur_wf(s, skip_line(s, c)),
    decreases s.len() - c.0,
{
    if 0 <= c.0 < s.len() && s[c.0] != '\n' {
        lemma_skip_line(s, adv(s, c));
    }
}

pub proof fn lemma_skip_block(s: Seq<char>, c: Cur, depth: nat)
    ensures
        skip_block(s, c, depth).0 >= c.0,
        c.0 <= s.len() ==> skip_block(s, c, depth).0 <= s.len(),
        cur_wf(s, c) ==> cur_wf(s, skip_block(s, c, depth)),
    decreases s.len() - c.0,
{
    if depth == 0 || !(0 <= c.0 < s.len()) {
    } else if s[c.0] == '*' && peek_char(s, c) == Some('/') {
        lemma_skip_block(s, adv(s, adv(s, c)), (depth - 1) as nat);
    } else if s[c.0] == '/' && peek_char(s, c) == Some('*') {
        lemma_skip_block(s, adv(s, adv(s, c)), depth + 1);
    } else {
        lemma_skip_block(s, adv(s, c), depth);
    }
}

pub proof fn lemma_skip_comment(s: Seq<char>, c: Cur)
    ensures
        skip_comment(s, c).0 >= c.0,
        c.0 <= s.len() ==> skip_comment(s, c).0 <= s.len(),
        at_comment(s, c) ==> skip_comment(s, c).0 >= c.0 + 2,
        cur_wf(s, c) ==> cur_wf(s, skip_comment(s, c)),
{
    if at_comment(s, c) {
        lemma_skip_line(s, adv(s, adv(s, c)));
        lemma_skip_block(s, adv(s, adv(s, c)), 1);
    }
}

pub proof fn lemma_skip_trivia(s: Seq<char>, c: Cur)
    ensures
        skip_trivia(s, c).0 >= c.0,
        c.0 <= s.len() ==> skip_trivia(s, c).0 <= s.len(),
        cur_wf(s, c) ==> cur_wf(s, skip_trivia(s, c)),
    decreases s.len() - c.0,
{
    lemma_skip_ws(s, c);
    let c1 = skip_ws(s, c);
    if at_comment(s, c1) {
        lemma_skip_comment(s, c1);
        lemma_skip_trivia(s, skip_comment(s, c1));
    }
}

pub proof fn lemma_ident_end(s: Seq<char>, c: Cur)
    ensures
        ident_end(s, c).0 >= c.0,
        cur_le(c, ident_end(s, c)),
        c.0 <= s.len() ==> ident_end(s, c).0 <= s.len(),
        cur_wf(s, c) ==> cur_wf(s, ident_end(s, c)),
    decreases s.len() - c.0,
{
    if 0 <= c.0 < s.len() && is_ident_char(s[c.0]) {
        lemma_ident_end(s, adv(s, c));
    }
}

pub proof fn lemma_digits_end(s: Seq<char>, c: Cur)
    ensures
        digits_end(s, c).0 >= c.0,
        cur_le(c, digits_end(s, c)),
        c.0 <= s.len() ==> digits_end(s, c).0 <= s.len(),
        cur_wf(s, c) ==> cur_wf(s, digits_end(s, c)),
        forall|i: int| c.0 <= i < digits_end(s, c).0 ==> 0 <= i < s.len() && is_digit(#[trigger] s[i]),
    decreases s.len() - c.0,
{
    if 0 <= c.0 < s.len() && is_digit(s[c.0]) {
        lemma_digits_end(s, adv(s, c));
        assert(adv(s, c).0 == c.0 + 1);
        assert(is_digit(s[c.0]));
    }
}

pub proof fn lemma_string_body(s: Seq<char>, c: Cur, acc: Seq<char>)
    ensures
        scan_string_body(s, c, acc) matches Ok((_, e)) ==> e.0 > c.0 && e.0 <= s.len() && (cur_wf(s, c) ==> cur_wf(s, e))
            && cur_le(c, e),
    decreases s.len() - c.0,
{
    if !(0 <= c.0 < s.len()) {
    } else if s[c.0] == '"' {
    } else if s[c.0] == '\\' {
        let c1 = adv(s, c);
        if c1.0 < s.len() {
            match escape_char(s[c1.0], '"') {
                Some(x) => lemma_string_body(s, adv(s, c1), acc.push(x)),
                None => {},
            }
        }
    } else {
        lemma_string_body(s, adv(s, c), acc.push(s[c.0]));
    }
}

/// What a scanned token tells of the scanner's progress from cursor `c`.
pub open spec fn scan_progress(s: Seq<char>, c: Cur, t: Scanned) -> bool {
    &&& cur_wf(s, c) ==> cur_wf(s, t.2)
    &&& t.1.0 >= c.0
    &&& t.1.0 <= t.2.0
    &&& cur_le(t.1, t.2)
    &&& t.0 != Lexeme::Plain(TokenKind::Eof) ==> t.2.0 > c.0 && 0 <= c.0 && t.2.0 <= s.len()
}

pub proof fn lemma_scan_token_progress(s: Seq<char>, c: Cur)
    ensures
        scan_token(s, c) matches Ok(t) ==> scan_progress(s, c, t),
{
    lemma_skip_trivia(s, c);
    let st = skip_trivia(s, c);
    let r = scan_token(s, c);
    if c.0 < 0 {
        assert(skip_ws(s, c) == c);
        assert(st == c);
    }
    match cur_char(s, st) {
        None => {
            assert(r matches Ok(t) ==> scan_progress(s, c, t));
        },
        Some(ch) => {
            assert(0 <= st.0 < s.len());
            lemma_adv(s, st);
            if char_is_alphabetic(ch) || ch == '_' {
                lemma_ident_end(s, adv(s, st));
                assert(r matches Ok(t) ==> scan_progress(s, c, t));
            } else if is_digit(ch) {
                lemma_digits_end(s, st);
                lemma_digits_end(s, adv(s, st));
                let e = digits_end(s, st);
                assert(e == digits_end(s, adv(s, st)));
                assert(e.0 >= st.0 + 1);
                if starts_fraction(s, e) {
                    lemma_adv(s, e);
                    lemma_digits_end(s, adv(s, e));
                }
                assert(r matches Ok(t) ==> scan_progress(s, c, t));
            } else if ch == '"' {
                lemma_string_body(s, adv(s, st), seq![]);
                assert(r matches Ok(t) ==> scan_progress(s, c, t));
            } else if ch == '\'' {
                let c1 = adv(s, st);
                lemma_adv(s, c1);
                let c2 = adv(s, c1);
                lemma_adv(s, c2);
                let c3 = adv(s, c2);
                lemma_adv(s, c3);
                assert(r matches Ok(t) ==> scan_progress(s, c, t));
            } else if ch == '@' {
                let c1 = adv(s, st);
                lemma_ident_end(s, c1);
                let e = ident_end(s, c1);
                lemma_skip_ws(s, e);
                let w = skip_ws(s, e);
                lemma_adv(s, w);
                assert(r matches Ok(t) ==> scan_progress(s, c, t));
            } else {
                let c1 = adv(s, st);
                lemma_adv(s, c1);
                assert(r matches Ok(t) ==> scan_progress(s, c, t));
            }
        },
    }
}


// ---------------------------------------------------------------------------
// The lexer.

/// A lexer over the characters of one source file.
pub struct Lexer {
    chars: Vec<char>,
    pos: usize,
    line: usize,
    column: usize,
    file_path: String,
}

/// Builds the error for a lexical error in file `file`.
fn lex_error(file: &String, message: &str, line: usize, column: usize) -> (e: EidosError)
    ensures
        e matches EidosError::LexerError(t) && t@ == lex_error_text(file@, (message@, line as int, column as int)),
{
    let mut t = string_of(file.as_str());
    append_str(&mut t, ":");
    push_decimal(&mut t, line);
    append_str(&mut t, ":");
    push_decimal(&mut t, column);
    append_str(&mut t, ": ");
    append_str(&mut t, message);
    EidosError::LexerError(t)
}

/// Builds the error for an unknown escape letter.
fn escape_error(file: &String, e: char, line: usize, column: usize) -> (r: EidosError)
    ensures
        r matches EidosError::LexerError(t) && t@ == lex_error_text(file@, (unknown_escape_message(e), line as int, column as int)),
{
    let mut m = string_of("不明なエスケープシーケンス: \\");
    push_char(&mut m, e);
    let mut t = string_of(file.as_str());
    append_str(&mut t, ":");
    push_decimal(&mut t, line);
    append_str(&mut t, ":");
    push_decimal(&mut t, column);
    append_str(&mut t, ": ");
    append_str(&mut t, m.as_str());
    EidosError::LexerError(t)
}

fn escape_of(e: char, quote: char) -> (r: Option<char>)
    ensures
        r == escape_char(e, quote),
{
    if e == 'n' { Some('\n') }
    else if e == 'r' { Some('\r') }
    else if e == 't' { Some('\t') }
    else if e == '\\' { Some('\\') }
    else if e == quote { Some(quote) }
    else { None }
}

/// Whether the lexer's token `t` from input `s` with file `file` is the scanned token `sc`.
pub open spec fn token_is(t: Token, file: Seq<char>, sc: Scanned) -> bool {
    kind_is(t.kind, sc.0) && location_is(t.location, token_location(file, sc))
}

impl Lexer {
    #[verifier::type_invariant]
    closed spec fn inv(self) -> bool {
        &&& cur_wf(self.chars@, self.cur())
        &&& self.chars@.len() < usize::MAX
    }

    /// The input, as characters.
    pub closed spec fn input(&self) -> Seq<char> {
        self.chars@
    }

    /// The cursor: position, line and column.
    pub closed spec fn cur(&self) -> Cur {
        (self.pos as int, self.line as int, self.column as int)
    }

    /// The file the input comes from.
    pub closed spec fn file(&self) -> Seq<char> {
        self.file_path@
    }

    /// A lexer at the start of `input`: line 1, column 1.
    pub fn new(input: &str, file_path: String) -> (l: Self)
        requires
            input@.len() < usize::MAX,
        ensures
            l.input() == input@,
            l.cur() == (0int, 1int, 1int),
            l.file() == file_path@,
    {
        let chars = str_to_chars(input);
        Lexer { chars, pos: 0, line: 1, column: 1, file_path }
    }

    /// The current position, with the given length.
    fn current_location(&self, length: usize) -> (loc: SourceLocation)
        ensures
            location_is(loc, (self.file(), self.cur().1, self.cur().2, length as int)),
    {
        SourceLocation::new(self.file_path.clone(), self.line, self.column, length)
    }

    fn current(&self) -> (r: Option<char>)
        ensures
            r == cur_char(self.input(), self.cur()),
    {
        if self.pos < self.chars.len() { Some(self.chars[self.pos]) } else { None }
    }

    /// The character after the current one.
    fn peek(&self) -> (r: Option<char>)
        ensures
            r == peek_char(self.input(), self.cur()),
    {
        proof {
            use_type_invariant(self);
        }
        if self.pos + 1 < self.chars.len() { Some(self.chars[self.pos + 1]) } else { None }
    }

    /// Moves past the current character.
    fn advance(&mut self)
        requires
            old(self).cur().0 < old(self).input().len(),
        ensures
            final(self).cur() == adv(old(self).input(), old(self).cur()),
            final(self).input() == old(self).input(),
            final(self).file() == old(self).file(),
    {
        proof {
            use_type_invariant(&*self);
        }
        let c = self.chars[self.pos];
        self.pos = self.pos + 1;
        if c == '\n' {
            self.line = self.line + 1;
            self.column = 1;
        } else {
            self.column = self.column + 1;
        }
    }

    /// Moves past the current character if it is `expected`.
    fn match_char(&mut self, expected: char) -> (r: bool)
        ensures
            r == (cur_char(old(self).input(), old(self).cur()) == Some(expected)),
            r ==> final(self).cur() == adv(old(self).input(), old(self).cur()),
            !r ==> final(self).cur() == old(self).cur(),
            final(self).input() == old(self).input(),
            final(self).file() == old(self).file(),
    {
        match self.current() {
            Some(c) => {
                if c == expected {
                    self.advance();
                    true
                } else {
                    false
                }
            },
            None => false,
        }
    }

    /// Skips whitespace.
    fn skip_whitespace(&mut self)
        ensures
            final(self).cur() == skip_ws(old(self).input(), old(self).cur()),
            final(self).input() == old(self).input(),
            final(self).file() == old(self).file(),
    {
        loop
            invariant
                self.input() == old(self).input(),
                self.file() == old(self).file(),
                skip_ws(self.input(), self.cur()) == skip_ws(old(self).input(), old(self).cur()),
            ensures
                self.cur() == skip_ws(old(self).input(), old(self).cur()),
                self.input() == old(self).input(),
                self.file() == old(self).file(),
            decreases self.input().len() - self.cur().0,
        {
            proof {
                use_type_invariant(&*self);
            }
            match self.current() {
                Some(c) => {
                    if is_whitespace(c) {
                        self.advance();
                    } else {
                        break;
                    }
                },
                None => {
                    break;
                },
            }
        }
    }

    /// Skips to the end of the line.
    fn skip_line(&mut self)
        ensures
            final(self).cur() == skip_line(old(self).input(), old(self).cur()),
            final(self).input() == old(self).input(),
            final(self).file() == old(self).file(),
    {
        loop
            invariant
                self.input() == old(self).input(),
                self.file() == old(self).file(),
                skip_line(self.input(), self.cur()) == skip_line(old(self).input(), old(self).cur()),
            ensures
                self.cur() == skip_line(old(self).input(), old(self).cur()),
                self.input() == old(self).input(),
                self.file() == old(self).file(),
            decreases self.input().len() - self.cur().0,
        {
            proof {
                use_type_invariant(&*self);
            }
            match self.current() {
                Some(c) => {
                    if c == '\n' {
                        break;
                    }
                    self.advance();
                },
                None => {
                    break;
                },
            }
        }
    }

    /// Skips the rest of a block comment `depth` comments deep.
    fn skip_block(&mut self, depth: usize)
        requires
            depth == 1,
        ensures
            final(self).cur() == skip_block(old(self).input(), old(self).cur(), depth as nat),
            final(self).input() == old(self).input(),
            final(self).file() == old(self).file(),
    {
        let mut nesting: usize = depth;
        loop
            invariant
                self.input() == old(self).input(),
                self.file() == old(self).file(),
                nesting <= self.cur().0 + 1,
                skip_block(self.input(), self.cur(), nesting as nat) == skip_block(old(self).input(), old(self).cur(), depth as nat),
            ensures
                self.cur() == skip_block(old(self).input(), old(self).cur(), depth as nat),
                self.input() == old(self).input(),
                self.file() == old(self).file(),
            decreases self.input().len() - self.cur().0,
        {
            proof {
                use_type_invariant(&*self);
            }
            if nesting == 0 {
                break;
            }
            match self.current() {
                Some(c) => {
                    let next = self.peek();
                    if c == '*' && next == Some('/') {
                        self.advance();
                        self.advance();
                        nesting = nesting - 1;
                    } else if c == '/' && next == Some('*') {
                        self.advance();
                        self.advance();
                        nesting = nesting + 1;
                    } else {
                        self.advance();
                    }
                },
                None => {
                    break;
                },
            }
        }
    }

    /// Skips the comment under the cursor, if one starts there.
    fn skip_comment(&mut self)
        ensures
            final(self).cur() == skip_comment(old(self).input(), old(self).cur()),
            final(self).input() == old(self).input(),
            final(self).file() == old(self).file(),
    {
        if self.current() == Some('/') {
            let next = self.peek();
            if next == Some('/') {
                self.advance();
                self.advance();
                self.skip_line();
            } else if next == Some('*') {
                self.advance();
                self.advance();
                self.skip_block(1);
            }
        }
    }

    /// Skips whitespace and comments.
    fn skip_whitespace_and_comments(&mut self)
        ensures
            final(self).cur() == skip_trivia(old(self).input(), old(self).cur()),
            final(self).input() == old(self).input(),
            final(self).file() == old(self).file(),
    {
        loop
            invariant_except_break
                skip_trivia(self.input(), self.cur()) == skip_trivia(old(self).input(), old(self).cur()),
            invariant
                self.input() == old(self).input(),
                self.file() == old(self).file(),
            ensures
                self.cur() == skip_trivia(old(self).input(), old(self).cur()),
                self.input() == old(self).input(),
                self.file() == old(self).file(),
            decreases self.input().len() - self.cur().0,
        {
            proof {
                use_type_invariant(&*self);
            }
            let ghost c0 = self.cur();
            self.skip_whitespace();
            let next = self.peek();
            if self.current() == Some('/') && (next == Some('/') || next == Some('*')) {
                proof {
                    lemma_skip_ws(self.input(), c0);
                    lemma_skip_comment(self.input(), self.cur());
                }
                self.skip_comment();
            } else {
                proof {
                    assert(skip_trivia(self.input(), c0) == self.cur());
                }
                break;
            }
        }
    }

    /// The input from position `from` up to the cursor, as a string.
    fn text_from(&self, from: usize) -> (r: String)
        requires
            from <= self.cur().0,
        ensures
            r@ == self.input().subrange(from as int, self.cur().0),
    {
        proof {
            use_type_invariant(self);
        }
        let mut t = String::new();
        let mut i: usize = from;
        while i < self.pos
            invariant
                from <= i <= self.cur().0,
                self.cur().0 <= self.input().len(),
                t@ == self.input().subrange(from as int, i as int),
            decreases self.cur().0 - i,
        {
            push_char(&mut t, self.chars[i]);
            proof {
                assert(t@ =~= self.input().subrange(from as int, i + 1));
            }
            i = i + 1;
        }
        t
    }

    /// A number literal whose first digit is under the cursor.
    fn number(&mut self) -> (k: TokenKind)
        requires
            cur_char(old(self).input(), old(self).cur()) matches Some(c) && is_digit(c),
        ensures
            kind_is(k, scan_number(old(self).input(), old(self).cur()).0),
            final(self).cur() == scan_number(old(self).input(), old(self).cur()).1,
            final(self).input() == old(self).input(),
            final(self).file() == old(self).file(),
    {
        proof {
            use_type_invariant(&*self);
        }
        let ghost s = self.input();
        let ghost c0 = self.cur();
        let start = self.pos;
        let mut value: i64 = 0;
        loop
            invariant
                self.input() == s,
                self.file() == old(self).file(),
                start == c0.0,
                c0.0 <= self.cur().0 <= s.len(),
                digits_end(s, self.cur()) == digits_end(s, c0),
                value == digits_value(s.subrange(c0.0, self.cur().0)),
            ensures
                self.input() == s,
                self.file() == old(self).file(),
                self.cur() == digits_end(s, c0),
                value == digits_value(s.subrange(c0.0, self.cur().0)),
            decreases s.len() - self.cur().0,
        {
            proof {
                use_type_invariant(&*self);
            }
            match self.current() {
                Some(c) => {
                    if '0' <= c && c <= '9' {
                        let d: i64 = ((c as u32) - ('0' as u32)) as i64;
                        proof {
                            let sub = s.subrange(c0.0, self.cur().0 + 1);
                            assert(sub.drop_last() =~= s.subrange(c0.0, self.cur().0));
                            assert(sub.last() == c);
                        }
                        value = value.wrapping_mul(10).wrapping_add(d);
                        self.advance();
                    } else {
                        break;
                    }
                },
                None => {
                    break;
                },
            }
        }
        let next = self.peek();
        let is_float = match self.current() {
            Some(c) => c == '.' && match next {
                Some(d) => '0' <= d && d <= '9',
                None => false,
            },
            None => false,
        };
        if is_float {
            self.advance();
            loop
                invariant
                    self.input() == s,
                    self.file() == old(self).file(),
                    c0.0 <= self.cur().0 <= s.len(),
                    digits_end(s, self.cur()) == scan_number(s, c0).1,
                ensures
                    self.input() == s,
                    self.file() == old(self).file(),
                    c0.0 <= self.cur().0,
                    self.cur() == scan_number(s, c0).1,
                decreases s.len() - self.cur().0,
            {
                proof {
                    use_type_invariant(&*self);
                }
                match self.current() {
                    Some(c) => {
                        if '0' <= c && c <= '9' {
                            self.advance();
                        } else {
                            break;
                        }
                    },
                    None => {
                        break;
                    },
                }
            }
            TokenKind::Float(self.text_from(start))
        } else {
            TokenKind::Integer(value)
        }
    }

    /// The token kind of a word.
    fn keyword_kind(name: String) -> (k: TokenKind)
        ensures
            kind_is(k, keyword_lexeme(name@)),
    {
        let w = name.as_str();
        if str_eq(w, "let") { TokenKind::Let }
        else if str_eq(w, "var") { TokenKind::Var }
        else if str_eq(w, "fn") { TokenKind::Fn }
        else if str_eq(w, "return") { TokenKind::Return }
        else if str_eq(w, "if") { TokenKind::If }
        else if str_eq(w, "else") { TokenKind::Else }
        else if str_eq(w, "while") { TokenKind::While }
        else if str_eq(w, "for") { TokenKind::For }
        else if str_eq(w, "in") { TokenKind::In }
        else if str_eq(w, "break") { TokenKind::Break }
        else if str_eq(w, "continue") { TokenKind::Continue }
        else if str_eq(w, "type") { TokenKind::Type }
        else if str_eq(w, "struct") { TokenKind::Struct }
        else if str_eq(w, "enum") { TokenKind::Enum }
        else if str_eq(w, "import") { TokenKind::Import }
        else if str_eq(w, "export") { TokenKind::Export }
        else if str_eq(w, "unsafe") { TokenKind::Unsafe }
        else if str_eq(w, "as") { TokenKind::As }
        else if str_eq(w, "mut") { TokenKind::Mut }
        else if str_eq(w, "true") { TokenKind::True }
        else if str_eq(w, "false") { TokenKind::False }
        else { TokenKind::Identifier(name) }
    }

    /// An identifier or keyword whose first character is under the cursor.
    fn identifier(&mut self) -> (k: TokenKind)
        requires
            cur_char(old(self).input(), old(self).cur()) is Some,
        ensures
            kind_is(k, keyword_lexeme(old(self).input().subrange(old(self).cur().0,
                ident_end(old(self).input(), adv(old(self).input(), old(self).cur())).0))),
            final(self).cur() == ident_end(old(self).input(), adv(old(self).input(), old(self).cur())),
            final(self).input() == old(self).input(),
            final(self).file() == old(self).file(),
    {
        let ghost s = self.input();
        let ghost c0 = self.cur();
        let mut name = String::new();
        match self.current() {
            Some(c) => {
                push_char(&mut name, c);
            },
            None => {},
        }
        self.advance();
        proof {
            assert(name@ =~= s.subrange(c0.0, self.cur().0));
        }
        loop
            invariant
                self.input() == s,
                self.file() == old(self).file(),
                0 <= c0.0 <= self.cur().0 <= s.len(),
                ident_end(s, self.cur()) == ident_end(s, adv(s, c0)),
                name@ == s.subrange(c0.0, self.cur().0),
            ensures
                self.input() == s,
                self.file() == old(self).file(),
                self.cur() == ident_end(s, adv(s, c0)),
                name@ == s.subrange(c0.0, self.cur().0),
            decreases s.len() - self.cur().0,
        {
            proof {
                use_type_invariant(&*self);
            }
            match self.current() {
                Some(c) => {
                    if is_alphanumeric(c) || c == '_' {
                        push_char(&mut name, c);
                        proof {
                            assert(name@ =~= s.subrange(c0.0, self.cur().0 + 1));
                        }
                        self.advance();
                    } else {
                        break;
                    }
                },
                None => {
                    break;
                },
            }
        }
        Self::keyword_kind(name)
    }

    /// A string literal whose opening quote is under the cursor.
    fn string(&mut self) -> (r: Result<TokenKind, EidosError>)
        requires
            cur_char(old(self).input(), old(self).cur()) == Some('"'),
        ensures
            final(self).input() == old(self).input(),
            final(self).file() == old(self).file(),
            match scan_string_body(old(self).input(), adv(old(self).input(), old(self).cur()), seq![]) {
                Ok((t, e)) => r matches Ok(k) && kind_is(k, Lexeme::Str(t)) && final(self).cur() == e,
                Err(err) => r matches Err(EidosError::LexerError(m)) && m@ == lex_error_text(old(self).file(), err),
            },
    {
        let ghost s = self.input();
        let ghost c0 = self.cur();
        let mut value = String::new();
        self.advance();
        loop
            invariant
                s == old(self).input(),
                c0 == old(self).cur(),
                self.input() == s,
                self.file() == old(self).file(),
                scan_string_body(s, self.cur(), value@) == scan_string_body(s, adv(s, c0), seq![]),
            decreases s.len() - self.cur().0,
        {
            proof {
                use_type_invariant(&*self);
            }
            match self.current() {
                Some(c) => {
                    if c == '"' {
                        self.advance();
                        return Ok(TokenKind::String(value));
                    } else if c == '\\' {
                        self.advance();
                        match self.current() {
                            Some(e) => {
                                match escape_of(e, '"') {
                                    Some(x) => {
                                        push_char(&mut value, x);
                                    },
                                    None => {
                                        return Err(escape_error(&self.file_path, e, self.line, self.column));
                                    },
                                }
                            },
                            None => {
                                return Err(lex_error(&self.file_path, "文字列リテラルが途中で終了しました", self.line, self.column));
                            },
                        }
                        self.advance();
                    } else {
                        push_char(&mut value, c);
                        self.advance();
                    }
                },
                None => {
                    return Err(lex_error(&self.file_path, "文字列リテラルが閉じられていません", self.line, self.column));
                },
            }
        }
    }

    /// A character literal whose opening quote is under the cursor.
    fn character(&mut self) -> (r: Result<TokenKind, EidosError>)
        requires
            cur_char(old(self).input(), old(self).cur()) == Some('\''),
        ensures
            final(self).input() == old(self).input(),
            final(self).file() == old(self).file(),
            match scan_char(old(self).input(), old(self).cur()) {
                Ok((x, e)) => r == Ok::<TokenKind, EidosError>(TokenKind::Character(x)) && final(self).cur() == e,
                Err(err) => r matches Err(EidosError::LexerError(m)) && m@ == lex_error_text(old(self).file(), err),
            },
    {
        proof {
            use_type_invariant(&*self);
        }
        self.advance();
        proof {
            use_type_invariant(&*self);
        }
        let c = match self.current() {
            Some(x) => {
                if x == '\\' {
                    self.advance();
                    proof {
                        use_type_invariant(&*self);
                    }
                    match self.current() {
                        Some(e) => {
                            match escape_of(e, '\'') {
                                Some(y) => y,
                                None => {
                                    return Err(escape_error(&self.file_path, e, self.line, self.column));
                                },
                            }
                        },
                        None => {
                            return Err(lex_error(&self.file_path, "文字リテラルが途中で終了しました", self.line, self.column));
                        },
                    }
                } else {
                    x
                }
            },
            None => {
                return Err(lex_error(&self.file_path, "文字リテラルが空です", self.line, self.column));
            },
        };
        self.advance();
        if self.current() != Some('\'') {
            return Err(lex_error(&self.file_path, "文字リテラルが閉じられていません", self.line, self.column));
        }
        self.advance();
        Ok(TokenKind::Character(c))
    }

    /// A DSL block opening `@name {` whose `@` is under the cursor.
    fn dsl_start(&mut self) -> (r: Result<TokenKind, EidosError>)
        requires
            cur_char(old(self).input(), old(self).cur()) == Some('@'),
        ensures
            final(self).input() == old(self).input(),
            final(self).file() == old(self).file(),
            match scan_dsl_start(old(self).input(), old(self).cur()) {
                Ok((n, e)) => r matches Ok(k) && kind_is(k, Lexeme::Dsl(n)) && final(self).cur() == e,
                Err(err) => r matches Err(EidosError::LexerError(m)) && m@ == lex_error_text(old(self).file(), err),
            },
    {
        let ghost s = self.input();
        let ghost c0 = self.cur();
        self.advance();
        let ghost c1 = self.cur();
        let name_start = self.pos;
        let mut name = String::new();
        proof {
            assert(name@ =~= s.subrange(c1.0, self.cur().0));
        }
        loop
            invariant
                self.input() == s,
                self.file() == old(self).file(),
                c1 == adv(s, c0),
                name_start == c1.0,
                0 <= c1.0 <= self.cur().0 <= s.len(),
                ident_end(s, self.cur()) == ident_end(s, c1),
                name@ == s.subrange(c1.0, self.cur().0),
            ensures
                self.input() == s,
                self.file() == old(self).file(),
                c1.0 <= self.cur().0,
                self.cur() == ident_end(s, c1),
                name@ == s.subrange(c1.0, self.cur().0),
            decreases s.len() - self.cur().0,
        {
            proof {
                use_type_invariant(&*self);
            }
            match self.current() {
                Some(c) => {
                    if is_alphanumeric(c) || c == '_' {
                        push_char(&mut name, c);
                        proof {
                            assert(name@ =~= s.subrange(c1.0, self.cur().0 + 1));
                        }
                        self.advance();
                    } else {
                        break;
                    }
                },
                None => {
                    break;
                },
            }
        }
        if self.pos == name_start {
            return Err(lex_error(&self.file_path, "DSL名が指定されていません", self.line, self.column));
        }
        self.skip_whitespace();
        if self.current() != Some('{') {
            return Err(lex_error(&self.file_path, "DSLブロックの開始には '{' が必要です", self.line, self.column));
        }
        self.advance();
        Ok(TokenKind::DSLStart(name))
    }

    /// An operator or punctuation character under the cursor.
    fn symbol(&mut self, ch: char) -> (k: TokenKind)
        requires
            cur_char(old(self).input(), old(self).cur()) == Some(ch),
        ensures
            k == scan_symbol(old(self).input(), old(self).cur(), ch).0,
            final(self).cur() == scan_symbol(old(self).input(), old(self).cur(), ch).1,
            final(self).input() == old(self).input(),
            final(self).file() == old(self).file(),
    {
        self.advance();
        if ch == '(' { TokenKind::LeftParen }
        else if ch == ')' { TokenKind::RightParen }
        else if ch == '{' { TokenKind::LeftBrace }
        else if ch == '}' { TokenKind::RightBrace }
        else if ch == '[' { TokenKind::LeftBracket }
        else if ch == ']' { TokenKind::RightBracket }
        else if ch == ';' { TokenKind::Semicolon }
        else if ch == ':' { TokenKind::Colon }
        else if ch == ',' { TokenKind::Comma }
        else if ch == '.' { TokenKind::Dot }
        else if ch == '+' { TokenKind::Plus }
        else if ch == '-' { if self.match_char('>') { TokenKind::Arrow } else { TokenKind::Minus } }
        else if ch == '*' { TokenKind::Star }
        else if ch == '/' { TokenKind::Slash }
        else if ch == '%' { TokenKind::Percent }
        else if ch == '&' { if self.match_char('&') { TokenKind::AmpersandAmpersand } else { TokenKind::Ampersand } }
        else if ch == '|' { if self.match_char('|') { TokenKind::PipePipe } else { TokenKind::Pipe } }
        else if ch == '^' { TokenKind::Caret }
        else if ch == '!' { if self.match_char('=') { TokenKind::BangEqual } else { TokenKind::Bang } }
        else if ch == '=' { if self.match_char('=') { TokenKind::EqualEqual } else { TokenKind::Equal } }
        else if ch == '<' {
            if self.match_char('=') { TokenKind::LessEqual }
            else if self.match_char('<') { TokenKind::LessLess }
            else { TokenKind::Less }
        }
        else if ch == '>' {
            if self.match_char('=') { TokenKind::GreaterEqual }
            else if self.match_char('>') { TokenKind::GreaterGreater }
            else { TokenKind::Greater }
        }
        else { TokenKind::Unknown(ch) }
    }

    /// The next token: whitespace and comments are skipped first; at the end of
    /// the input the token is `Eof`, with length 0 at the current position.
    pub fn next_token(&mut self) -> (r: Result<Token, EidosError>)
        ensures
            final(self).input() == old(self).input(),
            final(self).file() == old(self).file(),
            match scan_token(old(self).input(), old(self).cur()) {
                Ok(sc) => r matches Ok(t) && token_is(t, old(self).file(), sc) && final(self).cur() == sc.2,
                Err(err) => r matches Err(EidosError::LexerError(m)) && m@ == lex_error_text(old(self).file(), err),
            },
    {
        proof {
            use_type_invariant(&*self);
            lemma_scan_token_progress(self.input(), self.cur());
        }
        self.skip_whitespace_and_comments();
        let c = match self.current() {
            Some(c) => c,
            None => {
                let loc = self.current_location(0);
                return Ok(Token::new(TokenKind::Eof, loc));
            },
        };
        let start_line = self.line;
        let start_column = self.column;
        let kind = if is_alphabetic(c) || c == '_' {
            self.identifier()
        } else if '0' <= c && c <= '9' {
            self.number()
        } else if c == '"' {
            match self.string() {
                Ok(k) => k,
                Err(e) => {
                    return Err(e);
                },
            }
        } else if c == '\'' {
            match self.character() {
                Ok(k) => k,
                Err(e) => {
                    return Err(e);
                },
            }
        } else if c == '@' {
            match self.dsl_start() {
                Ok(k) => k,
                Err(e) => {
                    return Err(e);
                },
            }
        } else {
            self.symbol(c)
        };
        let length = if self.line == start_line { self.column - start_column } else { 1 };
        let location = SourceLocation::new(self.file_path.clone(), start_line, start_column, length);
        Ok(Token::new(kind, location))
    }

    /// All tokens up to and including `Eof`, or the first error.
    pub fn tokenize(&mut self) -> (r: Result<Vec<Token>, EidosError>)
        ensures
            final(self).input() == old(self).input(),
            final(self).file() == old(self).file(),
            match scan_all(old(self).input(), old(self).cur()) {
                Ok(ts) => r matches Ok(v) && v@.len() == ts.len()
                    && forall|i: int| 0 <= i < ts.len() ==> token_is(#[trigger] v@[i], old(self).file(), ts[i]),
                Err(err) => r matches Err(EidosError::LexerError(m)) && m@ == lex_error_text(old(self).file(), err),
            },
    {
        let ghost s = self.input();
        let ghost file = self.file();
        let ghost c0 = self.cur();
        let mut tokens: Vec<Token> = Vec::new();
        let ghost mut done: Seq<Scanned> = seq![];
        proof {
            assert(prepend_scanned(done, scan_all(s, self.cur())) == scan_all(s, c0)) by {
                match scan_all(s, c0) {
                    Ok(ts) => {
                        assert(done + ts =~= ts);
                    },
                    Err(_) => {},
                }
            }
        }
        loop
            invariant
                s == old(self).input(),
                file == old(self).file(),
                c0 == old(self).cur(),
                self.input() == s,
                self.file() == file,
                prepend_scanned(done, scan_all(s, self.cur())) == scan_all(s, c0),
                tokens@.len() == done.len(),
                forall|i: int| 0 <= i < done.len() ==> token_is(#[trigger] tokens@[i], file, done[i]),
            decreases s.len() - self.cur().0,
        {
            proof {
                use_type_invariant(&*self);
                lemma_scan_token_progress(s, self.cur());
            }
            let ghost before = self.cur();
            let token = match self.next_token() {
                Ok(t) => t,
                Err(e) => {
                    return Err(e);
                },
            };
            let is_eof = match token.kind {
                TokenKind::Eof => true,
                _ => false,
            };
            let ghost sc = match scan_token(s, before) {
                Ok(x) => x,
                Err(_) => arbitrary(),
            };
            tokens.push(token);
            let ghost old_done = done;
            proof {
                done = done.push(sc);
                assert(kind_is(tokens@.last().kind, sc.0));
            }
            if is_eof {
                proof {
                    assert(sc.0 == Lexeme::Plain(TokenKind::Eof)) by {
                        match sc.0 {
                            Lexeme::Plain(p) => {},
                            _ => {},
                        }
                    }
                    assert(done.drop_last() + seq![sc] =~= done);
                }
                return Ok(tokens);
            }
            proof {
                assert(sc.0 != Lexeme::Plain(TokenKind::Eof));
                assert(scan_token(s, before) == Ok::<Scanned, LexErr>(sc));
                assert(self.cur() == sc.2);
                match scan_all(s, self.cur()) {
                    Ok(rest) => {
                        assert(scan_all(s, before) == Ok::<Seq<Scanned>, LexErr>(seq![sc] + rest));
                        assert(old_done + (seq![sc] + rest) =~= done + rest);
                    },
                    Err(e) => {
                        assert(scan_all(s, before) == Err::<Seq<Scanned>, LexErr>(e));
                    },
                }
            }
        }
    }
}


/// A successful scan ends with `Eof`, and `Eof` comes nowhere before the end.
pub proof fn lemma_scan_all_ends_with_eof(s: Seq<char>, c: Cur)
    ensures
        scan_all(s, c) matches Ok(ts) ==> {
            &&& ts.len() >= 1
            &&& ts.last().0 == Lexeme::Plain(TokenKind::Eof)
            &&& forall|i: int| 0 <= i < ts.len() - 1 ==> (#[trigger] ts[i]).0 != Lexeme::Plain(TokenKind::Eof)
        },
    decreases s.len() - c.0,
{
    match scan_token(s, c) {
        Err(_) => {},
        Ok(t) => {
            if t.0 != Lexeme::Plain(TokenKind::Eof) {
                lemma_scan_token_progress(s, c);
                lemma_scan_all_ends_with_eof(s, t.2);
                match scan_all(s, t.2) {
                    Ok(rest) => {
                        let ts = seq![t] + rest;
                        assert forall|i: int| 0 <= i < ts.len() - 1 implies (#[trigger] ts[i]).0 != Lexeme::Plain(TokenKind::Eof) by {
                            if i > 0 {
                                assert(ts[i] == rest[i - 1]);
                            }
                        }
                        assert(ts.last() == rest.last());
                    },
                    Err(_) => {},
                }
            }
        },
    }
}

/// Every token of a successful scan lies within the input, and each starts
/// no earlier than the one before it ends.
pub proof fn lemma_scan_all_in_order(s: Seq<char>, c: Cur)
    requires
        cur_wf(s, c),
    ensures
        scan_all(s, c) matches Ok(ts) ==> forall|i: int| 0 <= i < ts.len() ==> {
            &&& c.0 <= (#[trigger] ts[i]).1.0
            &&& ts[i].1.0 <= ts[i].2.0 <= s.len()
        },
    decreases s.len() - c.0,
{
    lemma_scan_token_progress(s, c);
    lemma_skip_trivia(s, c);
    match scan_token(s, c) {
        Err(_) => {},
        Ok(t) => {
            assert(t.1.0 <= t.2.0 <= s.len()) by {
                if t.0 == Lexeme::Plain(TokenKind::Eof) {
                    assert(t.1 == skip_trivia(s, c));
                }
            }
            if t.0 != Lexeme::Plain(TokenKind::Eof) {
                lemma_scan_all_in_order(s, t.2);
                match scan_all(s, t.2) {
                    Ok(rest) => {
                        let ts = seq![t] + rest;
                        assert forall|i: int| 0 <= i < ts.len() implies {
                            &&& c.0 <= (#[trigger] ts[i]).1.0
                            &&& ts[i].1.0 <= ts[i].2.0 <= s.len()
                        } by {
                            if i > 0 {
                                assert(ts[i] == rest[i - 1]);
                            }
                        }
                    },
                    Err(_) => {},
                }
            }
        },
    }
}
/// The decimal value of a run of digits, as a mathematical integer.
pub open spec fn decimal_value(ds: Seq<char>) -> int
    decreases ds.len(),
{
    if ds.len() == 0 {
        0
    } else {
        decimal_value(ds.drop_last()) * 10 + (ds.last() as int - '0' as int)
    }
}

/// A run of digits reads as its decimal value wherever that fits in an `i64`.
pub proof fn lemma_digits_value_is_decimal(ds: Seq<char>)
    requires
        forall|i: int| 0 <= i < ds.len() ==> is_digit(#[trigger] ds[i]),
        decimal_value(ds) <= i64::MAX,
    ensures
        digits_value(ds) as int == decimal_value(ds),
        0 <= decimal_value(ds),
    decreases ds.len(),
{
    if ds.len() > 0 {
        let p = ds.drop_last();
        assert forall|i: int| 0 <= i < p.len() implies is_digit(#[trigger] p[i]) by {
            assert(p[i] == ds[i]);
        }
        assert(is_digit(ds[ds.len() - 1]));
        let d = ds.last() as int - '0' as int;
        assert(0 <= d <= 9);
        lemma_decimal_value_nonneg(p);
        assert(decimal_value(p) <= i64::MAX);
        lemma_digits_value_is_decimal(p);
        let v = digits_value(p);
        let x: int = v * 10;
        assert(x <= i64::MAX);
        assert(0 <= x);
        vstd::arithmetic::div_mod::lemma_small_mod(x as nat, 0x1_0000_0000_0000_0000nat);
        assert(v.wrapping_mul(10) as int == x);
        assert(digit_value(ds.last()) as int == d);
    }
}

proof fn lemma_decimal_value_nonneg(ds: Seq<char>)
    requires
        forall|i: int| 0 <= i < ds.len() ==> is_digit(#[trigger] ds[i]),
    ensures
        0 <= decimal_value(ds),
    decreases ds.len(),
{
    if ds.len() > 0 {
        let p = ds.drop_last();
        assert forall|i: int| 0 <= i < p.len() implies is_digit(#[trigger] p[i]) by {
            assert(p[i] == ds[i]);
        }
        assert(is_digit(ds[ds.len() - 1]));
        lemma_decimal_value_nonneg(p);
    }
}

/// Each operator character under the cursor gives its token: a two-character
/// operator (`->`, `&&`, `||`, `!=`, `==`, `<=`, `<<`, `>=`, `>>`) where its
/// second character follows, taking both characters; else the one-character
/// token, taking one character.
pub proof fn lemma_operator_tokens(s: Seq<char>, c: Cur)
    ensures
        ({
            let c1 = adv(s, c);
            let c2 = adv(s, c1);
            let next = cur_char(s, c1);
            &&& scan_symbol(s, c, '+') == (TokenKind::Plus, c1)
            &&& scan_symbol(s, c, '*') == (TokenKind::Star, c1)
            &&& scan_symbol(s, c, '/') == (TokenKind::Slash, c1)
            &&& scan_symbol(s, c, '%') == (TokenKind::Percent, c1)
            &&& scan_symbol(s, c, '^') == (TokenKind::Caret, c1)
            &&& scan_symbol(s, c, '(') == (TokenKind::LeftParen, c1)
            &&& scan_symbol(s, c, ')') == (TokenKind::RightParen, c1)
            &&& scan_symbol(s, c, '{') == (TokenKind::LeftBrace, c1)
            &&& scan_symbol(s, c, '}') == (TokenKind::RightBrace, c1)
            &&& scan_symbol(s, c, '[') == (TokenKind::LeftBracket, c1)
            &&& scan_symbol(s, c, ']') == (TokenKind::RightBracket, c1)
            &&& scan_symbol(s, c, ';') == (TokenKind::Semicolon, c1)
            &&& scan_symbol(s, c, ':') == (TokenKind::Colon, c1)
            &&& scan_symbol(s, c, ',') == (TokenKind::Comma, c1)
            &&& scan_symbol(s, c, '.') == (TokenKind::Dot, c1)
            &&& next == Some('>') ==> scan_symbol(s, c, '-') == (TokenKind::Arrow, c2)
            &&& next != Some('>') ==> scan_symbol(s, c, '-') == (TokenKind::Minus, c1)
            &&& next == Some('&') ==> scan_symbol(s, c, '&') == (TokenKind::AmpersandAmpersand, c2)
            &&& next != Some('&') ==> scan_symbol(s, c, '&') == (TokenKind::Ampersand, c1)
            &&& next == Some('|') ==> scan_symbol(s, c, '|') == (TokenKind::PipePipe, c2)
            &&& next != Some('|') ==> scan_symbol(s, c, '|') == (TokenKind::Pipe, c1)
            &&& next == Some('=') ==> scan_symbol(s, c, '!') == (TokenKind::BangEqual, c2)
            &&& next != Some('=') ==> scan_symbol(s, c, '!') == (TokenKind::Bang, c1)
            &&& next == Some('=') ==> scan_symbol(s, c, '=') == (TokenKind::EqualEqual, c2)
            &&& next != Some('=') ==> scan_symbol(s, c, '=') == (TokenKind::Equal, c1)
            &&& next == Some('=') ==> scan_symbol(s, c, '<') == (TokenKind::LessEqual, c2)
            &&& next == Some('<') ==> scan_symbol(s, c, '<') == (TokenKind::LessLess, c2)
            &&& (next != Some('=') && next != Some('<')) ==> scan_symbol(s, c, '<') == (TokenKind::Less, c1)
            &&& next == Some('=') ==> scan_symbol(s, c, '>') == (TokenKind::GreaterEqual, c2)
            &&& next == Some('>') ==> scan_symbol(s, c, '>') == (TokenKind::GreaterGreater, c2)
            &&& (next != Some('=') && next != Some('>')) ==> scan_symbol(s, c, '>') == (TokenKind::Greater, c1)
            &&& scan_symbol(s, c, '~') == (TokenKind::Unknown('~'), c1)
        }),
{
}

/// Each keyword is its own token, and a word that is no keyword is an identifier.
pub proof fn lemma_keyword_tokens(w: Seq<char>)
    ensures
        keyword_lexeme("let"@) == Lexeme::Plain(TokenKind::Let),
        keyword_lexeme("var"@) == Lexeme::Plain(TokenKind::Var),
        keyword_lexeme("fn"@) == Lexeme::Plain(TokenKind::Fn),
        keyword_lexeme("return"@) == Lexeme::Plain(TokenKind::Return),
        keyword_lexeme("if"@) == Lexeme::Plain(TokenKind::If),
        keyword_lexeme("else"@) == Lexeme::Plain(TokenKind::Else),
        keyword_lexeme("while"@) == Lexeme::Plain(TokenKind::While),
        keyword_lexeme("for"@) == Lexeme::Plain(TokenKind::For),
        keyword_lexeme("in"@) == Lexeme::Plain(TokenKind::In),
        keyword_lexeme("break"@) == Lexeme::Plain(TokenKind::Break),
        keyword_lexeme("continue"@) == Lexeme::Plain(TokenKind::Continue),
        keyword_lexeme("type"@) == Lexeme::Plain(TokenKind::Type),
        keyword_lexeme("struct"@) == Lexeme::Plain(TokenKind::Struct),
        keyword_lexeme("enum"@) == Lexeme::Plain(TokenKind::Enum),
        keyword_lexeme("import"@) == Lexeme::Plain(TokenKind::Import),
        keyword_lexeme("export"@) == Lexeme::Plain(TokenKind::Export),
        keyword_lexeme("unsafe"@) == Lexeme::Plain(TokenKind::Unsafe),
        keyword_lexeme("as"@) == Lexeme::Plain(TokenKind::As),
        keyword_lexeme("mut"@) == Lexeme::Plain(TokenKind::Mut),
        keyword_lexeme("true"@) == Lexeme::Plain(TokenKind::True),
        keyword_lexeme("false"@) == Lexeme::Plain(TokenKind::False),
        !(w == "let"@ || w == "var"@ || w == "fn"@ || w == "return"@ || w == "if"@ || w == "else"@ || w == "while"@
            || w == "for"@ || w == "in"@ || w == "break"@ || w == "continue"@ || w == "type"@ || w == "struct"@
            || w == "enum"@ || w == "import"@ || w == "export"@ || w == "unsafe"@ || w == "as"@ || w == "mut"@
            || w == "true"@ || w == "false"@) ==> keyword_lexeme(w) == Lexeme::Ident(w),
{
    reveal_strlit("let");
    reveal_strlit("var");
    reveal_strlit("fn");
    reveal_strlit("return");
    reveal_strlit("if");
    reveal_strlit("else");
    reveal_strlit("while");
    reveal_strlit("for");
    reveal_strlit("in");
    reveal_strlit("break");
    reveal_strlit("continue");
    reveal_strlit("type");
    reveal_strlit("struct");
    reveal_strlit("enum");
    reveal_strlit("import");
    reveal_strlit("export");
    reveal_strlit("unsafe");
    reveal_strlit("as");
    reveal_strlit("mut");
    reveal_strlit("true");
    reveal_strlit("false");
    assert("var"@[0] != "let"@[0] && "var"@ != "let"@);
    assert("fn"@.len() != "let"@.len() && "fn"@ != "let"@);
    assert("fn"@.len() != "var"@.len() && "fn"@ != "var"@);
    assert("return"@.len() != "let"@.len() && "return"@ != "let"@);
    assert("return"@.len() != "var"@.len() && "return"@ != "var"@);
    assert("return"@.len() != "fn"@.len() && "return"@ != "fn"@);
    assert("if"@.len() != "let"@.len() && "if"@ != "let"@);
    assert("if"@.len() != "var"@.len() && "if"@ != "var"@);
    assert("if"@[0] != "fn"@[0] && "if"@ != "fn"@);
    assert("if"@.len() != "return"@.len() && "if"@ != "return"@);
    assert("else"@.len() != "let"@.len() && "else"@ != "let"@);
    assert("else"@.len() != "var"@.len() && "else"@ != "var"@);
    assert("else"@.len() != "fn"@.len() && "else"@ != "fn"@);
    assert("else"@.len() != "return"@.len() && "else"@ != "return"@);
    assert("else"@.len() != "if"@.len() && "else"@ != "if"@);
    assert("while"@.len() != "let"@.len() && "while"@ != "let"@);
    assert("while"@.len() != "var"@.len() && "while"@ != "var"@);
    assert("while"@.len() != "fn"@.len() && "while"@ != "fn"@);
    assert("while"@.len() != "return"@.len() && "while"@ != "return"@);
    assert("while"@.len() != "if"@.len() && "while"@ != "if"@);
    assert("while"@.len() != "else"@.len() && "while"@ != "else"@);
    assert("for"@[0] != "let"@[0] && "for"@ != "let"@);
    assert("for"@[0] != "var"@[0] && "for"@ != "var"@);
    assert("for"@.len() != "fn"@.len() && "for"@ != "fn"@);
    assert("for"@.len() != "return"@.len() && "for"@ != "return"@);
    assert("for"@.len() != "if"@.len() && "for"@ != "if"@);
    assert("for"@.len() != "else"@.len() && "for"@ != "else"@);
    assert("for"@.len() != "while"@.len() && "for"@ != "while"@);
    assert("in"@.len() != "let"@.len() && "in"@ != "let"@);
    assert("in"@.len() != "var"@.len() && "in"@ != "var"@);
    assert("in"@[0] != "fn"@[0] && "in"@ != "fn"@);
    assert("in"@.len() != "return"@.len() && "in"@ != "return"@);
    assert("in"@[1] != "if"@[1] && "in"@ != "if"@);
    assert("in"@.len() != "else"@.len() && "in"@ != "else"@);
    assert("in"@.len() != "while"@.len() && "in"@ != "while"@);
    assert("in"@.len() != "for"@.len() && "in"@ != "for"@);
    assert("break"@.len() != "let"@.len() && "break"@ != "let"@);
    assert("break"@.len() != "var"@.len() && "break"@ != "var"@);
    assert("break"@.len() != "fn"@.len() && "break"@ != "fn"@);
    assert("break"@.len() != "return"@.len() && "break"@ != "return"@);
    assert("break"@.len() != "if"@.len() && "break"@ != "if"@);
    assert("break"@.len() != "else"@.len() && "break"@ != "else"@);
    assert("break"@[0] != "while"@[0] && "break"@ != "while"@);
    assert("break"@.len() != "for"@.len() && "break"@ != "for"@);
    assert("break"@.len() != "in"@.len() && "break"@ != "in"@);
    assert("continue"@.len() != "let"@.len() && "continue"@ != "let"@);
    assert("continue"@.len() != "var"@.len() && "continue"@ != "var"@);
    assert("continue"@.len() != "fn"@.len() && "continue"@ != "fn"@);
    assert("continue"@.len() != "return"@.len() && "continue"@ != "return"@);
    assert("continue"@.len() != "if"@.len() && "continue"@ != "if"@);
    assert("continue"@.len() != "else"@.len() && "continue"@ != "else"@);
    assert("continue"@.len() != "while"@.len() && "continue"@ != "while"@);
    assert("continue"@.len() != "for"@.len() && "continue"@ != "for"@);
    assert("continue"@.len() != "in"@.len() && "continue"@ != "in"@);
    assert("continue"@.len() != "break"@.len() && "continue"@ != "break"@);
    assert("type"@.len() != "let"@.len() && "type"@ != "let"@);
    assert("type"@.len() != "var"@.len() && "type"@ != "var"@);
    assert("type"@.len() != "fn"@.len() && "type"@ != "fn"@);
    assert("type"@.len() != "return"@.len() && "type"@ != "return"@);
    assert("type"@.len() != "if"@.len() && "type"@ != "if"@);
    assert("type"@[0] != "else"@[0] && "type"@ != "else"@);
    assert("type"@.len() != "while"@.len() && "type"@ != "while"@);
    assert("type"@.len() != "for"@.len() && "type"@ != "for"@);
    assert("type"@.len() != "in"@.len() && "type"@ != "in"@);
    assert("type"@.len() != "break"@.len() && "type"@ != "break"@);
    assert("type"@.len() != "continue"@.len() && "type"@ != "continue"@);
    assert("struct"@.len() != "let"@.len() && "struct"@ != "let"@);
    assert("struct"@.len() != "var"@.len() && "struct"@ != "var"@);
    assert("struct"@.len() != "fn"@.len() && "struct"@ != "fn"@);
    assert("struct"@[0] != "return"@[0] && "struct"@ != "return"@);
    assert("struct"@.len() != "if"@.len() && "struct"@ != "if"@);
    assert("struct"@.len() != "else"@.len() && "struct"@ != "else"@);
    assert("struct"@.len() != "while"@.len() && "struct"@ != "while"@);
    assert("struct"@.len() != "for"@.len() && "struct"@ != "for"@);
    assert("struct"@.len() != "in"@.len() && "struct"@ != "in"@);
    assert("struct"@.len() != "break"@.len() && "struct"@ != "break"@);
    assert("struct"@.len() != "continue"@.len() && "struct"@ != "continue"@);
    assert("struct"@.len() != "type"@.len() && "struct"@ != "type"@);
    assert("enum"@.len() != "let"@.len() && "enum"@ != "let"@);
    assert("enum"@.len() != "var"@.len() && "enum"@ != "var"@);
    assert("enum"@.len() != "fn"@.len() && "enum"@ != "fn"@);
    assert("enum"@.len() != "return"@.len() && "enum"@ != "return"@);
    assert("enum"@.len() != "if"@.len() && "enum"@ != "if"@);
    assert("enum"@[1] != "else"@[1] && "enum"@ != "else"@);
    assert("enum"@.len() != "while"@.len() && "enum"@ != "while"@);
    assert("enum"@.len() != "for"@.len() && "enum"@ != "for"@);
    assert("enum"@.len() != "in"@.len() && "enum"@ != "in"@);
    assert("enum"@.len() != "break"@.len() && "enum"@ != "break"@);
    assert("enum"@.len() != "continue"@.len() && "enum"@ != "continue"@);
    assert("enum"@[0] != "type"@[0] && "enum"@ != "type"@);
    assert("enum"@.len() != "struct"@.len() && "enum"@ != "struct"@);
    assert("import"@.len() != "let"@.len() && "import"@ != "let"@);
    assert("import"@.len() != "var"@.len() && "import"@ != "var"@);
    assert("import"@.len() != "fn"@.len() && "import"@ != "fn"@);
    assert("import"@[0] != "return"@[0] && "import"@ != "return"@);
    assert("import"@.len() != "if"@.len() && "import"@ != "if"@);
    assert("import"@.len() != "else"@.len() && "import"@ != "else"@);
    assert("import"@.len() != "while"@.len() && "import"@ != "while"@);
    assert("import"@.len() != "for"@.len() && "import"@ != "for"@);
    assert("import"@.len() != "in"@.len() && "import"@ != "in"@);
    assert("import"@.len() != "break"@.len() && "import"@ != "break"@);
    assert("import"@.len() != "continue"@.len() && "import"@ != "continue"@);
    assert("import"@.len() != "type"@.len() && "import"@ != "type"@);
    assert("import"@[0] != "struct"@[0] && "import"@ != "struct"@);
    assert("import"@.len() != "enum"@.len() && "import"@ != "enum"@);
    assert("export"@.len() != "let"@.len() && "export"@ != "let"@);
    assert("export"@.len() != "var"@.len() && "export"@ != "var"@);
    assert("export"@.len() != "fn"@.len() && "export"@ != "fn"@);
    assert("export"@[0] != "return"@[0] && "export"@ != "return"@);
    assert("export"@.len() != "if"@.len() && "export"@ != "if"@);
    assert("export"@.len() != "else"@.len() && "export"@ != "else"@);
    assert("export"@.len() != "while"@.len() && "export"@ != "while"@);
    assert("export"@.len() != "for"@.len() && "export"@ != "for"@);
    assert("export"@.len() != "in"@.len() && "export"@ != "in"@);
    assert("export"@.len() != "break"@.len() && "export"@ != "break"@);
    assert("export"@.len() != "continue"@.len() && "export"@ != "continue"@);
    assert("export"@.len() != "type"@.len() && "export"@ != "type"@);
    assert("export"@[0] != "struct"@[0] && "export"@ != "struct"@);
    assert("export"@.len() != "enum"@.len() && "export"@ != "enum"@);
    assert("export"@[0] != "import"@[0] && "export"@ != "import"@);
    assert("unsafe"@.len() != "let"@.len() && "unsafe"@ != "let"@);
    assert("unsafe"@.len() != "var"@.len() && "unsafe"@ != "var"@);
    assert("unsafe"@.len() != "fn"@.len() && "unsafe"@ != "fn"@);
    assert("unsafe"@[0] != "return"@[0] && "unsafe"@ != "return"@);
    assert("unsafe"@.len() != "if"@.len() && "unsafe"@ != "if"@);
    assert("unsafe"@.len() != "else"@.len() && "unsafe"@ != "else"@);
    assert("unsafe"@.len() != "while"@.len() && "unsafe"@ != "while"@);
    assert("unsafe"@.len() != "for"@.len() && "unsafe"@ != "for"@);
    assert("unsafe"@.len() != "in"@.len() && "unsafe"@ != "in"@);
    assert("unsafe"@.len() != "break"@.len() && "unsafe"@ != "break"@);
    assert("unsafe"@.len() != "continue"@.len() && "unsafe"@ != "continue"@);
    assert("unsafe"@.len() != "type"@.len() && "unsafe"@ != "type"@);
    assert("unsafe"@[0] != "struct"@[0] && "unsafe"@ != "struct"@);
    assert("unsafe"@.len() != "enum"@.len() && "unsafe"@ != "enum"@);
    assert("unsafe"@[0] != "import"@[0] && "unsafe"@ != "import"@);
    assert("unsafe"@[0] != "export"@[0] && "unsafe"@ != "export"@);
    assert("as"@.len() != "let"@.len() && "as"@ != "let"@);
    assert("as"@.len() != "var"@.len() && "as"@ != "var"@);
    assert("as"@[0] != "fn"@[0] && "as"@ != "fn"@);
    assert("as"@.len() != "return"@.len() && "as"@ != "return"@);
    assert("as"@[0] != "if"@[0] && "as"@ != "if"@);
    assert("as"@.len() != "else"@.len() && "as"@ != "else"@);
    assert("as"@.len() != "while"@.len() && "as"@ != "while"@);
    assert("as"@.len() != "for"@.len() && "as"@ != "for"@);
    assert("as"@[0] != "in"@[0] && "as"@ != "in"@);
    assert("as"@.len() != "break"@.len() && "as"@ != "break"@);
    assert("as"@.len() != "continue"@.len() && "as"@ != "continue"@);
    assert("as"@.len() != "type"@.len() && "as"@ != "type"@);
    assert("as"@.len() != "struct"@.len() && "as"@ != "struct"@);
    assert("as"@.len() != "enum"@.len() && "as"@ != "enum"@);
    assert("as"@.len() != "import"@.len() && "as"@ != "import"@);
    assert("as"@.len() != "export"@.len() && "as"@ != "export"@);
    assert("as"@.len() != "unsafe"@.len() && "as"@ != "unsafe"@);
    assert("mut"@[0] != "let"@[0] && "mut"@ != "let"@);
    assert("mut"@[0] != "var"@[0] && "mut"@ != "var"@);
    assert("mut"@.len() != "fn"@.len() && "mut"@ != "fn"@);
    assert("mut"@.len() != "return"@.len() && "mut"@ != "return"@);
    assert("mut"@.len() != "if"@.len() && "mut"@ != "if"@);
    assert("mut"@.len() != "else"@.len() && "mut"@ != "else"@);
    assert("mut"@.len() != "while"@.len() && "mut"@ != "while"@);
    assert("mut"@[0] != "for"@[0] && "mut"@ != "for"@);
    assert("mut"@.len() != "in"@.len() && "mut"@ != "in"@);
    assert("mut"@.len() != "break"@.len() && "mut"@ != "break"@);
    assert("mut"@.len() != "continue"@.len() && "mut"@ != "continue"@);
    assert("mut"@.len() != "type"@.len() && "mut"@ != "type"@);
    assert("mut"@.len() != "struct"@.len() && "mut"@ != "struct"@);
    assert("mut"@.len() != "enum"@.len() && "mut"@ != "enum"@);
    assert("mut"@.len() != "import"@.len() && "mut"@ != "import"@);
    assert("mut"@.len() != "export"@.len() && "mut"@ != "export"@);
    assert("mut"@.len() != "unsafe"@.len() && "mut"@ != "unsafe"@);
    assert("mut"@.len() != "as"@.len() && "mut"@ != "as"@);
    assert("true"@.len() != "let"@.len() && "true"@ != "let"@);
    assert("true"@.len() != "var"@.len() && "true"@ != "var"@);
    assert("true"@.len() != "fn"@.len() && "true"@ != "fn"@);
    assert("true"@.len() != "return"@.len() && "true"@ != "return"@);
    assert("true"@.len() != "if"@.len() && "true"@ != "if"@);
    assert("true"@[0] != "else"@[0] && "true"@ != "else"@);
    assert("true"@.len() != "while"@.len() && "true"@ != "while"@);
    assert("true"@.len() != "for"@.len() && "true"@ != "for"@);
    assert("true"@.len() != "in"@.len() && "true"@ != "in"@);
    assert("true"@.len() != "break"@.len() && "true"@ != "break"@);
    assert("true"@.len() != "continue"@.len() && "true"@ != "continue"@);
    assert("true"@[1] != "type"@[1] && "true"@ != "type"@);
    assert("true"@.len() != "struct"@.len() && "true"@ != "struct"@);
    assert("true"@[0] != "enum"@[0] && "true"@ != "enum"@);
    assert("true"@.len() != "import"@.len() && "true"@ != "import"@);
    assert("true"@.len() != "export"@.len() && "true"@ != "export"@);
    assert("true"@.len() != "unsafe"@.len() && "true"@ != "unsafe"@);
    assert("true"@.len() != "as"@.len() && "true"@ != "as"@);
    assert("true"@.len() != "mut"@.len() && "true"@ != "mut"@);
    assert("false"@.len() != "let"@.len() && "false"@ != "let"@);
    assert("false"@.len() != "var"@.len() && "false"@ != "var"@);
    assert("false"@.len() != "fn"@.len() && "false"@ != "fn"@);
    assert("false"@.len() != "return"@.len() && "false"@ != "return"@);
    assert("false"@.len() != "if"@.len() && "false"@ != "if"@);
    assert("false"@.len() != "else"@.len() && "false"@ != "else"@);
    assert("false"@[0] != "while"@[0] && "false"@ != "while"@);
    assert("false"@.len() != "for"@.len() && "false"@ != "for"@);
    assert("false"@.len() != "in"@.len() && "false"@ != "in"@);
    assert("false"@[0] != "break"@[0] && "false"@ != "break"@);
    assert("false"@.len() != "continue"@.len() && "false"@ != "continue"@);
    assert("false"@.len() != "type"@.len() && "false"@ != "type"@);
    assert("false"@.len() != "struct"@.len() && "false"@ != "struct"@);
    assert("false"@.len() != "enum"@.len() && "false"@ != "enum"@);
    assert("false"@.len() != "import"@.len() && "false"@ != "import"@);
    assert("false"@.len() != "export"@.len() && "false"@ != "export"@);
    assert("false"@.len() != "unsafe"@.len() && "false"@ != "unsafe"@);
    assert("false"@.len() != "as"@.len() && "false"@ != "as"@);
    assert("false"@.len() != "mut"@.len() && "false"@ != "mut"@);
    assert("false"@.len() != "true"@.len() && "false"@ != "true"@);
}

/// An escape letter stands for its control character: `n` a newline, `r` a
/// carriage return, `t` a tab; a backslash and the literal's own quote stand
/// for themselves; other letters are no escape.
pub proof fn lemma_escape_meaning(quote: char, e: char)
    ensures
        escape_char('n', quote) == Some('\n'),
        escape_char('r', quote) == Some('\r'),
        escape_char('t', quote) == Some('\t'),
        escape_char('\\', quote) == Some('\\'),
        escape_char('"', '"') == Some('"'),
        escape_char('\'', '\'') == Some('\''),
        (e != 'n' && e != 'r' && e != 't' && e != '\\' && e != quote) ==> escape_char(e, quote) is None,
{
}

/// Skipping whitespace stops at a character that is not whitespace, or at
/// the end of the input.
pub proof fn lemma_skip_ws_stops(s: Seq<char>, c: Cur)
    ensures
        !(0 <= skip_ws(s, c).0 < s.len() && char_is_whitespace(s[skip_ws(s, c).0])),
    decreases s.len() - c.0,
{
    if 0 <= c.0 < s.len() && char_is_whitespace(s[c.0]) {
        lemma_skip_ws_stops(s, adv(s, c));
    }
}

/// Skipping whitespace and comments stops where neither whitespace nor a
/// comment starts: the next token, or the end of the input.
pub proof fn lemma_skip_trivia_stops(s: Seq<char>, c: Cur)
    ensures
        !(0 <= skip_trivia(s, c).0 < s.len() && char_is_whitespace(s[skip_trivia(s, c).0])),
        !at_comment(s, skip_trivia(s, c)),
    decreases s.len() - c.0,
{
    let c1 = skip_ws(s, c);
    lemma_skip_ws_stops(s, c);
    if at_comment(s, c1) {
        lemma_skip_ws(s, c);
        lemma_skip_comment(s, c1);
        lemma_skip_trivia_stops(s, skip_comment(s, c1));
    }
}

/// A line comment runs to the end of its line, leaving the newline; a block
/// comment ends after the `*/` that closes it, nested comments included.
pub proof fn lemma_comment_ends(s: Seq<char>, c: Cur)
    ensures
        0 <= skip_line(s, c).0 < s.len() ==> s[skip_line(s, c).0] == '\n',
        forall|i: int| c.0 <= i < skip_line(s, c).0 && 0 <= i ==> s[i] != '\n',
        skip_block(s, c, 0) == c,
    decreases s.len() - c.0,
{
    if 0 <= c.0 < s.len() && s[c.0] != '\n' {
        lemma_comment_ends(s, adv(s, c));
    }
}

/// A number is a float exactly when its digits are followed by a `.` and a
/// digit, and otherwise an integer of the value of its digits, ending where
/// they end; the digits end at the first character that is no digit.
pub proof fn lemma_number_tokens(s: Seq<char>, c: Cur)
    ensures
        !(0 <= digits_end(s, c).0 < s.len() && is_digit(s[digits_end(s, c).0])),
        (cur_char(s, digits_end(s, c)) == Some('.') && peek_char(s, digits_end(s, c)) is Some
            && is_digit(peek_char(s, digits_end(s, c))->0)) ==> scan_number(s, c).0 is Float,
        !(cur_char(s, digits_end(s, c)) == Some('.') && peek_char(s, digits_end(s, c)) is Some
            && is_digit(peek_char(s, digits_end(s, c))->0)) ==> scan_number(s, c) == (Lexeme::Int(digits_value(s.subrange(c.0, digits_end(s, c).0))), digits_end(s, c)),
    decreases s.len() - c.0,
{
    if 0 <= c.0 < s.len() && is_digit(s[c.0]) {
        lemma_number_tokens(s, adv(s, c));
    }
}

} // verus!
