use eidos::error::EidosError;
use eidos::lexer::{Lexer, Token, TokenKind};

fn kinds(src: &str) -> Vec<TokenKind> {
    let mut lexer = Lexer::new(src, "main.eid".to_string());
    lexer.tokenize().expect("lexing succeeds").into_iter().map(|t| t.kind).collect()
}

fn lex_error(src: &str) -> String {
    let mut lexer = Lexer::new(src, "main.eid".to_string());
    match lexer.tokenize() {
        Err(EidosError::LexerError(m)) => m,
        other => panic!("expected a lexer error, got {:?}", other),
    }
}

#[test]
fn tokenize_simple_let() {
    assert_eq!(
        kinds("let x = 42;"),
        vec![
            TokenKind::Let,
            TokenKind::Identifier("x".to_string()),
            TokenKind::Equal,
            TokenKind::Integer(42),
            TokenKind::Semicolon,
            TokenKind::Eof,
        ]
    );
}

#[test]
fn keywords_and_identifiers() {
    assert_eq!(
        kinds("fn return if else while for in break continue type struct enum import export unsafe as mut true false var letter _x"),
        vec![
            TokenKind::Fn, TokenKind::Return, TokenKind::If, TokenKind::Else, TokenKind::While,
            TokenKind::For, TokenKind::In, TokenKind::Break, TokenKind::Continue, TokenKind::Type,
            TokenKind::Struct, TokenKind::Enum, TokenKind::Import, TokenKind::Export, TokenKind::Unsafe,
            TokenKind::As, TokenKind::Mut, TokenKind::True, TokenKind::False, TokenKind::Var,
            TokenKind::Identifier("letter".to_string()), TokenKind::Identifier("_x".to_string()),
            TokenKind::Eof,
        ]
    );
}

#[test]
fn operators_and_punctuation() {
    assert_eq!(
        kinds("( ) { } [ ] ; : , . -> + - * / % & && | || ^ ! != = == < <= << > >= >> ~"),
        vec![
            TokenKind::LeftParen, TokenKind::RightParen, TokenKind::LeftBrace, TokenKind::RightBrace,
            TokenKind::LeftBracket, TokenKind::RightBracket, TokenKind::Semicolon, TokenKind::Colon,
            TokenKind::Comma, TokenKind::Dot, TokenKind::Arrow, TokenKind::Plus, TokenKind::Minus,
            TokenKind::Star, TokenKind::Slash, TokenKind::Percent, TokenKind::Ampersand,
            TokenKind::AmpersandAmpersand, TokenKind::Pipe, TokenKind::PipePipe, TokenKind::Caret,
            TokenKind::Bang, TokenKind::BangEqual, TokenKind::Equal, TokenKind::EqualEqual,
            TokenKind::Less, TokenKind::LessEqual, TokenKind::LessLess, TokenKind::Greater,
            TokenKind::GreaterEqual, TokenKind::GreaterGreater, TokenKind::Unknown('~'), TokenKind::Eof,
        ]
    );
}

#[test]
fn numbers_integer_and_float() {
    assert_eq!(
        kinds("0 123 3.14 7. 2.5x"),
        vec![
            TokenKind::Integer(0),
            TokenKind::Integer(123),
            TokenKind::Float("3.14".to_string()),
            TokenKind::Integer(7),
            TokenKind::Dot,
            TokenKind::Float("2.5".to_string()),
            TokenKind::Identifier("x".to_string()),
            TokenKind::Eof,
        ]
    );
}

#[test]
fn integer_wraps_like_release_arithmetic() {
    // 2^63 wraps to i64::MIN in two's complement arithmetic.
    assert_eq!(kinds("9223372036854775808"), vec![TokenKind::Integer(i64::MIN), TokenKind::Eof]);
}

#[test]
fn strings_with_escapes() {
    assert_eq!(
        kinds(r#""a\nb\t\"q\"\\""#),
        vec![TokenKind::String("a\nb\t\"q\"\\".to_string()), TokenKind::Eof]
    );
}

#[test]
fn character_literals() {
    assert_eq!(
        kinds(r"'a' '\n' '\''"),
        vec![TokenKind::Character('a'), TokenKind::Character('\n'), TokenKind::Character('\''), TokenKind::Eof]
    );
}

#[test]
fn comments_are_skipped_and_nest() {
    assert_eq!(
        kinds("a // line\n/* outer /* inner */ still */ b"),
        vec![TokenKind::Identifier("a".to_string()), TokenKind::Identifier("b".to_string()), TokenKind::Eof]
    );
}

#[test]
fn dsl_block_opening() {
    assert_eq!(kinds("@sql   { x"), vec![
        TokenKind::DSLStart("sql".to_string()),
        TokenKind::Identifier("x".to_string()),
        TokenKind::Eof,
    ]);
}

#[test]
fn empty_input_gives_only_eof() {
    let mut lexer = Lexer::new("  \n ", "f".to_string());
    let tokens = lexer.tokenize().unwrap();
    assert_eq!(tokens.len(), 1);
    assert_eq!(tokens[0].kind, TokenKind::Eof);
    assert_eq!(tokens[0].location.line, 2);
    assert_eq!(tokens[0].location.column, 2);
    assert_eq!(tokens[0].location.length, 0);
}

#[test]
fn token_locations() {
    let mut lexer = Lexer::new("let\n  abc == 5", "f.eid".to_string());
    let tokens: Vec<Token> = lexer.tokenize().unwrap();
    let locs: Vec<(usize, usize, usize)> =
        tokens.iter().map(|t| (t.location.line, t.location.column, t.location.length)).collect();
    assert_eq!(locs, vec![(1, 1, 3), (2, 3, 3), (2, 7, 2), (2, 10, 1), (2, 11, 0)]);
    assert_eq!(tokens[1].location.file, "f.eid");
}

#[test]
fn multiline_string_has_length_one() {
    let mut lexer = Lexer::new("\"a\nb\"", "f".to_string());
    let tokens = lexer.tokenize().unwrap();
    assert_eq!(tokens[0].kind, TokenKind::String("a\nb".to_string()));
    assert_eq!(tokens[0].location.length, 1);
}

#[test]
fn unterminated_string_is_an_error() {
    assert_eq!(lex_error("\"abc"), "main.eid:1:5: 文字列リテラルが閉じられていません");
}

#[test]
fn unknown_escape_is_an_error() {
    assert_eq!(lex_error(r#""a\q""#), "main.eid:1:4: 不明なエスケープシーケンス: \\q");
}

#[test]
fn string_ending_after_backslash_is_an_error() {
    assert_eq!(lex_error("\"a\\"), "main.eid:1:4: 文字列リテラルが途中で終了しました");
}

#[test]
fn character_literal_errors() {
    assert_eq!(lex_error("'"), "main.eid:1:2: 文字リテラルが空です");
    assert_eq!(lex_error("'ab'"), "main.eid:1:3: 文字リテラルが閉じられていません");
    assert_eq!(lex_error(r"'\z'"), "main.eid:1:3: 不明なエスケープシーケンス: \\z");
    assert_eq!(lex_error("'\\"), "main.eid:1:3: 文字リテラルが途中で終了しました");
}

#[test]
fn dsl_errors() {
    assert_eq!(lex_error("@ {"), "main.eid:1:2: DSL名が指定されていません");
    assert_eq!(lex_error("@sql x"), "main.eid:1:6: DSLブロックの開始には '{' が必要です");
}

#[test]
fn next_token_steps_through_input() {
    let mut lexer = Lexer::new("a b", "f".to_string());
    assert_eq!(lexer.next_token().unwrap().kind, TokenKind::Identifier("a".to_string()));
    assert_eq!(lexer.next_token().unwrap().kind, TokenKind::Identifier("b".to_string()));
    assert_eq!(lexer.next_token().unwrap().kind, TokenKind::Eof);
    assert_eq!(lexer.next_token().unwrap().kind, TokenKind::Eof);
}

#[test]
fn display_and_debug_texts() {
    assert_eq!(TokenKind::Integer(-5).to_string(), "-5");
    assert_eq!(TokenKind::String("hi".to_string()).to_string(), "\"hi\"");
    assert_eq!(TokenKind::Character('c').to_string(), "'c'");
    assert_eq!(TokenKind::DSLStart("sql".to_string()).to_string(), "@sql {");
    assert_eq!(TokenKind::LeftBrace.to_string(), "{");
    assert_eq!(TokenKind::Eof.to_string(), "EOF");
    assert_eq!(TokenKind::Unknown('~').to_string(), "Unknown(~)");
    assert_eq!(TokenKind::Plus.debug_text(), "Plus");
    assert_eq!(TokenKind::Identifier("x".to_string()).debug_text(), "Identifier(\"x\")");
    assert_eq!(TokenKind::Integer(12).debug_text(), "Integer(12)");
}

#[test]
fn whitespace_matches_the_unicode_property() {
    for u in 0u32..=0x3000 {
        if let Some(c) = char::from_u32(u) {
            if c.is_whitespace() {
                let src = format!("a{}b", c);
                assert_eq!(kinds(&src).len(), 3, "U+{:04X} separates tokens", u);
            }
        }
    }
}

#[test]
fn ascii_letters_and_digits_are_the_ascii_alphanumerics() {
    for u in 0u32..0x80 {
        let c = char::from_u32(u).unwrap();
        assert_eq!(c.is_alphabetic(), c.is_ascii_alphabetic());
        assert_eq!(c.is_alphanumeric(), c.is_ascii_alphanumeric());
    }
}
