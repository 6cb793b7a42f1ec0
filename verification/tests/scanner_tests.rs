use lexer::scanner::{tokenize, Lexer};
use lexer::token::{Token, TokenType};

fn assert_token(t: &Token, kind: TokenType, lexeme: &str, offset: usize) {
    assert_eq!(t.token_type, kind);
    assert_eq!(t.lexeme, lexeme);
    assert_eq!(t.offset, offset);
}

#[test]
fn empty_input_yields_end_of_input() {
    let mut lexer = Lexer::new(String::new());
    let t = lexer.next_token();
    assert_token(&t, TokenType::Eof, "", 0);
}

#[test]
fn end_of_input_is_idempotent() {
    let mut lexer = Lexer::new(String::from("x"));
    let t = lexer.next_token();
    assert_token(&t, TokenType::Ident, "x", 0);
    let end = lexer.next_token();
    assert_token(&end, TokenType::Eof, "", 1);
    for _ in 0..5 {
        let again = lexer.next_token();
        assert_token(&again, TokenType::Eof, "", 1);
    }
}

#[test]
fn whitespace_only_input_terminates() {
    let mut lexer = Lexer::new(String::from(" \t\r\n "));
    let t = lexer.next_token();
    assert_token(&t, TokenType::Eof, "", 5);
    let again = lexer.next_token();
    assert_eq!(again.token_type, TokenType::Eof);
}

#[test]
fn longest_match_identifier() {
    let mut lexer = Lexer::new(String::from("letx"));
    let t = lexer.next_token();
    assert_token(&t, TokenType::Ident, "letx", 0);
    let end = lexer.next_token();
    assert_eq!(end.token_type, TokenType::Eof);
}

#[test]
fn keyword_exactness_is_case_sensitive() {
    let mut lexer = Lexer::new(String::from("let"));
    let t = lexer.next_token();
    assert_token(&t, TokenType::Let, "let", 0);

    let mut lexer = Lexer::new(String::from("Let"));
    let t = lexer.next_token();
    assert_token(&t, TokenType::Ident, "Let", 0);
}

#[test]
fn resolve_type_recognizes_every_keyword() {
    assert_eq!(TokenType::resolve_type("fn"), TokenType::Fn);
    assert_eq!(TokenType::resolve_type("let"), TokenType::Let);
    assert_eq!(TokenType::resolve_type("true"), TokenType::True);
    assert_eq!(TokenType::resolve_type("false"), TokenType::False);
    assert_eq!(TokenType::resolve_type("if"), TokenType::If);
    assert_eq!(TokenType::resolve_type("else"), TokenType::Else);
    assert_eq!(TokenType::resolve_type("return"), TokenType::Return);
}

#[test]
fn resolve_type_falls_back_to_identifier() {
    assert_eq!(TokenType::resolve_type("foo"), TokenType::Ident);
    assert_eq!(TokenType::resolve_type("Fn"), TokenType::Ident);
    assert_eq!(TokenType::resolve_type("lets"), TokenType::Ident);
    assert_eq!(TokenType::resolve_type("le"), TokenType::Ident);
    assert_eq!(TokenType::resolve_type(""), TokenType::Ident);
    assert_eq!(TokenType::resolve_type("returned"), TokenType::Ident);
}

#[test]
fn two_char_lookahead_not_equal() {
    let mut lexer = Lexer::new(String::from("!="));
    let t = lexer.next_token();
    assert_token(&t, TokenType::NotEq, "!=", 0);
    let end = lexer.next_token();
    assert_eq!(end.token_type, TokenType::Eof);
}

#[test]
fn two_char_lookahead_bang_without_match() {
    let mut lexer = Lexer::new(String::from("!x"));
    let t = lexer.next_token();
    assert_token(&t, TokenType::Bang, "!", 0);
    let t = lexer.next_token();
    assert_token(&t, TokenType::Ident, "x", 1);
}

#[test]
fn two_char_lookahead_equal_and_assign() {
    let mut lexer = Lexer::new(String::from("=="));
    let t = lexer.next_token();
    assert_token(&t, TokenType::Eq, "==", 0);

    let mut lexer = Lexer::new(String::from("= 1"));
    let t = lexer.next_token();
    assert_token(&t, TokenType::Assign, "=", 0);
    let t = lexer.next_token();
    assert_token(&t, TokenType::Int, "1", 2);
}

#[test]
fn bang_at_end_of_input_is_single() {
    let mut lexer = Lexer::new(String::from("!"));
    let t = lexer.next_token();
    assert_token(&t, TokenType::Bang, "!", 0);
}

#[test]
fn offset_after_leading_whitespace() {
    let mut lexer = Lexer::new(String::from("  ab"));
    let t = lexer.next_token();
    assert_token(&t, TokenType::Ident, "ab", 2);
}

#[test]
fn full_program_round_trip() {
    let tokens = tokenize(String::from("let five = 5;"));
    assert_eq!(tokens.len(), 6);
    assert_token(&tokens[0], TokenType::Let, "let", 0);
    assert_token(&tokens[1], TokenType::Ident, "five", 4);
    assert_token(&tokens[2], TokenType::Assign, "=", 9);
    assert_token(&tokens[3], TokenType::Int, "5", 11);
    assert_token(&tokens[4], TokenType::Semicolon, ";", 12);
    assert_token(&tokens[5], TokenType::Eof, "", 13);
}

#[test]
fn illegal_character_is_tolerated() {
    let mut lexer = Lexer::new(String::from("@"));
    let t = lexer.next_token();
    assert_token(&t, TokenType::Illegal, "@", 0);
    let end = lexer.next_token();
    assert_eq!(end.token_type, TokenType::Eof);
}

#[test]
fn scanning_continues_after_illegal_character() {
    let mut lexer = Lexer::new(String::from("a @ b"));
    assert_token(&lexer.next_token(), TokenType::Ident, "a", 0);
    assert_token(&lexer.next_token(), TokenType::Illegal, "@", 2);
    assert_token(&lexer.next_token(), TokenType::Ident, "b", 4);
    assert_eq!(lexer.next_token().token_type, TokenType::Eof);
}

#[test]
fn every_single_character_operator() {
    let cases = [
        ("=", TokenType::Assign),
        ("+", TokenType::Plus),
        ("-", TokenType::Minus),
        ("!", TokenType::Bang),
        ("*", TokenType::Asterisk),
        ("/", TokenType::Slash),
        ("<", TokenType::LesserThan),
        (">", TokenType::GreaterThan),
        (",", TokenType::Comma),
        (";", TokenType::Semicolon),
        ("(", TokenType::LParen),
        (")", TokenType::RParen),
        ("{", TokenType::LBrace),
        ("}", TokenType::RBrace),
    ];
    for (text, kind) in cases {
        let mut lexer = Lexer::new(String::from(text));
        let t = lexer.next_token();
        assert_token(&t, kind, text, 0);
        assert_eq!(lexer.next_token().token_type, TokenType::Eof);
    }
}

#[test]
fn integer_runs_are_maximal() {
    let mut lexer = Lexer::new(String::from("123 456"));
    assert_token(&lexer.next_token(), TokenType::Int, "123", 0);
    assert_token(&lexer.next_token(), TokenType::Int, "456", 4);
    assert_eq!(lexer.next_token().token_type, TokenType::Eof);
}

#[test]
fn digits_start_a_numeric_run_before_letters() {
    let mut lexer = Lexer::new(String::from("123abc"));
    assert_token(&lexer.next_token(), TokenType::Int, "123", 0);
    assert_token(&lexer.next_token(), TokenType::Ident, "abc", 3);
}

#[test]
fn identifiers_may_hold_underscores_and_digits() {
    let mut lexer = Lexer::new(String::from("_foo1 a_b2"));
    assert_token(&lexer.next_token(), TokenType::Ident, "_foo1", 0);
    assert_token(&lexer.next_token(), TokenType::Ident, "a_b2", 6);
}

#[test]
fn all_whitespace_kinds_are_skipped() {
    let mut lexer = Lexer::new(String::from("a\tb\nc\rd"));
    assert_token(&lexer.next_token(), TokenType::Ident, "a", 0);
    assert_token(&lexer.next_token(), TokenType::Ident, "b", 2);
    assert_token(&lexer.next_token(), TokenType::Ident, "c", 4);
    assert_token(&lexer.next_token(), TokenType::Ident, "d", 6);
    assert_eq!(lexer.next_token().token_type, TokenType::Eof);
}

#[test]
fn tokenize_agrees_with_repeated_next_token() {
    let source = "let add = fn(x, y) { return x + y; };";
    let tokens = tokenize(String::from(source));

    let mut lexer = Lexer::new(String::from(source));
    let mut collected = Vec::new();
    loop {
        let t = lexer.next_token();
        let done = t.token_type == TokenType::Eof;
        collected.push(t);
        if done {
            break;
        }
    }
    assert_eq!(tokens, collected);
    assert_eq!(tokens.last().unwrap().token_type, TokenType::Eof);
}

#[test]
fn tokenize_empty_input() {
    let tokens = tokenize(String::new());
    assert_eq!(tokens.len(), 1);
    assert_token(&tokens[0], TokenType::Eof, "", 0);
}

#[test]
fn tokenize_larger_program() {
    let source = "if (5 < 10) { return true; } else { return false; }";
    let kinds: Vec<TokenType> = tokenize(String::from(source))
        .into_iter()
        .map(|t| t.token_type)
        .collect();
    assert_eq!(
        kinds,
        vec![
            TokenType::If,
            TokenType::LParen,
            TokenType::Int,
            TokenType::LesserThan,
            TokenType::Int,
            TokenType::RParen,
            TokenType::LBrace,
            TokenType::Return,
            TokenType::True,
            TokenType::Semicolon,
            TokenType::RBrace,
            TokenType::Else,
            TokenType::LBrace,
            TokenType::Return,
            TokenType::False,
            TokenType::Semicolon,
            TokenType::RBrace,
            TokenType::Eof,
        ]
    );
}

#[test]
fn token_from_char_holds_the_character() {
    let t = Token::from_char(TokenType::Plus, '+', 3);
    assert_token(&t, TokenType::Plus, "+", 3);
}

#[test]
fn token_from_str_copies_the_text() {
    let t = Token::from_str(TokenType::Let, "let", 7);
    assert_token(&t, TokenType::Let, "let", 7);
}
