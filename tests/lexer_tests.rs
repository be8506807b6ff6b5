use novascript_lexer::TokenType as K;
use novascript_lexer::{version, ErrorKind, Lexer, Position, Token, TokenType};

fn lex(source: &str) -> Vec<Token> {
    let mut lexer = Lexer::new(source);
    lexer.tokenize().unwrap()
}

fn kinds(source: &str) -> Vec<TokenType> {
    lex(source).iter().map(|t| t.token_type).collect()
}

#[test]
fn test_basic_tokens() {
    let source = "let x = 42";
    let mut lexer = Lexer::new(source);
    let tokens = lexer.tokenize().unwrap();

    assert_eq!(tokens.len(), 5);
    assert_eq!(tokens[0].token_type, TokenType::Let);
    assert_eq!(tokens[1].token_type, TokenType::Identifier);
    assert_eq!(tokens[1].lexeme, "x");
    assert_eq!(tokens[2].token_type, TokenType::Equal);
    assert_eq!(tokens[3].token_type, TokenType::NumberLiteral);
    assert_eq!(tokens[3].lexeme, "42");
    assert_eq!(tokens[4].token_type, TokenType::Eof);
}

#[test]
fn test_indentation() {
    let source = "if x\n  y = 10\n  z = 20\nw = 30";
    let mut lexer = Lexer::new(source);
    let tokens = lexer.tokenize().unwrap();

    let token_types: Vec<TokenType> = tokens.iter().map(|t| t.token_type).collect();
    assert!(token_types.contains(&TokenType::Indent));
    assert!(token_types.contains(&TokenType::Dedent));
}

#[test]
fn test_string_literal() {
    let source = "\"hello world\"";
    let mut lexer = Lexer::new(source);
    let tokens = lexer.tokenize().unwrap();

    assert_eq!(tokens.len(), 2);
    assert_eq!(tokens[0].token_type, TokenType::StringLiteral);
    assert_eq!(tokens[0].lexeme, "hello world");
}

#[test]
fn test_version() {
    assert!(!version().is_empty());
}

#[test]
fn version_names_the_release() {
    assert_eq!(version(), "NovaScript Compiler 0.1.0");
}

#[test]
fn indentation_stream_is_exact() {
    assert_eq!(
        kinds("if x\n  y = 10\n  z = 20\nw = 30"),
        vec![
            K::If, K::Identifier, K::Newline, K::Indent, K::Identifier, K::Equal, K::NumberLiteral, K::Newline, K::Identifier,
            K::Equal, K::NumberLiteral, K::Newline, K::Dedent, K::Identifier, K::Equal, K::NumberLiteral, K::Eof
        ]
    );
}

#[test]
fn indent_token_carries_its_width() {
    let tokens = lex("a\n   b");
    assert_eq!(tokens[2].token_type, TokenType::Indent);
    assert_eq!(tokens[2].lexeme, "   ");
    assert_eq!(tokens[2].position, Position::new(2, 4));
}

#[test]
fn tab_counts_four() {
    assert_eq!(
        kinds("a\n\tb\n    c"),
        vec![K::Identifier, K::Newline, K::Indent, K::Identifier, K::Newline, K::Identifier, K::Dedent, K::Eof]
    );
}

#[test]
fn open_blocks_close_before_eof() {
    assert_eq!(
        kinds("a\n  b\n    c"),
        vec![K::Identifier, K::Newline, K::Indent, K::Identifier, K::Newline, K::Indent, K::Identifier, K::Dedent, K::Dedent, K::Eof]
    );
}

#[test]
fn dedent_cascade_is_queued() {
    assert_eq!(
        kinds("a\n  b\n    c\nd"),
        vec![
            K::Identifier, K::Newline, K::Indent, K::Identifier, K::Newline, K::Indent, K::Identifier, K::Newline, K::Dedent,
            K::Dedent, K::Identifier, K::Eof
        ]
    );
}

#[test]
fn dedent_to_unknown_width_fails() {
    let mut lexer = Lexer::new("a\n      b\n   c");
    let err = lexer.tokenize().unwrap_err();
    assert_eq!(err.kind, ErrorKind::SyntaxError);
    assert_eq!(err.message, "inconsistent indentation");
    assert_eq!(err.position, Some(Position::new(3, 4)));
}

#[test]
fn unterminated_string_points_at_quote() {
    let mut lexer = Lexer::new("\"unterminated");
    let err = lexer.tokenize().unwrap_err();
    assert_eq!(err.kind, ErrorKind::SyntaxError);
    assert_eq!(err.message, "unterminated string");
    assert_eq!(err.position, Some(Position::new(1, 1)));
}

#[test]
fn unrecognized_character_fails() {
    let mut lexer = Lexer::new("x @");
    let err = lexer.tokenize().unwrap_err();
    assert_eq!(err.kind, ErrorKind::SyntaxError);
    assert_eq!(err.message, "unrecognized character");
    assert_eq!(err.position, Some(Position::new(1, 3)));
}

#[test]
fn two_character_operators_win() {
    assert_eq!(
        kinds("== != <= >= = ! < >"),
        vec![K::EqualEqual, K::BangEqual, K::LessEqual, K::GreaterEqual, K::Equal, K::Bang, K::Less, K::Greater, K::Eof]
    );
    assert_eq!(kinds("a==b"), vec![K::Identifier, K::EqualEqual, K::Identifier, K::Eof]);
}

#[test]
fn number_then_dot() {
    let tokens = lex("42.");
    assert_eq!(tokens.len(), 3);
    assert_eq!(tokens[0].token_type, TokenType::NumberLiteral);
    assert_eq!(tokens[0].lexeme, "42");
    assert_eq!(tokens[1].token_type, TokenType::Dot);
    let tokens = lex("3.14.x");
    assert_eq!(tokens[0].lexeme, "3.14");
    assert_eq!(tokens[1].token_type, TokenType::Dot);
    assert_eq!(tokens[2].lexeme, "x");
}

#[test]
fn rescanning_lexemes_keeps_kinds() {
    let tokens = lex("let total = count >= 10.5 != x");
    for t in tokens.iter().filter(|t| t.token_type != TokenType::Eof) {
        let again = lex(&t.lexeme);
        assert_eq!(again.len(), 2);
        assert_eq!(again[0].token_type, t.token_type);
        assert_eq!(again[0].lexeme, t.lexeme);
    }
}

#[test]
fn comments_are_skipped() {
    assert_eq!(kinds("a // note\nb /* x /* y */ z */ c"), vec![K::Identifier, K::Newline, K::Identifier, K::Identifier, K::Eof]);
}

#[test]
fn unterminated_block_comment_runs_to_end() {
    assert_eq!(kinds("a /* open /* nested */"), vec![K::Identifier, K::Eof]);
}

#[test]
fn string_escapes_are_kept() {
    let tokens = lex("'it\\'s' \"a\\\"b\"");
    assert_eq!(tokens[0].token_type, TokenType::StringLiteral);
    assert_eq!(tokens[0].lexeme, "it\\'s");
    assert_eq!(tokens[1].lexeme, "a\\\"b");
}

#[test]
fn keywords_and_identifiers() {
    assert_eq!(
        kinds("fn while return true null _x café lets"),
        vec![K::Fn, K::While, K::Return, K::True, K::Null, K::Identifier, K::Identifier, K::Identifier, K::Eof]
    );
    let tokens = lex("café");
    assert_eq!(tokens[0].lexeme, "café");
}

#[test]
fn positions_track_lines_and_columns() {
    let tokens = lex("ab cd\nef");
    assert_eq!(tokens[0].position, Position::new(1, 1));
    assert_eq!(tokens[1].position, Position::new(1, 4));
    assert_eq!(tokens[2].token_type, TokenType::Newline);
    assert_eq!(tokens[2].position, Position::new(1, 6));
    assert_eq!(tokens[3].position, Position::new(2, 1));
}

#[test]
fn empty_source_is_just_eof() {
    assert_eq!(kinds(""), vec![TokenType::Eof]);
}

#[test]
fn eof_repeats_after_end() {
    let mut lexer = Lexer::new("a");
    assert_eq!(lexer.next_token().unwrap().token_type, TokenType::Identifier);
    assert_eq!(lexer.next_token().unwrap().token_type, TokenType::Eof);
    assert_eq!(lexer.next_token().unwrap().token_type, TokenType::Eof);
}

#[test]
fn error_without_position() {
    let e = novascript_lexer::Error::without_position(ErrorKind::IoError, String::from("missing"));
    assert_eq!(e.kind, ErrorKind::IoError);
    assert_eq!(e.position, None);
}

#[test]
fn kind_names_match_variants() {
    assert_eq!(TokenType::EqualEqual.name(), "EqualEqual");
    assert_eq!(TokenType::Eof.name(), "Eof");
    assert_eq!(TokenType::Let.name(), "Let");
}

#[test]
fn position_and_token_text() {
    assert_eq!(Position::new(12, 305).describe(), "12:305");
    assert_eq!(Position::new(1, 0).describe(), "1:0");
    let tokens = lex("\n  count");
    assert_eq!(tokens[2].describe(), "Identifier 'count' at 2:3");
}

#[test]
fn error_text_with_and_without_position() {
    let mut lexer = Lexer::new("\"open");
    let err = lexer.tokenize().unwrap_err();
    assert_eq!(err.describe(), "Syntax error at 1:1: unterminated string");
    let io = novascript_lexer::Error::without_position(ErrorKind::IoError, String::from("no such file"));
    assert_eq!(io.describe(), "I/O error: no such file");
}

#[test]
fn tokens_compare_by_kind_text_and_place() {
    let a = lex("x x");
    assert_eq!(a[0].token_type, a[1].token_type);
    assert_eq!(a[0].lexeme, a[1].lexeme);
    assert!(a[0] != a[1]);
    assert!(a[0] == lex("x")[0]);
}

#[test]
fn indents_and_dedents_balance_over_stream() {
    for source in ["a\n  b\n    c\n  d\ne", "a\n\tb\n\t\tc", "x\n  y\n  z", "p\n    q\n        r\n    s\n"] {
        let ks = kinds(source);
        let indents = ks.iter().filter(|k| **k == TokenType::Indent).count();
        let dedents = ks.iter().filter(|k| **k == TokenType::Dedent).count();
        assert!(indents > 0);
        assert_eq!(indents, dedents);
    }
}

#[test]
fn eof_is_last_and_single() {
    for source in ["", "a\n  b", "x = 1\n", "// only a comment"] {
        let ks = kinds(source);
        assert_eq!(*ks.last().unwrap(), TokenType::Eof);
        assert_eq!(ks.iter().filter(|k| **k == TokenType::Eof).count(), 1);
    }
}
