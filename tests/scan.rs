use scanner::lexer::Lexer;
use scanner::model::{Diagnostic, ScanError};
use scanner::token::{Literal, Token, TokenType};

fn kinds(source: &str) -> Vec<TokenType> {
    let source = String::from(source);
    let mut lexer = Lexer::new(&source);
    lexer.scan_tokens().iter().map(|t| *t.token_type()).collect()
}

fn lexemes(source: &str) -> Vec<String> {
    let source = String::from(source);
    let mut lexer = Lexer::new(&source);
    lexer.scan_tokens().iter().map(|t| t.lexeme().to_string()).collect()
}

fn diagnostics(source: &str) -> Vec<Diagnostic> {
    let source = String::from(source);
    let mut lexer = Lexer::new(&source);
    lexer.scan_tokens();
    lexer.diagnostics().clone()
}

#[test]
fn token_quantity() {
    let source = String::from("(((");
    let mut lexer = Lexer::new(&source);
    let tokens = lexer.scan_tokens();
    assert_eq!(tokens.len(), 4);
}

#[test]
fn check_braces() {
    let source = String::from("(((");
    let mut lexer = Lexer::new(&source);
    let tokens = lexer.scan_tokens();
    assert_eq!(tokens.get(0).unwrap().lexeme(), "(");
    assert_eq!(tokens.get(1).unwrap().lexeme(), "(");
    assert_eq!(tokens.get(2).unwrap().lexeme(), "(");
}

#[test]
fn skip_spaces() {
    let source = String::from("( ( (");
    let mut lexer = Lexer::new(&source);
    let tokens = lexer.scan_tokens();
    assert_eq!(tokens.get(0).unwrap().lexeme(), "(");
    assert_eq!(tokens.get(1).unwrap().lexeme(), "(");
    assert_eq!(tokens.get(2).unwrap().lexeme(), "(");
}

#[test]
fn check_greater_equal() {
    let source = String::from(">=");
    let mut lexer = Lexer::new(&source);
    let tokens = lexer.scan_tokens();
    assert_eq!(tokens.get(0).unwrap().lexeme(), ">=");
}

#[test]
fn check_comments() {
    let source = String::from("// testing");
    let mut lexer = Lexer::new(&source);
    let tokens = lexer.scan_tokens();
    assert_eq!(tokens.get(0).unwrap().lexeme(), "\0");
}

#[test]
fn check_string() {
    let source = String::from(r#""string""#);
    let mut lexer = Lexer::new(&source);
    let tokens = lexer.scan_tokens();
    let s = match tokens.get(0).unwrap().literal() {
        Literal::S(s) => s.as_str(),
        _ => "unreachable",
    };
    assert_eq!(s, "string");
}

#[test]
fn three_parens_then_end() {
    assert_eq!(kinds("((("), vec![TokenType::LeftParenthesis, TokenType::LeftParenthesis, TokenType::LeftParenthesis, TokenType::EOF]);
    assert_eq!(kinds("( ( ("), vec![TokenType::LeftParenthesis, TokenType::LeftParenthesis, TokenType::LeftParenthesis, TokenType::EOF]);
    assert_eq!(lexemes("( ( ("), vec!["(", "(", "(", "\0"]);
}

#[test]
fn greater_equal_is_one_token() {
    assert_eq!(kinds(">="), vec![TokenType::GreaterEqual, TokenType::EOF]);
    assert_eq!(lexemes(">="), vec![">=", "\0"]);
}

#[test]
fn comment_yields_only_end() {
    assert_eq!(kinds("// testing"), vec![TokenType::EOF]);
    assert_eq!(kinds("// a\n("), vec![TokenType::LeftParenthesis, TokenType::EOF]);
}

#[test]
fn string_lexeme_keeps_quotes() {
    let source = String::from("\"string\"");
    let mut lexer = Lexer::new(&source);
    let tokens = lexer.scan_tokens();
    assert_eq!(tokens.len(), 2);
    assert_eq!(*tokens[0].token_type(), TokenType::String);
    assert_eq!(tokens[0].lexeme(), "\"string\"");
    match tokens[0].literal() {
        Literal::S(s) => assert_eq!(s.as_str(), "string"),
        Literal::N(_) => panic!("a string token carries its text"),
    }
    assert_eq!(*tokens[1].token_type(), TokenType::EOF);
}

#[test]
fn end_of_input_last_and_only_once() {
    for source in ["", "(((", "a b", "\"open", "// c", "!=<>==/\n*", "\"x\" . ; , { } - +"] {
        let ks = kinds(source);
        assert_eq!(*ks.last().unwrap(), TokenType::EOF);
        assert_eq!(ks.iter().filter(|k| **k == TokenType::EOF).count(), 1);
    }
}

#[test]
fn empty_source_yields_end_on_line_one() {
    let source = String::new();
    let mut lexer = Lexer::new(&source);
    let tokens = lexer.scan_tokens();
    assert_eq!(tokens.len(), 1);
    assert_eq!(*tokens[0].token_type(), TokenType::EOF);
    assert_eq!(tokens[0].line(), 1);
}

#[test]
fn rescanning_gives_identical_tokens() {
    let source = String::from("( \"a\nb\" >= // x\n!");
    let mut first = Lexer::new(&source);
    let mut second = Lexer::new(&source);
    let a: Vec<(TokenType, String, usize)> = first
        .scan_tokens()
        .iter()
        .map(|t| (*t.token_type(), t.lexeme().to_string(), t.line()))
        .collect();
    let b: Vec<(TokenType, String, usize)> = second
        .scan_tokens()
        .iter()
        .map(|t| (*t.token_type(), t.lexeme().to_string(), t.line()))
        .collect();
    assert_eq!(a, b);
    let again: Vec<(TokenType, String, usize)> = first
        .scan_tokens()
        .iter()
        .map(|t| (*t.token_type(), t.lexeme().to_string(), t.line()))
        .collect();
    assert_eq!(a, again);
}

#[test]
fn lines_count_every_newline() {
    let source = String::from("(\n// note\n\"a\nb\"\n)\n");
    let mut lexer = Lexer::new(&source);
    let tokens = lexer.scan_tokens();
    assert_eq!(tokens.len(), 4);
    assert_eq!(tokens[0].line(), 1);
    assert_eq!(tokens[1].line(), 4);
    assert_eq!(tokens[2].line(), 5);
    assert_eq!(tokens[3].line(), 6);
}

#[test]
fn unterminated_string_yields_diagnostic_and_no_token() {
    let source = String::from("( \"abc\ndef");
    let mut lexer = Lexer::new(&source);
    let tokens = lexer.scan_tokens();
    assert_eq!(tokens.len(), 2);
    assert_eq!(*tokens[0].token_type(), TokenType::LeftParenthesis);
    assert_eq!(*tokens[1].token_type(), TokenType::EOF);
    assert_eq!(tokens[1].line(), 2);
    assert_eq!(
        lexer.diagnostics().clone(),
        vec![Diagnostic { line: 2, error: ScanError::UnterminatedString }]
    );
}

#[test]
fn unsupported_character_is_reported_and_skipped() {
    assert_eq!(kinds("@("), vec![TokenType::LeftParenthesis, TokenType::EOF]);
    assert_eq!(
        diagnostics("(\n@"),
        vec![Diagnostic { line: 2, error: ScanError::UnsupportedCharacter('@') }]
    );
    assert_eq!(
        diagnostics("é)"),
        vec![Diagnostic { line: 1, error: ScanError::UnsupportedCharacter('é') }]
    );
    assert_eq!(lexemes("é)"), vec![")", "\0"]);
}

#[test]
fn blanks_yield_nothing() {
    assert_eq!(kinds(" \t\r("), vec![TokenType::LeftParenthesis, TokenType::EOF]);
    assert!(diagnostics(" \t\r(").is_empty());
}

#[test]
fn operators_with_and_without_equal() {
    assert_eq!(
        kinds("!= == <= >= ! = < >"),
        vec![TokenType::BangEqual, TokenType::EqualEqual, TokenType::LessEqual, TokenType::GreaterEqual, TokenType::Bang, TokenType::Equal, TokenType::Less, TokenType::Greater, TokenType::EOF]
    );
    assert_eq!(kinds("!"), vec![TokenType::Bang, TokenType::EOF]);
    assert_eq!(kinds("=="), vec![TokenType::EqualEqual, TokenType::EOF]);
    assert_eq!(kinds("<<="), vec![TokenType::Less, TokenType::LessEqual, TokenType::EOF]);
}

#[test]
fn punctuation_and_slash() {
    assert_eq!(
        kinds("(){},.-+;*/"),
        vec![
            TokenType::LeftParenthesis, TokenType::RightParenthesis, TokenType::LeftBrace, TokenType::RightBrace, TokenType::Comma, TokenType::Dot, TokenType::Minus, TokenType::Plus,
            TokenType::Semicolon, TokenType::Star, TokenType::Slash, TokenType::EOF,
        ]
    );
    assert_eq!(lexemes("a/b"), vec!["/", "\0"]);
}

#[test]
fn multiline_string_payload_and_line() {
    let source = String::from("\"a\nb\"");
    let mut lexer = Lexer::new(&source);
    let tokens = lexer.scan_tokens();
    assert_eq!(tokens[0].lexeme(), "\"a\nb\"");
    assert_eq!(tokens[0].line(), 2);
    match tokens[0].literal() {
        Literal::S(s) => assert_eq!(s.as_str(), "a\nb"),
        Literal::N(_) => panic!("a string token carries its text"),
    }
}

#[test]
fn token_constructors_and_getters() {
    let t = Token::new(TokenType::Plus, "+", 3);
    assert_eq!(*t.token_type(), TokenType::Plus);
    assert_eq!(t.lexeme(), "+");
    assert_eq!(t.line(), 3);
    assert!(matches!(t.literal(), Literal::N(0)));
    let u = Token::new_literal(TokenType::Number, "42", 7, Literal::N(42));
    assert_eq!(*u.token_type(), TokenType::Number);
    assert_eq!(u.lexeme(), "42");
    assert_eq!(u.line(), 7);
    assert!(matches!(u.literal(), Literal::N(42)));
}

#[test]
fn unterminated_string_keeps_prefix_tokens() {
    let prefix = String::from("( >= // c\n!");
    let whole = String::from("( >= // c\n!\"open\nstill");
    let mut a = Lexer::new(&prefix);
    let mut b = Lexer::new(&whole);
    let ta: Vec<(TokenType, String, usize)> = a
        .scan_tokens()
        .iter()
        .map(|t| (*t.token_type(), t.lexeme().to_string(), t.line()))
        .collect();
    let tb: Vec<(TokenType, String, usize)> = b
        .scan_tokens()
        .iter()
        .map(|t| (*t.token_type(), t.lexeme().to_string(), t.line()))
        .collect();
    assert_eq!(ta.len(), tb.len());
    assert_eq!(ta[..ta.len() - 1], tb[..tb.len() - 1]);
    assert_eq!(tb.last().unwrap().0, TokenType::EOF);
    assert_eq!(tb.last().unwrap().2, 3);
    assert_eq!(
        b.diagnostics().clone(),
        vec![Diagnostic { line: 3, error: ScanError::UnterminatedString }]
    );
}
