use rlox::scanner::{is_alpha, is_alpha_number, is_digit, keyword_of, Scanner};
use rlox::token::{Literal, TokenType};

fn scanner_on(source: &str) -> Scanner {
    Scanner {
        source: source.chars().collect(),
        ..Default::default()
    }
}

fn kinds(source: &str) -> Vec<TokenType> {
    let mut scanner = scanner_on(source);
    scanner
        .scan_tokens()
        .unwrap()
        .iter()
        .map(|t| t.token_type)
        .collect()
}

#[test]
fn test_advance() {
    let source: Vec<char> = "Hello world!".to_string().chars().collect();
    let mut scanner = Scanner {
        source: source,
        ..Default::default()
    };
    assert_eq!(scanner.advance(), 'H');
    assert_eq!(scanner.advance(), 'e');
}

#[test]
fn test_is_at_end() {
    let source: Vec<char> = "a".to_string().chars().collect();
    let mut scanner = Scanner {
        source: source,
        ..Default::default()
    };
    assert_eq!(scanner.is_at_end(), false);
    scanner.advance();
    assert_eq!(scanner.is_at_end(), true);
}

#[test]
fn test_is_match() {
    let source: Vec<char> = "a".to_string().chars().collect();
    let mut scanner = Scanner {
        source: source,
        ..Default::default()
    };
    assert_eq!(scanner.is_match('b'), false);
    assert_eq!(scanner.is_match('a'), true);
    assert_eq!(scanner.is_match('a'), false);
}

#[test]
fn test_peek() {
    let source: Vec<char> = "a".to_string().chars().collect();
    let mut scanner = Scanner {
        source: source,
        ..Default::default()
    };
    assert_eq!(scanner.peek(), 'a');
    scanner.advance();
    assert_eq!(scanner.peek(), '\0');
}

#[test]
fn test_peek_next() {
    let source: Vec<char> = "ab".to_string().chars().collect();
    let mut scanner = Scanner {
        source: source,
        ..Default::default()
    };
    assert_eq!(scanner.peek_next(), 'b');
    scanner.advance();
    assert_eq!(scanner.peek_next(), '\0');
}

#[test]
fn test_string() {
    let source: Vec<char> = "\"Hello \n world!\"".to_string().chars().collect();
    let mut scanner = Scanner {
        source: source,
        ..Default::default()
    };
    scanner.advance();
    scanner.string().unwrap();
    let token = &scanner.tokens[0];
    assert_eq!(
        token.lit.as_ref().unwrap(),
        &Literal::Str("Hello \n world!".to_string())
    );
    assert_eq!(scanner.line, 2);
}

fn number_of(lit: &Literal) -> f64 {
    match lit {
        Literal::Number(text) => text.parse().unwrap(),
        _ => panic!("not a number literal"),
    }
}

#[test]
fn test_number_int() {
    let source: Vec<char> = "123".to_string().chars().collect();
    let mut scanner = Scanner {
        source: source,
        ..Default::default()
    };
    scanner.advance();
    scanner.number();
    let token = &scanner.tokens[0];
    assert_eq!(number_of(token.lit.as_ref().unwrap()), 123f64);
    assert_eq!(
        token.lit.as_ref().unwrap(),
        &Literal::Number("123".to_string())
    );
}

#[test]
fn test_number_float() {
    let source: Vec<char> = "123.456".to_string().chars().collect();
    let mut scanner = Scanner {
        source: source,
        ..Default::default()
    };
    scanner.advance();
    scanner.number();
    let token = &scanner.tokens[0];
    assert_eq!(number_of(token.lit.as_ref().unwrap()), 123.456f64);
    assert_eq!(
        token.lit.as_ref().unwrap(),
        &Literal::Number("123.456".to_string())
    );
}

#[test]
fn test_is_digit() {
    assert_eq!(is_digit('0'), true);
    assert_eq!(is_digit('a'), false);
}

#[test]
fn test_simple_scan_tokens() {
    let s = "1 + 2";
    let mut scanner = Scanner {
        source: s.chars().collect(),
        ..Default::default()
    };
    let tokens = scanner.scan_tokens().unwrap();
    assert_eq!(tokens[0].token_type, TokenType::Number);
    assert_eq!(tokens[1].token_type, TokenType::Plus);
    assert_eq!(tokens[2].token_type, TokenType::Number);
}

#[test]
fn character_classes() {
    assert!(is_digit('9'));
    assert!(!is_digit('/'));
    assert!(!is_digit(':'));
    assert!(is_alpha('a') && is_alpha('z') && is_alpha('A') && is_alpha('Z') && is_alpha('_'));
    assert!(!is_alpha('0') && !is_alpha('-') && !is_alpha('{'));
    assert!(is_alpha_number('_') && is_alpha_number('7') && is_alpha_number('q'));
    assert!(!is_alpha_number(' '));
}

#[test]
fn every_keyword_is_known() {
    let words = [
        ("and", TokenType::And),
        ("class", TokenType::Class),
        ("else", TokenType::Else),
        ("false", TokenType::False),
        ("for", TokenType::For),
        ("fun", TokenType::Fun),
        ("if", TokenType::If),
        ("nil", TokenType::Nil),
        ("or", TokenType::Or),
        ("print", TokenType::Print),
        ("return", TokenType::Return),
        ("super", TokenType::Super),
        ("this", TokenType::This),
        ("true", TokenType::True),
        ("var", TokenType::Var),
        ("while", TokenType::While),
    ];
    for (word, kind) in words.iter() {
        assert_eq!(keyword_of(&word.to_string()), Some(*kind));
        assert_eq!(kinds(word), vec![*kind, TokenType::Eof]);
    }
    assert_eq!(keyword_of(&"pring".to_string()), None);
    assert_eq!(keyword_of(&"printer".to_string()), None);
}

#[test]
fn identifiers_run_to_the_last_letter() {
    let mut scanner = scanner_on("abc_1 = orchid;");
    let tokens = scanner.scan_tokens().unwrap();
    assert_eq!(tokens.len(), 5);
    assert_eq!(tokens[0].token_type, TokenType::Identifier);
    assert_eq!(tokens[0].lexeme, "abc_1");
    assert_eq!(tokens[1].token_type, TokenType::Equal);
    assert_eq!(tokens[2].token_type, TokenType::Identifier);
    assert_eq!(tokens[2].lexeme, "orchid");
    assert_eq!(tokens[3].token_type, TokenType::Semicolon);
    assert_eq!(tokens[4].token_type, TokenType::Eof);
}

#[test]
fn operators_of_one_and_two_characters() {
    assert_eq!(
        kinds("! != = == < <= > >= / * - + . , ; ( ) { }"),
        vec![
            TokenType::Bang,
            TokenType::BangEqual,
            TokenType::Equal,
            TokenType::EqualEqual,
            TokenType::Less,
            TokenType::LessEqual,
            TokenType::Greater,
            TokenType::GreaterEqual,
            TokenType::Slash,
            TokenType::Star,
            TokenType::Minus,
            TokenType::Plus,
            TokenType::Dot,
            TokenType::Comma,
            TokenType::Semicolon,
            TokenType::LeftParen,
            TokenType::RightParen,
            TokenType::LeftBrace,
            TokenType::RightBrace,
            TokenType::Eof,
        ]
    );
}

#[test]
fn comments_and_lines() {
    let mut scanner = scanner_on("// nothing here\nvar a; // more\n\"x\ny\"");
    let tokens = scanner.scan_tokens().unwrap();
    assert_eq!(tokens.len(), 5);
    assert_eq!(tokens[0].token_type, TokenType::Var);
    assert_eq!(tokens[0].line, 2);
    assert_eq!(tokens[3].token_type, TokenType::Str);
    assert_eq!(tokens[3].lit, Some(Literal::Str("x\ny".to_string())));
    assert_eq!(tokens[3].lexeme, "\"x\ny\"");
    assert_eq!(tokens[3].line, 4);
    assert_eq!(tokens[4].token_type, TokenType::Eof);
    assert_eq!(tokens[4].lexeme, "");
    assert_eq!(tokens[4].line, 4);
}

#[test]
fn a_number_takes_a_dot_only_before_a_digit() {
    let mut scanner = scanner_on("12.5.x 7.");
    let tokens = scanner.scan_tokens().unwrap();
    let shown: Vec<(TokenType, &str)> = tokens
        .iter()
        .map(|t| (t.token_type, t.lexeme.as_str()))
        .collect();
    assert_eq!(
        shown,
        vec![
            (TokenType::Number, "12.5"),
            (TokenType::Dot, "."),
            (TokenType::Identifier, "x"),
            (TokenType::Number, "7"),
            (TokenType::Dot, "."),
            (TokenType::Eof, ""),
        ]
    );
}

#[test]
fn unterminated_string_is_a_scan_error() {
    let mut scanner = scanner_on("print \"abc\n");
    let err = scanner.scan_tokens().unwrap_err();
    assert_eq!(err.kind, "scan error");
    assert_eq!(err.msg, "unterminated string");
    assert_eq!(err.line, Some(2));
    assert_eq!(err.to_string(), "unterminated string");
}

#[test]
fn unexpected_character_is_a_scan_error() {
    let mut scanner = scanner_on("var a;\n  @");
    let err = scanner.scan_tokens().unwrap_err();
    assert_eq!(err.kind, "scan error");
    assert_eq!(err.msg, "unexpected character");
    assert_eq!(err.line, Some(2));
}

#[test]
fn empty_source_is_one_token() {
    assert_eq!(kinds(""), vec![TokenType::Eof]);
    assert_eq!(kinds(" \t\r\n"), vec![TokenType::Eof]);
}
