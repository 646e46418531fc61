use lox::scanner::{ScanError, Scanner};
use lox::token::{Token, TokenType};

fn scan(source: &str) -> (Vec<Token>, Vec<ScanError>) {
    let mut scanner = Scanner::new(source);
    let tokens = scanner.scan_tokens();
    let errors = scanner.errors().clone();
    (tokens, errors)
}

fn kinds(tokens: &[Token]) -> Vec<TokenType> {
    tokens.iter().map(|t| t.kind).collect()
}

#[test]
fn empty_input_gives_only_eof() {
    let (tokens, errors) = scan("");
    assert_eq!(tokens.len(), 1);
    assert_eq!(tokens[0].kind, TokenType::Eof);
    assert_eq!(tokens[0].lexeme, "");
    assert_eq!(tokens[0].line, 1);
    assert!(errors.is_empty());
}

#[test]
fn comment_line_counts_its_newline() {
    let (tokens, errors) = scan("// comment\n");
    assert_eq!(tokens.len(), 1);
    assert_eq!(tokens[0].kind, TokenType::Eof);
    assert_eq!(tokens[0].lexeme, "");
    assert_eq!(tokens[0].line, 2);
    assert!(errors.is_empty());
}

#[test]
fn multiline_string_literal() {
    let (tokens, errors) = scan("\"hello\nworld\"");
    assert_eq!(tokens.len(), 2);
    assert_eq!(tokens[0].kind, TokenType::Str);
    assert_eq!(tokens[0].literal.as_deref(), Some("hello\nworld"));
    assert_eq!(tokens[0].lexeme, "\"hello\nworld\"");
    assert_eq!(tokens[0].line, 1);
    assert_eq!(tokens[1].kind, TokenType::Eof);
    assert_eq!(tokens[1].line, 2);
    assert!(errors.is_empty());
}

#[test]
fn punctuation_gives_one_token_per_character() {
    let source = "(){},.-+;*";
    let (tokens, errors) = scan(source);
    assert_eq!(tokens.len(), source.chars().count() + 1);
    for (t, c) in tokens.iter().zip(source.chars()) {
        assert_eq!(t.lexeme, c.to_string());
        assert_eq!(t.line, 1);
        assert_eq!(t.literal, None);
    }
    assert_eq!(
        kinds(&tokens),
        vec![
            TokenType::LeftParen,
            TokenType::RightParen,
            TokenType::LeftBrace,
            TokenType::RightBrace,
            TokenType::Comma,
            TokenType::Dot,
            TokenType::Minus,
            TokenType::Plus,
            TokenType::Semicolon,
            TokenType::Star,
            TokenType::Eof,
        ]
    );
    assert!(errors.is_empty());
}

#[test]
fn two_character_operators_form_one_token() {
    let cases = [
        ("!=", TokenType::BangEqual),
        ("==", TokenType::EqualEqual),
        ("<=", TokenType::LessEqual),
        (">=", TokenType::GreaterEqual),
    ];
    for (source, kind) in cases {
        let (tokens, errors) = scan(source);
        assert_eq!(kinds(&tokens), vec![kind, TokenType::Eof]);
        assert_eq!(tokens[0].lexeme, source);
        assert!(errors.is_empty());
    }
}

#[test]
fn operator_characters_alone_form_one_character_tokens() {
    let cases = [
        ("!", TokenType::Bang),
        ("=", TokenType::Equal),
        ("<", TokenType::Less),
        (">", TokenType::Greater),
    ];
    for (source, kind) in cases {
        let (tokens, errors) = scan(source);
        assert_eq!(kinds(&tokens), vec![kind, TokenType::Eof]);
        assert_eq!(tokens[0].lexeme, source);
        assert!(errors.is_empty());
    }
}

#[test]
fn operator_followed_by_other_character() {
    let (tokens, _) = scan("!(");
    assert_eq!(
        kinds(&tokens),
        vec![TokenType::Bang, TokenType::LeftParen, TokenType::Eof]
    );
    let (tokens, _) = scan("===");
    assert_eq!(
        kinds(&tokens),
        vec![TokenType::EqualEqual, TokenType::Equal, TokenType::Eof]
    );
}

#[test]
fn slash_alone_is_a_token() {
    let (tokens, errors) = scan("/ /");
    assert_eq!(
        kinds(&tokens),
        vec![TokenType::Slash, TokenType::Slash, TokenType::Eof]
    );
    assert!(errors.is_empty());
}

#[test]
fn comment_without_newline_runs_to_end() {
    let (tokens, _) = scan("+ // rest ( )");
    assert_eq!(kinds(&tokens), vec![TokenType::Plus, TokenType::Eof]);
    assert_eq!(tokens[1].line, 1);
}

#[test]
fn whitespace_is_skipped_and_newlines_counted() {
    let (tokens, errors) = scan(" \t\r(\n\n)");
    assert_eq!(
        kinds(&tokens),
        vec![TokenType::LeftParen, TokenType::RightParen, TokenType::Eof]
    );
    assert_eq!(tokens[0].line, 1);
    assert_eq!(tokens[1].line, 3);
    assert_eq!(tokens[2].line, 3);
    assert!(errors.is_empty());
}

#[test]
fn unexpected_character_is_reported_and_scanning_goes_on() {
    let (tokens, errors) = scan("(@\n#)");
    assert_eq!(
        kinds(&tokens),
        vec![TokenType::LeftParen, TokenType::RightParen, TokenType::Eof]
    );
    assert_eq!(
        errors,
        vec![
            ScanError::UnexpectedCharacter { ch: '@', line: 1 },
            ScanError::UnexpectedCharacter { ch: '#', line: 2 },
        ]
    );
}

#[test]
fn unterminated_string_is_reported() {
    let (tokens, errors) = scan("+\n\"abc\ndef");
    assert_eq!(kinds(&tokens), vec![TokenType::Plus, TokenType::Eof]);
    assert_eq!(tokens[1].line, 3);
    assert_eq!(errors, vec![ScanError::UnterminatedString { line: 2 }]);
}

#[test]
fn empty_string_literal() {
    let (tokens, _) = scan("\"\"");
    assert_eq!(tokens[0].kind, TokenType::Str);
    assert_eq!(tokens[0].literal.as_deref(), Some(""));
    assert_eq!(tokens[0].lexeme, "\"\"");
}

#[test]
fn string_with_non_ascii_characters() {
    let (tokens, errors) = scan("\"héllo ✓\";");
    assert_eq!(
        kinds(&tokens),
        vec![TokenType::Str, TokenType::Semicolon, TokenType::Eof]
    );
    assert_eq!(tokens[0].literal.as_deref(), Some("héllo ✓"));
    assert_eq!(tokens[1].lexeme, ";");
    assert!(errors.is_empty());
}

#[test]
fn scan_token_takes_one_step() {
    let mut scanner = Scanner::new("<=+");
    scanner.scan_token();
    let tokens = scanner.scan_tokens();
    assert_eq!(
        kinds(&tokens),
        vec![TokenType::LessEqual, TokenType::Plus, TokenType::Eof]
    );
}

#[test]
fn token_new_and_clone_keep_fields() {
    let t = Token::new(TokenType::Str, "\"a\"".to_string(), Some("a".to_string()), 4);
    let c = t.clone();
    assert_eq!(c.kind, TokenType::Str);
    assert_eq!(c.lexeme, "\"a\"");
    assert_eq!(c.literal.as_deref(), Some("a"));
    assert_eq!(c.line, 4);
}

#[test]
fn scan_errors_give_line_and_message() {
    let e = ScanError::UnexpectedCharacter { ch: '$', line: 7 };
    assert_eq!(e.line(), 7);
    assert_eq!(e.message(), "Unexpected character.");
    let e = ScanError::UnterminatedString { line: 3 };
    assert_eq!(e.line(), 3);
    assert_eq!(e.message(), "Unterminated string.");
}

#[test]
fn scan_token_driven_until_end() {
    let mut scanner = Scanner::new("( !\n)");
    let mut steps = 0;
    while !scanner.is_at_end() {
        scanner.scan_token();
        steps += 1;
    }
    assert_eq!(steps, 5);
    let tokens = scanner.scan_tokens();
    assert_eq!(
        kinds(&tokens),
        vec![
            TokenType::LeftParen,
            TokenType::Bang,
            TokenType::RightParen,
            TokenType::Eof
        ]
    );
    assert_eq!(tokens[2].line, 2);
}
