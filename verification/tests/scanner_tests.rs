use saturday::error::SaturdayResult;
use saturday::object::Object;
use saturday::scanner::Scanner;
use saturday::token_type::TokenType;

fn kinds(source: &str) -> Vec<TokenType> {
    let mut scanner = Scanner::new(source.to_string());
    scanner.scan_tokens().ok().unwrap().iter().map(|t| t.t_type).collect()
}

#[test]
fn scans_punctuation_and_operators() {
    assert_eq!(
        kinds("(){},.-+;*/ ! != = == < <= > >="),
        vec![
            TokenType::LeftParen,
            TokenType::RightParen,
            TokenType::LeftBrace,
            TokenType::RightBrace,
            TokenType::Comma,
            TokenType::Dot,
            TokenType::Minus,
            TokenType::Plus,
            TokenType::SemiColon,
            TokenType::Star,
            TokenType::Slash,
            TokenType::Bang,
            TokenType::BangEqual,
            TokenType::Assign,
            TokenType::Equal,
            TokenType::Less,
            TokenType::LessEqual,
            TokenType::Greater,
            TokenType::GreaterEqual,
            TokenType::Eof,
        ]
    );
}

#[test]
fn scans_number_with_fraction() {
    let mut scanner = Scanner::new("12.50.x".to_string());
    let tokens = scanner.scan_tokens().ok().unwrap();
    assert_eq!(tokens.len(), 4);
    assert_eq!(tokens[0].t_type, TokenType::Number);
    assert_eq!(tokens[0].lexeme, "12.50");
    assert_eq!(tokens[0].literal, Some(Object::Num("12.50".to_string())));
    assert_eq!(tokens[1].t_type, TokenType::Dot);
    assert_eq!(tokens[2].t_type, TokenType::Identifier);
}

#[test]
fn nested_comment_is_skipped() {
    assert_eq!(
        kinds("a /* x /* y */ z */ b // c\n d"),
        vec![TokenType::Identifier, TokenType::Identifier, TokenType::Identifier, TokenType::Eof]
    );
}

#[test]
fn unterminated_comment_is_reported_at_last_line() {
    let mut scanner = Scanner::new("a /* x /* y */\n\n".to_string());
    let result = scanner.scan_tokens();
    assert_eq!(
        result.err(),
        Some(SaturdayResult::Error { line: 3, message: "Unterminated comment".to_string() })
    );
}

#[test]
fn keywords_and_identifiers() {
    assert_eq!(
        kinds("and class else false for fun if nil or print return super this true var while def break andy _x x1"),
        vec![
            TokenType::And,
            TokenType::Class,
            TokenType::Else,
            TokenType::False,
            TokenType::For,
            TokenType::Fun,
            TokenType::If,
            TokenType::Nil,
            TokenType::Or,
            TokenType::Print,
            TokenType::Return,
            TokenType::Super,
            TokenType::This,
            TokenType::True,
            TokenType::Var,
            TokenType::While,
            TokenType::Def,
            TokenType::Break,
            TokenType::Identifier,
            TokenType::Identifier,
            TokenType::Identifier,
            TokenType::Eof,
        ]
    );
}

#[test]
fn string_keeps_its_text_and_begins_on_its_first_line() {
    let mut scanner = Scanner::new("\n\"a\nb // c\" x".to_string());
    let tokens = scanner.scan_tokens().ok().unwrap();
    assert_eq!(tokens[0].t_type, TokenType::String);
    assert_eq!(tokens[0].lexeme, "\"a\nb // c\"");
    assert_eq!(tokens[0].literal, Some(Object::Str("a\nb // c".to_string())));
    assert_eq!(tokens[0].line, 2);
    assert_eq!(tokens[1].lexeme, "x");
    assert_eq!(tokens[1].line, 3);
    assert_eq!(tokens[2].t_type, TokenType::Eof);
    assert_eq!(tokens[2].line, 3);
}

#[test]
fn unterminated_string_is_reported_at_its_first_line() {
    let mut scanner = Scanner::new("x\n\"abc\n\n".to_string());
    assert_eq!(
        scanner.scan_tokens().err(),
        Some(SaturdayResult::Error { line: 2, message: "Unterminated string.".to_string() })
    );
}

#[test]
fn first_error_is_the_result_and_scanning_goes_on() {
    let mut scanner = Scanner::new("a # b\n@ c".to_string());
    assert_eq!(
        scanner.scan_tokens().err(),
        Some(SaturdayResult::Error { line: 1, message: "Unexpected character".to_string() })
    );
    assert_eq!(
        scanner.errors().clone(),
        vec![
            SaturdayResult::Error { line: 1, message: "Unexpected character".to_string() },
            SaturdayResult::Error { line: 2, message: "Unexpected character".to_string() },
        ]
    );
}

#[test]
fn letters_outside_ascii_are_unexpected() {
    let mut scanner = Scanner::new("é".to_string());
    assert!(scanner.scan_tokens().is_err());
}

#[test]
fn lexemes_put_together_are_the_source_without_blanks_and_comments() {
    let source = "def a = 12.5; // note\n/* x\n */ print \"a b\" + a;\n";
    let mut scanner = Scanner::new(source.to_string());
    let tokens = scanner.scan_tokens().ok().unwrap();
    let joined: String = tokens.iter().map(|t| t.lexeme.as_str()).collect();
    assert_eq!(joined, "defa=12.5;print\"a b\"+a;");
}

#[test]
fn two_scans_of_one_source_agree() {
    let source = "fun f(a) { return a + 1; } // c\nprint f(2);";
    let first = Scanner::new(source.to_string()).scan_tokens().ok().unwrap();
    let second = Scanner::new(source.to_string()).scan_tokens().ok().unwrap();
    assert_eq!(first, second);
}

#[test]
fn empty_source_is_only_the_end() {
    let mut scanner = Scanner::new(String::new());
    let tokens = scanner.scan_tokens().ok().unwrap();
    assert_eq!(tokens.len(), 1);
    assert_eq!(tokens[0].t_type, TokenType::Eof);
    assert_eq!(tokens[0].lexeme, "");
    assert_eq!(tokens[0].literal, None);
    assert_eq!(tokens[0].line, 1);
}

#[test]
fn dot_without_digit_behind_it_ends_the_number() {
    let mut scanner = Scanner::new("1. 2".to_string());
    let tokens = scanner.scan_tokens().ok().unwrap();
    assert_eq!(tokens[0].lexeme, "1");
    assert_eq!(tokens[1].t_type, TokenType::Dot);
    assert_eq!(tokens[2].lexeme, "2");
}

#[test]
fn slash_star_slash_opens_and_does_not_close() {
    let mut scanner = Scanner::new("/*/ a */ b".to_string());
    let tokens = scanner.scan_tokens().ok().unwrap();
    assert_eq!(tokens.len(), 2);
    assert_eq!(tokens[0].lexeme, "b");
}
