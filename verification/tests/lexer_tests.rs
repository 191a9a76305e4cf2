use lib::lexer::{Lexer, Token};

#[test]
fn test_keywords() {
    let mut lexer = Lexer::new("int main void");
    assert_eq!(lexer.next_token().unwrap(), Token::Int);
    assert_eq!(
        lexer.next_token().unwrap(),
        Token::Identifier("main".to_string())
    );
    assert_eq!(lexer.next_token().unwrap(), Token::Void);
}

#[test]
fn test_operators() {
    let mut lexer = Lexer::new("== && || + - * /");
    assert_eq!(lexer.next_token().unwrap(), Token::Eq);
    assert_eq!(lexer.next_token().unwrap(), Token::And);
    assert_eq!(lexer.next_token().unwrap(), Token::Or);
    assert_eq!(lexer.next_token().unwrap(), Token::Plus);
    assert_eq!(lexer.next_token().unwrap(), Token::Minus);
    assert_eq!(lexer.next_token().unwrap(), Token::Multiply);
    assert_eq!(lexer.next_token().unwrap(), Token::Divide);
}

#[test]
fn test_literals() {
    let mut lexer = Lexer::new("123 'a' \"hello\"");
    assert_eq!(lexer.next_token().unwrap(), Token::Integer(123));
    assert_eq!(lexer.next_token().unwrap(), Token::Character('a'));
    assert_eq!(
        lexer.next_token().unwrap(),
        Token::String("hello".to_string())
    );
}

#[test]
fn lexer_skips_comments_and_reaches_eof() {
    let mut lexer = Lexer::new("  \n /* block */ x ");
    assert_eq!(lexer.next_token().unwrap(), Token::Identifier("x".to_string()));
    assert_eq!(lexer.next_token().unwrap(), Token::Eof);
    assert_eq!(lexer.next_token().unwrap(), Token::Eof);
}

#[test]
fn lexer_escapes_and_punctuation() {
    let mut lexer = Lexer::new("'\\n' \"a\\tb\" ; : { } , ( ) & ! < =");
    assert_eq!(lexer.next_token().unwrap(), Token::Character('\n'));
    assert_eq!(lexer.next_token().unwrap(), Token::String("a\tb".to_string()));
    let expected = vec![
        Token::Semicolon,
        Token::Colon,
        Token::LeftBrace,
        Token::RightBrace,
        Token::Comma,
        Token::LeftParen,
        Token::RightParen,
        Token::Address,
        Token::Not,
        Token::Less,
        Token::Assign,
        Token::Eof,
    ];
    for t in expected {
        assert_eq!(lexer.next_token().unwrap(), t);
    }
}

#[test]
fn lexer_rejects_unknown_character() {
    let mut lexer = Lexer::new("@");
    assert!(lexer.next_token().is_err());
}

#[test]
fn lexer_rejects_unterminated_string() {
    let mut lexer = Lexer::new("\"abc");
    assert!(lexer.next_token().is_err());
}

#[test]
fn lexer_comment_closing_at_end_is_unterminated() {
    let mut lexer = Lexer::new("x /* c */");
    assert_eq!(lexer.next_token().unwrap(), Token::Identifier("x".to_string()));
    assert!(lexer.next_token().is_err());
}

#[test]
fn lexer_rejects_lone_bar() {
    let mut lexer = Lexer::new("|");
    assert!(lexer.next_token().is_err());
}

#[test]
fn tokens_are_shown_by_spelling_or_kind() {
    assert_eq!(Token::While.to_text(), "while");
    assert_eq!(Token::LeftBrace.to_text(), "{");
    assert_eq!(Token::Or.to_text(), "||");
    assert_eq!(Token::Identifier("x1".to_string()).to_text(), "identifier(x1)");
    assert_eq!(Token::Integer(-42).to_text(), "integer(-42)");
    assert_eq!(Token::Character('a').to_text(), "character(a)");
    assert_eq!(Token::String("hi".to_string()).to_text(), "string(hi)");
    assert_eq!(Token::Eof.to_text(), "EOF");
}
