use kb_parser::text::{decimal_string, is_keyword_name, name_is};
use kb_parser::token::{Pat, Token};

#[test]
fn decimal_text_of_numbers() {
    assert_eq!(decimal_string(0), "0");
    assert_eq!(decimal_string(7), "7");
    assert_eq!(decimal_string(10), "10");
    assert_eq!(decimal_string(120), "120");
    assert_eq!(decimal_string(u64::MAX), "18446744073709551615");
}

#[test]
fn reserved_words() {
    for w in ["fn", "import", "var", "if", "elif", "else", "end", "is", "not", "and", "or", "in", "PRINT", "GOTO"] {
        assert!(is_keyword_name(&w.to_string()), "{} should be reserved", w);
    }
    for w in ["while", "nil", "as", "x", "Fn", "print", ""] {
        assert!(!is_keyword_name(&w.to_string()), "{} should not be reserved", w);
    }
}

#[test]
fn names_compare_by_text() {
    assert!(name_is(&"end".to_string(), "end"));
    assert!(!name_is(&"end".to_string(), "en"));
}

#[test]
fn token_identity() {
    assert!(Token::Name("a".to_string()).same_as(&Token::Name("a".to_string())));
    assert!(!Token::Name("a".to_string()).same_as(&Token::Name("b".to_string())));
    assert!(!Token::Name("a".to_string()).same_as(&Token::String("a".to_string())));
    assert!(Token::Number(3).same_as(&Token::Number(3)));
    assert!(!Token::Number(3).same_as(&Token::Number(4)));
    assert!(Token::EOF.same_as(&Token::EOF));
    assert!(!Token::Dot.same_as(&Token::Comma));
    let copy = Token::RawString("r".to_string()).duplicate();
    assert_eq!(copy, Token::RawString("r".to_string()));
}

#[test]
fn patterns() {
    let name = Token::Name("if".to_string());
    assert!(Pat::Name.matches(&name));
    assert!(Pat::Keyword("if".to_string()).matches(&name));
    assert!(!Pat::Keyword("end".to_string()).matches(&name));
    assert!(Pat::Exact(Token::Name("if".to_string())).matches(&name));
    assert!(!Pat::Name.matches(&Token::Number(1)));
    assert!(Pat::Exact(Token::LParen).matches(&Token::LParen));
    assert!(!Pat::Exact(Token::LParen).matches(&Token::RParen));
}
