use kb_parser::error::{BasicError, ErrorKind};
use kb_parser::parse;
use kb_parser::token::{Mark, Pat, Token};

fn stream(toks: Vec<Token>) -> Vec<(Token, Mark)> {
    toks.into_iter()
        .enumerate()
        .map(|(i, t)| (t, Mark { offset: i }))
        .collect()
}

fn name(s: &str) -> Token {
    Token::Name(s.to_string())
}

fn error_of(toks: Vec<Token>) -> BasicError {
    match parse(stream(toks)) {
        Ok(f) => panic!("expected an error, parsed {:?}", f),
        Err(e) => e,
    }
}

#[test]
fn missing_close_paren() {
    let e = error_of(vec![Token::LParen, name("a"), Token::EOF]);
    assert_eq!(
        e,
        BasicError {
            mark: Mark { offset: 2 },
            kind: ErrorKind::Expected { expected: Pat::Exact(Token::RParen), got: Token::EOF },
        }
    );
}

#[test]
fn keyword_as_variable_name() {
    let e = error_of(vec![name("var"), name("if"), Token::Eq, Token::Number(1), Token::EOF]);
    assert_eq!(e, BasicError { mark: Mark { offset: 1 }, kind: ErrorKind::KeywordAsName });
}

#[test]
fn goto_without_label() {
    let e = error_of(vec![name("GOTO"), Token::LParen, Token::EOF]);
    assert_eq!(
        e,
        BasicError { mark: Mark { offset: 1 }, kind: ErrorKind::ExpectedLabel { got: Token::LParen } }
    );
}

#[test]
fn assignment_to_a_literal() {
    let e = error_of(vec![Token::Number(1), Token::Eq, Token::Number(2), Token::EOF]);
    assert_eq!(e, BasicError { mark: Mark { offset: 0 }, kind: ErrorKind::NotAssignable });
}

#[test]
fn is_is_not_an_infix_operator() {
    let e = error_of(vec![name("a"), name("is"), name("b"), Token::EOF]);
    assert_eq!(e, BasicError { mark: Mark { offset: 1 }, kind: ErrorKind::ExpectedInfixOperator });
}

#[test]
fn keyword_as_expression() {
    let e = error_of(vec![name("x"), Token::Eq, name("end"), Token::EOF]);
    assert_eq!(
        e,
        BasicError {
            mark: Mark { offset: 2 },
            kind: ErrorKind::KeywordAsExpression { keyword: "end".to_string() },
        }
    );
}

#[test]
fn stray_end_at_top_level() {
    let e = error_of(vec![name("x"), name("end"), Token::EOF]);
    assert_eq!(
        e,
        BasicError {
            mark: Mark { offset: 1 },
            kind: ErrorKind::KeywordAsExpression { keyword: "end".to_string() },
        }
    );
}

#[test]
fn expression_expected() {
    let e = error_of(vec![Token::RParen, Token::EOF]);
    assert_eq!(
        e,
        BasicError { mark: Mark { offset: 0 }, kind: ErrorKind::ExpectedExpression { got: Token::RParen } }
    );
}

#[test]
fn two_expressions_without_delimiter() {
    let e = error_of(vec![name("x"), name("y"), Token::EOF]);
    assert_eq!(
        e,
        BasicError {
            mark: Mark { offset: 1 },
            kind: ErrorKind::ExpectedDelimiter { got: name("y") },
        }
    );
}

#[test]
fn raw_string_operand_is_left_in_place() {
    // x = r"a" : the raw string becomes the value but stays the next token.
    let raw = Token::RawString("a".to_string());
    let e = error_of(vec![name("x"), Token::Eq, raw, Token::EOF]);
    assert_eq!(
        e,
        BasicError {
            mark: Mark { offset: 2 },
            kind: ErrorKind::ExpectedDelimiter { got: Token::RawString("a".to_string()) },
        }
    );
}

#[test]
fn function_without_parameter_list() {
    let e = error_of(vec![name("fn"), name("f"), name("x"), Token::EOF]);
    assert_eq!(
        e,
        BasicError {
            mark: Mark { offset: 2 },
            kind: ErrorKind::Expected { expected: Pat::Exact(Token::LParen), got: name("x") },
        }
    );
}

#[test]
fn import_of_a_number() {
    let e = error_of(vec![name("import"), Token::Number(1), Token::EOF]);
    assert_eq!(
        e,
        BasicError {
            mark: Mark { offset: 1 },
            kind: ErrorKind::Expected { expected: Pat::Name, got: Token::Number(1) },
        }
    );
}

#[test]
fn unterminated_if() {
    let e = error_of(vec![name("if"), name("a"), Token::Newline, name("x"), Token::Newline, Token::EOF]);
    assert_eq!(
        e,
        BasicError { mark: Mark { offset: 5 }, kind: ErrorKind::ExpectedExpression { got: Token::EOF } }
    );
}

#[test]
fn while_without_end() {
    // while a; x; elif
    let e = error_of(vec![
        name("while"),
        name("a"),
        Token::Semicolon,
        name("x"),
        Token::Semicolon,
        name("elif"),
        Token::EOF,
    ]);
    assert_eq!(
        e,
        BasicError {
            mark: Mark { offset: 5 },
            kind: ErrorKind::Expected {
                expected: Pat::Exact(name("end")),
                got: name("elif"),
            },
        }
    );
}
