use vstd::prelude::*;

verus! {

/// A position in the source text, carried through to the syntax tree so that
/// diagnostics can point back at the code.
#[derive(Clone, Copy, Debug, PartialEq, Eq, Structural)]
pub struct Mark {
    pub offset: usize,
}

/// A lexical token.
#[derive(Debug, PartialEq, Eq)]
pub enum Token {
    Name(String),
    Number(u64),
    String(String),
    RawString(String),
    Dot,
    Comma,
    Colon,
    Semicolon,
    Newline,
    LParen,
    RParen,
    Eq,
    Plus,
    Minus,
    Star,
    Slash,
    Slash2,
    Percent,
    LessThan,
    LessThanOrEqual,
    GreaterThan,
    GreaterThanOrEqual,
    EOF,
}

/// The mathematical model of a token: text payloads are character sequences.
pub enum SpecToken {
    Name(Seq<char>),
    Number(nat),
    String(Seq<char>),
    RawString(Seq<char>),
    Dot,
    Comma,
    Colon,
    Semicolon,
    Newline,
    LParen,
    RParen,
    Eq,
    Plus,
    Minus,
    Star,
    Slash,
    Slash2,
    Percent,
    LessThan,
    LessThanOrEqual,
    GreaterThan,
    GreaterThanOrEqual,
    EOF,
}

impl View for Token {
    type V = SpecToken;

    open spec fn view(&self) -> SpecToken {
        match self {
            Token::Name(s) => SpecToken::Name(s@),
            Token::Number(x) => SpecToken::Number(*x as nat),
            Token::String(s) => SpecToken::String(s@),
            Token::RawString(s) => SpecToken::RawString(s@),
            Token::Dot => SpecToken::Dot,
            Token::Comma => SpecToken::Comma,
            Token::Colon => SpecToken::Colon,
            Token::Semicolon => SpecToken::Semicolon,
            Token::Newline => SpecToken::Newline,
            Token::LParen => SpecToken::LParen,
            Token::RParen => SpecToken::RParen,
            Token::Eq => SpecToken::Eq,
            Token::Plus => SpecToken::Plus,
            Token::Minus => SpecToken::Minus,
            Token::Star => SpecToken::Star,
            Token::Slash => SpecToken::Slash,
            Token::Slash2 => SpecToken::Slash2,
            Token::Percent => SpecToken::Percent,
            Token::LessThan => SpecToken::LessThan,
            Token::LessThanOrEqual => SpecToken::LessThanOrEqual,
            Token::GreaterThan => SpecToken::GreaterThan,
            Token::GreaterThanOrEqual => SpecToken::GreaterThanOrEqual,
            Token::EOF => SpecToken::EOF,
        }
    }
}

impl DeepView for Token {
    type V = SpecToken;

    open spec fn deep_view(&self) -> SpecToken {
        self.view()
    }
}

impl Token {
    /// A copy of the token.
    pub fn duplicate(&self) -> (t: Token)
        ensures
            t@ == self@,
    {
        match self {
            Token::Name(s) => Token::Name(s.clone()),
            Token::Number(x) => Token::Number(*x),
            Token::String(s) => Token::String(s.clone()),
            Token::RawString(s) => Token::RawString(s.clone()),
            Token::Dot => Token::Dot,
            Token::Comma => Token::Comma,
            Token::Colon => Token::Colon,
            Token::Semicolon => Token::Semicolon,
            Token::Newline => Token::Newline,
            Token::LParen => Token::LParen,
            Token::RParen => Token::RParen,
            Token::Eq => Token::Eq,
            Token::Plus => Token::Plus,
            Token::Minus => Token::Minus,
            Token::Star => Token::Star,
            Token::Slash => Token::Slash,
            Token::Slash2 => Token::Slash2,
            Token::Percent => Token::Percent,
            Token::LessThan => Token::LessThan,
            Token::LessThanOrEqual => Token::LessThanOrEqual,
            Token::GreaterThan => Token::GreaterThan,
            Token::GreaterThanOrEqual => Token::GreaterThanOrEqual,
            Token::EOF => Token::EOF,
        }
    }
}


impl Token {
    /// Whether two tokens are the same token, payload included.
    pub fn same_as(&self, other: &Token) -> (b: bool)
        ensures
            b == (self@ == other@),
    {
        match self {
            Token::Name(x) => match other {
                Token::Name(y) => *x == *y,
                _ => false,
            },
            Token::Number(x) => match other {
                Token::Number(y) => *x == *y,
                _ => false,
            },
            Token::String(x) => match other {
                Token::String(y) => *x == *y,
                _ => false,
            },
            Token::RawString(x) => match other {
                Token::RawString(y) => *x == *y,
                _ => false,
            },
            Token::Dot => matches!(other, Token::Dot),
            Token::Comma => matches!(other, Token::Comma),
            Token::Colon => matches!(other, Token::Colon),
            Token::Semicolon => matches!(other, Token::Semicolon),
            Token::Newline => matches!(other, Token::Newline),
            Token::LParen => matches!(other, Token::LParen),
            Token::RParen => matches!(other, Token::RParen),
            Token::Eq => matches!(other, Token::Eq),
            Token::Plus => matches!(other, Token::Plus),
            Token::Minus => matches!(other, Token::Minus),
            Token::Star => matches!(other, Token::Star),
            Token::Slash => matches!(other, Token::Slash),
            Token::Slash2 => matches!(other, Token::Slash2),
            Token::Percent => matches!(other, Token::Percent),
            Token::LessThan => matches!(other, Token::LessThan),
            Token::LessThanOrEqual => matches!(other, Token::LessThanOrEqual),
            Token::GreaterThan => matches!(other, Token::GreaterThan),
            Token::GreaterThanOrEqual => matches!(other, Token::GreaterThanOrEqual),
            Token::EOF => matches!(other, Token::EOF),
        }
    }
}

/// What a parser step expects to see next.
#[derive(Debug, PartialEq, Eq)]
pub enum Pat {
    /// Exactly this token.
    Exact(Token),
    /// A name token spelling this keyword.
    Keyword(String),
    /// Any name token, keyword or not.
    Name,
}

/// The model of a pattern.
pub enum SpecPat {
    Exact(SpecToken),
    Keyword(Seq<char>),
    Name,
}

impl View for Pat {
    type V = SpecPat;

    open spec fn view(&self) -> SpecPat {
        match self {
            Pat::Exact(t) => SpecPat::Exact(t@),
            Pat::Keyword(k) => SpecPat::Keyword(k@),
            Pat::Name => SpecPat::Name,
        }
    }
}

/// Whether the token `t` fits the pattern `p`.
pub open spec fn pat_matches(p: SpecPat, t: SpecToken) -> bool {
    match p {
        SpecPat::Exact(x) => x == t,
        SpecPat::Keyword(k) => t matches SpecToken::Name(n) && n == k,
        SpecPat::Name => t is Name,
    }
}

impl Pat {
    /// Whether `tok` fits this pattern.
    pub fn matches(&self, tok: &Token) -> (b: bool)
        ensures
            b == pat_matches(self@, tok@),
    {
        match self {
            Pat::Exact(t) => t.same_as(tok),
            Pat::Keyword(k) => match tok {
                Token::Name(name) => *k == *name,
                _ => false,
            },
            Pat::Name => match tok {
                Token::Name(_) => true,
                _ => false,
            },
        }
    }
}

} // verus!
