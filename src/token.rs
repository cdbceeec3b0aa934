//! The scanner's output: token kinds, literal payloads and tokens, each with
//! a view into mathematical values.
use vstd::prelude::*;

verus! {

/// The closed set of token kinds.
#[derive(Clone, Copy, Debug, PartialEq, Eq, Structural)]
pub enum TokenType {
    LeftParenthesis,
    RightParenthesis,
    LeftBrace,
    RightBrace,
    Comma,
    Dot,
    Minus,
    Plus,
    Semicolon,
    Slash,
    Star,
    Bang,
    BangEqual,
    Equal,
    EqualEqual,
    Greater,
    GreaterEqual,
    Less,
    LessEqual,
    Identifier,
    String,
    Number,
    EOF,
}

/// The payload of a token. Lexemes are copied into owned strings, so a token
/// does not borrow from the source it was scanned from. Tokens that carry no
/// payload hold the default `N(0)`.
#[derive(Debug)]
pub enum Literal {
    S(String),
    N(u32),
}

/// What a literal payload stands for.
pub enum LiteralView {
    Text(Seq<char>),
    Number(u32),
}

impl View for Literal {
    type V = LiteralView;

    open spec fn view(&self) -> LiteralView {
        match self {
            Literal::S(s) => LiteralView::Text(s@),
            Literal::N(n) => LiteralView::Number(*n),
        }
    }
}

/// One token: its kind, the exact text it was scanned from, the line it ends
/// on, and its payload.
#[derive(Debug)]
pub struct Token {
    token_type: TokenType,
    lexeme: String,
    line: usize,
    literal: Literal,
}

/// What a token stands for.
pub struct TokenView {
    pub kind: TokenType,
    pub lexeme: Seq<char>,
    pub line: nat,
    pub literal: LiteralView,
}

impl View for Token {
    type V = TokenView;

    closed spec fn view(&self) -> TokenView {
        TokenView {
            kind: self.token_type,
            lexeme: self.lexeme@,
            line: self.line as nat,
            literal: self.literal@,
        }
    }
}

/// The views of a sequence of tokens.
pub open spec fn tokens_view(ts: Seq<Token>) -> Seq<TokenView> {
    ts.map_values(|t: Token| t@)
}

impl Token {
    /// A token without a payload.
    pub fn new(token_type: TokenType, lexeme: &str, line: usize) -> (r: Token)
        ensures
            r@ == (TokenView {
                kind: token_type,
                lexeme: lexeme@,
                line: line as nat,
                literal: LiteralView::Number(0),
            }),
    {
        Token { token_type, lexeme: String::from_str(lexeme), line, literal: Literal::N(0) }
    }

    /// A token with a payload.
    pub fn new_literal(token_type: TokenType, lexeme: &str, line: usize, literal: Literal) -> (r:
        Token)
        ensures
            r@ == (TokenView { kind: token_type, lexeme: lexeme@, line: line as nat, literal: literal@ }),
    {
        Token { token_type, lexeme: String::from_str(lexeme), line, literal }
    }

    pub fn lexeme(&self) -> (r: &str)
        ensures
            r@ == self@.lexeme,
    {
        self.lexeme.as_str()
    }

    pub fn token_type(&self) -> (r: &TokenType)
        ensures
            *r == self@.kind,
    {
        &self.token_type
    }

    pub fn line(&self) -> (r: usize)
        ensures
            r as nat == self@.line,
    {
        self.line
    }

    pub fn literal(&self) -> (r: &Literal)
        ensures
            r@ == self@.literal,
    {
        &self.literal
    }
}

} // verus!
