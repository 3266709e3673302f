//! The lexical units produced by scanning. A number literal is held as
//! the bit pattern of the IEEE binary32 value it denotes.

use vstd::prelude::*;

verus! {

/// The closed set of lexical units.
#[derive(Debug, PartialEq)]
pub enum TokenData {
    // Single-character tokens.
    LeftParen,
    RightParen,
    LeftBrace,
    RightBrace,
    Comma,
    Dot,
    Minus,
    Plus,
    Semicolon,
    Slash,
    Star,
    // One or two character tokens.
    Bang,
    BangEqual,
    Equal,
    EqualEqual,
    Greater,
    GreaterEqual,
    Less,
    LessEqual,
    Identifier(String),
    StringToken(String),
    Number(u32),
    // Keywords.
    And,
    Class,
    Else,
    False,
    Fun,
    For,
    If,
    Nil,
    Or,
    Print,
    Return,
    Super,
    This,
    True,
    Var,
    While,
    Eof,
}

/// Mathematical model of a [`TokenData`]: text payloads become
/// character sequences.
pub enum TokenDataView {
    LeftParen,
    RightParen,
    LeftBrace,
    RightBrace,
    Comma,
    Dot,
    Minus,
    Plus,
    Semicolon,
    Slash,
    Star,
    Bang,
    BangEqual,
    Equal,
    EqualEqual,
    Greater,
    GreaterEqual,
    Less,
    LessEqual,
    Identifier(Seq<char>),
    StringToken(Seq<char>),
    Number(u32),
    And,
    Class,
    Else,
    False,
    Fun,
    For,
    If,
    Nil,
    Or,
    Print,
    Return,
    Super,
    This,
    True,
    Var,
    While,
    Eof,
}

impl View for TokenData {
    type V = TokenDataView;

    open spec fn view(&self) -> TokenDataView {
        match self {
            TokenData::LeftParen => TokenDataView::LeftParen,
            TokenData::RightParen => TokenDataView::RightParen,
            TokenData::LeftBrace => TokenDataView::LeftBrace,
            TokenData::RightBrace => TokenDataView::RightBrace,
            TokenData::Comma => TokenDataView::Comma,
            TokenData::Dot => TokenDataView::Dot,
            TokenData::Minus => TokenDataView::Minus,
            TokenData::Plus => TokenDataView::Plus,
            TokenData::Semicolon => TokenDataView::Semicolon,
            TokenData::Slash => TokenDataView::Slash,
            TokenData::Star => TokenDataView::Star,
            TokenData::Bang => TokenDataView::Bang,
            TokenData::BangEqual => TokenDataView::BangEqual,
            TokenData::Equal => TokenDataView::Equal,
            TokenData::EqualEqual => TokenDataView::EqualEqual,
            TokenData::Greater => TokenDataView::Greater,
            TokenData::GreaterEqual => TokenDataView::GreaterEqual,
            TokenData::Less => TokenDataView::Less,
            TokenData::LessEqual => TokenDataView::LessEqual,
            TokenData::Identifier(s) => TokenDataView::Identifier(s@),
            TokenData::StringToken(s) => TokenDataView::StringToken(s@),
            TokenData::Number(n) => TokenDataView::Number(*n),
            TokenData::And => TokenDataView::And,
            TokenData::Class => TokenDataView::Class,
            TokenData::Else => TokenDataView::Else,
            TokenData::False => TokenDataView::False,
            TokenData::Fun => TokenDataView::Fun,
            TokenData::For => TokenDataView::For,
            TokenData::If => TokenDataView::If,
            TokenData::Nil => TokenDataView::Nil,
            TokenData::Or => TokenDataView::Or,
            TokenData::Print => TokenDataView::Print,
            TokenData::Return => TokenDataView::Return,
            TokenData::Super => TokenDataView::Super,
            TokenData::This => TokenDataView::This,
            TokenData::True => TokenDataView::True,
            TokenData::Var => TokenDataView::Var,
            TokenData::While => TokenDataView::While,
            TokenData::Eof => TokenDataView::Eof,
        }
    }
}

/// One token: a lexical unit tagged with the source line it began on.
#[derive(Debug, PartialEq)]
pub struct Token {
    pub data: TokenData,
    pub line: u32,
}

/// Mathematical model of a [`Token`].
pub struct TokenView {
    pub data: TokenDataView,
    pub line: u32,
}

impl View for Token {
    type V = TokenView;

    open spec fn view(&self) -> TokenView {
        TokenView { data: self.data@, line: self.line }
    }
}

impl Token {
    /// Pairs a lexical unit with its source line.
    pub fn new(t: TokenData, line: u32) -> (r: Self)
        ensures
            r@ == (TokenView { data: t@, line }),
    {
        Self { data: t, line }
    }
}


/// Whether a token sequence is one the parser can run on: what the
/// scanner always produces, a sequence ending in its only `Eof` token.
pub open spec fn tokens_wf(toks: Seq<TokenView>) -> bool {
    &&& toks.len() >= 1
    &&& toks.last().data == TokenDataView::Eof
    &&& forall|j: int| 0 <= j < toks.len() - 1 ==> (#[trigger] toks[j].data) != TokenDataView::Eof
}

/// Decides equality of two lexical units, payloads included.
pub fn token_data_eq(a: &TokenData, b: &TokenData) -> (r: bool)
    ensures
        r == (a@ == b@),
{
    match (a, b) {
        (TokenData::LeftParen, TokenData::LeftParen) => true,
        (TokenData::RightParen, TokenData::RightParen) => true,
        (TokenData::LeftBrace, TokenData::LeftBrace) => true,
        (TokenData::RightBrace, TokenData::RightBrace) => true,
        (TokenData::Comma, TokenData::Comma) => true,
        (TokenData::Dot, TokenData::Dot) => true,
        (TokenData::Minus, TokenData::Minus) => true,
        (TokenData::Plus, TokenData::Plus) => true,
        (TokenData::Semicolon, TokenData::Semicolon) => true,
        (TokenData::Slash, TokenData::Slash) => true,
        (TokenData::Star, TokenData::Star) => true,
        (TokenData::Bang, TokenData::Bang) => true,
        (TokenData::BangEqual, TokenData::BangEqual) => true,
        (TokenData::Equal, TokenData::Equal) => true,
        (TokenData::EqualEqual, TokenData::EqualEqual) => true,
        (TokenData::Greater, TokenData::Greater) => true,
        (TokenData::GreaterEqual, TokenData::GreaterEqual) => true,
        (TokenData::Less, TokenData::Less) => true,
        (TokenData::LessEqual, TokenData::LessEqual) => true,
        (TokenData::Identifier(x), TokenData::Identifier(y)) => x.eq(y),
        (TokenData::StringToken(x), TokenData::StringToken(y)) => x.eq(y),
        (TokenData::Number(x), TokenData::Number(y)) => *x == *y,
        (TokenData::And, TokenData::And) => true,
        (TokenData::Class, TokenData::Class) => true,
        (TokenData::Else, TokenData::Else) => true,
        (TokenData::False, TokenData::False) => true,
        (TokenData::Fun, TokenData::Fun) => true,
        (TokenData::For, TokenData::For) => true,
        (TokenData::If, TokenData::If) => true,
        (TokenData::Nil, TokenData::Nil) => true,
        (TokenData::Or, TokenData::Or) => true,
        (TokenData::Print, TokenData::Print) => true,
        (TokenData::Return, TokenData::Return) => true,
        (TokenData::Super, TokenData::Super) => true,
        (TokenData::This, TokenData::This) => true,
        (TokenData::True, TokenData::True) => true,
        (TokenData::Var, TokenData::Var) => true,
        (TokenData::While, TokenData::While) => true,
        (TokenData::Eof, TokenData::Eof) => true,
        _ => false,
    }
}

} // verus!
