use vstd::prelude::*;

verus! {

/// The lexical category of a token.
#[derive(Debug, Clone, Copy, PartialEq, Eq, Structural)]
pub enum TokenType {
    Operator,
    Number,
    String,
    Symbol,
    Space,
    Debugger,
    ArgSeparator,
    LeftParen,
    RightParen,
    /// Reserved: no recognizer produces it yet.
    Reference,
    InvalidReference,
    Unknown,
}

/// The stable wire code of each kind, as written by the byte encoder.
pub open spec fn kind_code(k: TokenType) -> u8 {
    match k {
        TokenType::Operator => 1,
        TokenType::Number => 2,
        TokenType::String => 3,
        TokenType::Symbol => 4,
        TokenType::Space => 5,
        TokenType::Debugger => 6,
        TokenType::ArgSeparator => 7,
        TokenType::LeftParen => 8,
        TokenType::RightParen => 9,
        TokenType::Reference => 10,
        TokenType::InvalidReference => 11,
        TokenType::Unknown => 12,
    }
}

impl TokenType {
    /// The stable wire code of this kind.
    pub fn code(&self) -> (r: u8)
        ensures
            r == kind_code(*self),
    {
        match self {
            TokenType::Operator => 1,
            TokenType::Number => 2,
            TokenType::String => 3,
            TokenType::Symbol => 4,
            TokenType::Space => 5,
            TokenType::Debugger => 6,
            TokenType::ArgSeparator => 7,
            TokenType::LeftParen => 8,
            TokenType::RightParen => 9,
            TokenType::Reference => 10,
            TokenType::InvalidReference => 11,
            TokenType::Unknown => 12,
        }
    }
}

/// A classified piece of a formula.
#[derive(Debug, Clone)]
pub struct Token {
    pub token_type: TokenType,
    pub value: String,
}

/// What a token stands for: its kind and its text.
pub type TokenView = (TokenType, Seq<char>);

impl View for Token {
    type V = TokenView;

    open spec fn view(&self) -> TokenView {
        (self.token_type, self.value@)
    }
}

/// The views of a sequence of tokens.
pub open spec fn views(ts: Seq<Token>) -> Seq<TokenView> {
    ts.map_values(|t: Token| t@)
}

} // verus!
