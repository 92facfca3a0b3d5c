use vstd::prelude::*;

verus! {

/// A token of the language: keywords, literals, operators and the structural
/// tokens that the layout tokenizer synthesizes from indentation.
///
/// A float literal is carried as the text that the scanner validated
/// (`-?[0-9]*\.[0-9]+`), an integer literal as its 32-bit value.
#[derive(Debug, Clone, PartialEq)]
pub enum Token {
    And,
    Break,
    Def,
    Elif,
    Else,
    For,
    If,
    Not,
    Or,
    Return,
    While,
    Boolean(bool),
    Integer(i32),
    Float(String),
    Identifier(String),
    Assign,
    Add,
    Subtract,
    Multiply,
    Divide,
    Equal,
    NotEqual,
    GT,
    GTE,
    LT,
    LTE,
    ParenOpen,
    ParenClose,
    Comma,
    Colon,
    Newline,
    Indent,
    Dedent,
}

/// The mathematical value of a [`Token`]: text payloads become character sequences.
pub enum SpecToken {
    And,
    Break,
    Def,
    Elif,
    Else,
    For,
    If,
    Not,
    Or,
    Return,
    While,
    Boolean(bool),
    Integer(i32),
    Float(Seq<char>),
    Identifier(Seq<char>),
    Assign,
    Add,
    Subtract,
    Multiply,
    Divide,
    Equal,
    NotEqual,
    GT,
    GTE,
    LT,
    LTE,
    ParenOpen,
    ParenClose,
    Comma,
    Colon,
    Newline,
    Indent,
    Dedent,
}

impl View for Token {
    type V = SpecToken;

    open spec fn view(&self) -> SpecToken {
        match self {
            Token::And => SpecToken::And,
            Token::Break => SpecToken::Break,
            Token::Def => SpecToken::Def,
            Token::Elif => SpecToken::Elif,
            Token::Else => SpecToken::Else,
            Token::For => SpecToken::For,
            Token::If => SpecToken::If,
            Token::Not => SpecToken::Not,
            Token::Or => SpecToken::Or,
            Token::Return => SpecToken::Return,
            Token::While => SpecToken::While,
            Token::Boolean(b) => SpecToken::Boolean(*b),
            Token::Integer(i) => SpecToken::Integer(*i),
            Token::Float(s) => SpecToken::Float(s@),
            Token::Identifier(s) => SpecToken::Identifier(s@),
            Token::Assign => SpecToken::Assign,
            Token::Add => SpecToken::Add,
            Token::Subtract => SpecToken::Subtract,
            Token::Multiply => SpecToken::Multiply,
            Token::Divide => SpecToken::Divide,
            Token::Equal => SpecToken::Equal,
            Token::NotEqual => SpecToken::NotEqual,
            Token::GT => SpecToken::GT,
            Token::GTE => SpecToken::GTE,
            Token::LT => SpecToken::LT,
            Token::LTE => SpecToken::LTE,
            Token::ParenOpen => SpecToken::ParenOpen,
            Token::ParenClose => SpecToken::ParenClose,
            Token::Comma => SpecToken::Comma,
            Token::Colon => SpecToken::Colon,
            Token::Newline => SpecToken::Newline,
            Token::Indent => SpecToken::Indent,
            Token::Dedent => SpecToken::Dedent,
        }
    }
}

/// The views of a sequence of tokens.
pub open spec fn view_tokens(ts: Seq<Token>) -> Seq<SpecToken> {
    ts.map_values(|t: Token| t@)
}

impl Token {
    /// A copy of the token with the same value.
    pub fn duplicate(&self) -> (r: Token)
        ensures
            r@ == self@,
    {
        match self {
            Token::Boolean(b) => Token::Boolean(*b),
            Token::Integer(i) => Token::Integer(*i),
            Token::Float(s) => Token::Float(s.clone()),
            Token::Identifier(s) => Token::Identifier(s.clone()),
            Token::And => Token::And,
            Token::Break => Token::Break,
            Token::Def => Token::Def,
            Token::Elif => Token::Elif,
            Token::Else => Token::Else,
            Token::For => Token::For,
            Token::If => Token::If,
            Token::Not => Token::Not,
            Token::Or => Token::Or,
            Token::Return => Token::Return,
            Token::While => Token::While,
            Token::Assign => Token::Assign,
            Token::Add => Token::Add,
            Token::Subtract => Token::Subtract,
            Token::Multiply => Token::Multiply,
            Token::Divide => Token::Divide,
            Token::Equal => Token::Equal,
            Token::NotEqual => Token::NotEqual,
            Token::GT => Token::GT,
            Token::GTE => Token::GTE,
            Token::LT => Token::LT,
            Token::LTE => Token::LTE,
            Token::ParenOpen => Token::ParenOpen,
            Token::ParenClose => Token::ParenClose,
            Token::Comma => Token::Comma,
            Token::Colon => Token::Colon,
            Token::Newline => Token::Newline,
            Token::Indent => Token::Indent,
            Token::Dedent => Token::Dedent,
        }
    }
}

} // verus!
