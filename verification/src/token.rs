//! The token model: token categories, literal payloads and the token record.

use vstd::prelude::*;

verus! {

/// The closed set of token categories.
#[derive(Debug, Clone, Copy, PartialEq, Eq, Structural)]
pub enum TokenType {
    // Single-character tokens.
    LeftParen,
    RightParen,
    LeftBrace,
    RightBrace,
    Comma,
    Dot,
    Minus,
    Plus,
    Semicolon,
    Slash,
    Star,
    // One or two character tokens.
    Bang,
    BangEqual,
    Equal,
    EqualEqual,
    Greater,
    GreaterEqual,
    Less,
    LessEqual,
    // Literals.
    Identifier,
    String,
    Number,
    // Keywords.
    And,
    Class,
    Else,
    False,
    Fn,
    For,
    If,
    Nil,
    Or,
    Print,
    Return,
    Super,
    This,
    True,
    Var,
    While,
    // End of input.
    Eof,
}

/// The payload that a token carries.
///
/// Every number literal, with or without a fractional part, is a `FloatVal`.
/// It holds the numeral's decimal text (digits, optionally a point and more
/// digits): turning that text into a binary floating-point value is left to
/// the caller. Tokens without a literal value carry `IntVal(0)`.
#[derive(Debug, PartialEq)]
pub enum Object {
    IntVal(i64),
    FloatVal(String),
    StringVal(String),
    IdentifierVal(String),
}

/// The mathematical value of an [`Object`]: strings are sequences of characters.
pub enum ObjectView {
    IntVal(i64),
    FloatVal(Seq<char>),
    StringVal(Seq<char>),
    IdentifierVal(Seq<char>),
}

impl View for Object {
    type V = ObjectView;

    open spec fn view(&self) -> ObjectView {
        match *self {
            Object::IntVal(v) => ObjectView::IntVal(v),
            Object::FloatVal(s) => ObjectView::FloatVal(s@),
            Object::StringVal(s) => ObjectView::StringVal(s@),
            Object::IdentifierVal(s) => ObjectView::IdentifierVal(s@),
        }
    }
}

impl Clone for Object {
    fn clone(&self) -> (copy: Self)
        ensures
            copy == *self,
    {
        match self {
            Object::IntVal(v) => Object::IntVal(*v),
            Object::FloatVal(s) => Object::FloatVal(s.clone()),
            Object::StringVal(s) => Object::StringVal(s.clone()),
            Object::IdentifierVal(s) => Object::IdentifierVal(s.clone()),
        }
    }
}

/// The payload of every token that has no literal value.
pub open spec fn no_literal() -> ObjectView {
    ObjectView::IntVal(0)
}

/// One classified unit of source text.
#[derive(Debug, PartialEq)]
pub struct Token {
    pub token_type: TokenType,
    /// The exact source text of the token.
    pub lexeme: String,
    pub literal: Object,
    /// The one-based source line of the token's first character.
    pub line: usize,
}

/// The mathematical value of a [`Token`].
pub struct TokenView {
    pub token_type: TokenType,
    pub lexeme: Seq<char>,
    pub literal: ObjectView,
    pub line: nat,
}

impl View for Token {
    type V = TokenView;

    open spec fn view(&self) -> TokenView {
        TokenView {
            token_type: self.token_type,
            lexeme: self.lexeme@,
            literal: self.literal@,
            line: self.line as nat,
        }
    }
}

impl Clone for Token {
    fn clone(&self) -> (copy: Self)
        ensures
            copy == *self,
    {
        Token {
            token_type: self.token_type,
            lexeme: self.lexeme.clone(),
            literal: self.literal.clone(),
            line: self.line,
        }
    }
}

/// The values of a sequence of tokens, in order.
pub open spec fn token_views(tokens: Seq<Token>) -> Seq<TokenView> {
    tokens.map_values(|t: Token| t@)
}

/// A copy of `tokens`, token by token.
pub fn clone_tokens(tokens: &Vec<Token>) -> (copy: Vec<Token>)
    ensures
        copy@ == tokens@,
{
    let mut copy: Vec<Token> = Vec::new();
    let mut i: usize = 0;
    while i < tokens.len()
        invariant
            i <= tokens.len(),
            copy@ == tokens@.subrange(0, i as int),
        decreases tokens.len() - i,
    {
        copy.push(tokens[i].clone());
        i += 1;
    }
    copy
}

} // verus!
