//! The lexical categories of the language and what the parser reads off each
//! of them: a discriminant, an operator text and a binding precedence.

use crate::parser::Precedence;
use vstd::prelude::*;

pub mod token_name;
pub mod token_value;

verus! {

#[derive(PartialEq, Debug, Eq, Hash)]
pub enum Token {
    Illegal,
    Eof,
    Identifier { literal: String },
    Int { literal: String },
    Assign,
    Plus,
    Minus,
    Comma,
    Semicolon,
    LeftParenthesis,
    RightParenthesis,
    LeftBracket,
    RightBracket,
    Return,
    Function,
    Let,
    False,
    True,
    Slash,
    Asterisk,
    Bang,
    If,
    Else,
    LessThan,
    GreaterThan,
    Equal,
    NotEqual,
}

/// A token as a mathematical value: the text of an identifier or an integer
/// is a sequence of characters.
pub enum TokenView {
    Illegal,
    Eof,
    Identifier { literal: Seq<char> },
    Int { literal: Seq<char> },
    Assign,
    Plus,
    Minus,
    Comma,
    Semicolon,
    LeftParenthesis,
    RightParenthesis,
    LeftBracket,
    RightBracket,
    Return,
    Function,
    Let,
    False,
    True,
    Slash,
    Asterisk,
    Bang,
    If,
    Else,
    LessThan,
    GreaterThan,
    Equal,
    NotEqual,
}

impl View for Token {
    type V = TokenView;

    open spec fn view(&self) -> TokenView {
        match self {
            Token::Illegal => TokenView::Illegal,
            Token::Eof => TokenView::Eof,
            Token::Identifier { literal } => TokenView::Identifier { literal: literal@ },
            Token::Int { literal } => TokenView::Int { literal: literal@ },
            Token::Assign => TokenView::Assign,
            Token::Plus => TokenView::Plus,
            Token::Minus => TokenView::Minus,
            Token::Comma => TokenView::Comma,
            Token::Semicolon => TokenView::Semicolon,
            Token::LeftParenthesis => TokenView::LeftParenthesis,
            Token::RightParenthesis => TokenView::RightParenthesis,
            Token::LeftBracket => TokenView::LeftBracket,
            Token::RightBracket => TokenView::RightBracket,
            Token::Return => TokenView::Return,
            Token::Function => TokenView::Function,
            Token::Let => TokenView::Let,
            Token::False => TokenView::False,
            Token::True => TokenView::True,
            Token::Slash => TokenView::Slash,
            Token::Asterisk => TokenView::Asterisk,
            Token::Bang => TokenView::Bang,
            Token::If => TokenView::If,
            Token::Else => TokenView::Else,
            Token::LessThan => TokenView::LessThan,
            Token::GreaterThan => TokenView::GreaterThan,
            Token::Equal => TokenView::Equal,
            Token::NotEqual => TokenView::NotEqual,
        }
    }
}

impl TokenView {
    /// The discriminant under which the parser's rules for this token are
    /// filed. Both boolean literals share one; a token that can neither
    /// start nor continue an expression has `ILLEGAL`.
    pub open spec fn value(self) -> i8 {
        match self {
            TokenView::Identifier { .. } => token_value::IDENTIFIER,
            TokenView::Int { .. } => token_value::INT,
            TokenView::Plus => token_value::PLUS,
            TokenView::Minus => token_value::MINUS,
            TokenView::Asterisk => token_value::ASTERISK,
            TokenView::Slash => token_value::SLASH,
            TokenView::Bang => token_value::BANG,
            TokenView::Equal => token_value::EQUAL,
            TokenView::NotEqual => token_value::NOT_EQUAL,
            TokenView::LessThan => token_value::LESS_THAN,
            TokenView::GreaterThan => token_value::GREATER_THAN,
            TokenView::True | TokenView::False => token_value::BOOL,
            TokenView::LeftParenthesis => token_value::LEFT_PARENTHESIS,
            TokenView::If => token_value::IF,
            TokenView::Function => token_value::FUNCTION,
            _ => token_value::ILLEGAL,
        }
    }

    /// The text of an operator token, as it is written in the source.
    pub open spec fn literal(self) -> Option<Seq<char>> {
        match self {
            TokenView::Bang => Some("!"@),
            TokenView::Minus => Some("-"@),
            TokenView::Plus => Some("+"@),
            TokenView::Asterisk => Some("*"@),
            TokenView::Slash => Some("/"@),
            TokenView::LessThan => Some("<"@),
            TokenView::GreaterThan => Some(">"@),
            TokenView::Assign => Some("="@),
            TokenView::Equal => Some("=="@),
            TokenView::NotEqual => Some("!="@),
            _ => None,
        }
    }

    /// How tightly a token binds when it stands between two operands. `*`
    /// and `/` bind at the level of the prefix operators, above `+` and `-`.
    pub open spec fn precedence(self) -> Option<Precedence> {
        match self {
            TokenView::Equal | TokenView::NotEqual => Some(Precedence::Equals),
            TokenView::LessThan | TokenView::GreaterThan => Some(Precedence::LessGreater),
            TokenView::Plus | TokenView::Minus => Some(Precedence::Sum),
            TokenView::Slash | TokenView::Asterisk => Some(Precedence::Prefix),
            _ => None,
        }
    }
}

/// How a token is written out for a reader: the rendering that the standard
/// library derives for debugging.
pub uninterp spec fn token_debug(token: TokenView) -> Seq<char>;

/// `format!` with `{:?}` on a token. Trusted: the text depends on the value
/// of the token alone; it is named and not defined here.
#[verifier::external_body]
pub(crate) fn debug_token(token: &Token) -> (text: String)
    ensures
        text@ == token_debug(token@),
{
    format!("{:?}", token)
}

impl Clone for Token {
    fn clone(&self) -> (r: Token)
        ensures
            r == *self,
    {
        match self {
            Token::Illegal => Token::Illegal,
            Token::Eof => Token::Eof,
            Token::Identifier { literal } => Token::Identifier { literal: literal.clone() },
            Token::Int { literal } => Token::Int { literal: literal.clone() },
            Token::Assign => Token::Assign,
            Token::Plus => Token::Plus,
            Token::Minus => Token::Minus,
            Token::Comma => Token::Comma,
            Token::Semicolon => Token::Semicolon,
            Token::LeftParenthesis => Token::LeftParenthesis,
            Token::RightParenthesis => Token::RightParenthesis,
            Token::LeftBracket => Token::LeftBracket,
            Token::RightBracket => Token::RightBracket,
            Token::Return => Token::Return,
            Token::Function => Token::Function,
            Token::Let => Token::Let,
            Token::False => Token::False,
            Token::True => Token::True,
            Token::Slash => Token::Slash,
            Token::Asterisk => Token::Asterisk,
            Token::Bang => Token::Bang,
            Token::If => Token::If,
            Token::Else => Token::Else,
            Token::LessThan => Token::LessThan,
            Token::GreaterThan => Token::GreaterThan,
            Token::Equal => Token::Equal,
            Token::NotEqual => Token::NotEqual,
        }
    }
}

impl Token {
    pub fn value(&mut self) -> (r: i8)
        ensures
            *final(self) == *old(self),
            r == old(self)@.value(),
    {
        match self {
            Token::Identifier { .. } => token_value::IDENTIFIER,
            Token::Int { .. } => token_value::INT,
            Token::Plus => token_value::PLUS,
            Token::Minus => token_value::MINUS,
            Token::Asterisk => token_value::ASTERISK,
            Token::Slash => token_value::SLASH,
            Token::Bang => token_value::BANG,
            Token::Equal => token_value::EQUAL,
            Token::NotEqual => token_value::NOT_EQUAL,
            Token::LessThan => token_value::LESS_THAN,
            Token::GreaterThan => token_value::GREATER_THAN,
            Token::True | Token::False => token_value::BOOL,
            Token::LeftParenthesis => token_value::LEFT_PARENTHESIS,
            Token::If => token_value::IF,
            Token::Function => token_value::FUNCTION,
            _ => token_value::ILLEGAL,
        }
    }

    pub fn literal(&mut self) -> (r: Option<String>)
        ensures
            *final(self) == *old(self),
            r is Some == old(self)@.literal() is Some,
            r is Some ==> Some(r->0@) == old(self)@.literal(),
    {
        match self {
            Token::Bang => Some("!".to_owned()),
            Token::Minus => Some("-".to_owned()),
            Token::Plus => Some("+".to_owned()),
            Token::Asterisk => Some("*".to_owned()),
            Token::Slash => Some("/".to_owned()),
            Token::LessThan => Some("<".to_owned()),
            Token::GreaterThan => Some(">".to_owned()),
            Token::Assign => Some("=".to_owned()),
            Token::Equal => Some("==".to_owned()),
            Token::NotEqual => Some("!=".to_owned()),
            _ => None,
        }
    }

    pub fn precedence(&mut self) -> (r: Option<Precedence>)
        ensures
            *final(self) == *old(self),
            r == old(self)@.precedence(),
    {
        match self {
            Token::Equal | Token::NotEqual => Some(Precedence::Equals),
            Token::LessThan | Token::GreaterThan => Some(Precedence::LessGreater),
            Token::Plus | Token::Minus => Some(Precedence::Sum),
            Token::Slash | Token::Asterisk => Some(Precedence::Prefix),
            _ => None,
        }
    }
}

} // verus!
