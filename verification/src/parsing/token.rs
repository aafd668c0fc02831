//! The lexical units of the language.
use vstd::prelude::*;

use crate::common::types::{LiteralValue, Operator, SpecLiteral, TypeName};

verus! {

/// A lexical unit. `LCurly` and `RCurly` are reserved: the lexer never
/// produces them.
#[derive(Debug, PartialEq)]
pub enum Token {
    Identifier(String),
    Literal(LiteralValue),
    Type(TypeName),
    Operator(Operator),
    Semicolon,
    LParen,
    RParen,
    LCurly,
    RCurly,
    Colon,
    Assign,
    Print,
    Read,
    Var,
    Assert,
    For,
    In,
    Do,
    End,
    Range,
    EndOfFile,
}

/// The mathematical content of a [`Token`].
pub enum SpecToken {
    Identifier(Seq<char>),
    Literal(SpecLiteral),
    Type(TypeName),
    Operator(Operator),
    Semicolon,
    LParen,
    RParen,
    LCurly,
    RCurly,
    Colon,
    Assign,
    Print,
    Read,
    Var,
    Assert,
    For,
    In,
    Do,
    End,
    Range,
    EndOfFile,
}

impl View for Token {
    type V = SpecToken;

    open spec fn view(&self) -> SpecToken {
        match self {
            Token::Identifier(name) => SpecToken::Identifier(name@),
            Token::Literal(literal) => SpecToken::Literal(literal@),
            Token::Type(ty) => SpecToken::Type(*ty),
            Token::Operator(operator) => SpecToken::Operator(*operator),
            Token::Semicolon => SpecToken::Semicolon,
            Token::LParen => SpecToken::LParen,
            Token::RParen => SpecToken::RParen,
            Token::LCurly => SpecToken::LCurly,
            Token::RCurly => SpecToken::RCurly,
            Token::Colon => SpecToken::Colon,
            Token::Assign => SpecToken::Assign,
            Token::Print => SpecToken::Print,
            Token::Read => SpecToken::Read,
            Token::Var => SpecToken::Var,
            Token::Assert => SpecToken::Assert,
            Token::For => SpecToken::For,
            Token::In => SpecToken::In,
            Token::Do => SpecToken::Do,
            Token::End => SpecToken::End,
            Token::Range => SpecToken::Range,
            Token::EndOfFile => SpecToken::EndOfFile,
        }
    }
}

impl Clone for Token {
    fn clone(&self) -> (copy: Self)
        ensures
            copy == *self,
    {
        match self {
            Token::Identifier(name) => Token::Identifier(name.clone()),
            Token::Literal(literal) => Token::Literal(literal.clone()),
            Token::Type(ty) => Token::Type(*ty),
            Token::Operator(operator) => Token::Operator(*operator),
            Token::Semicolon => Token::Semicolon,
            Token::LParen => Token::LParen,
            Token::RParen => Token::RParen,
            Token::LCurly => Token::LCurly,
            Token::RCurly => Token::RCurly,
            Token::Colon => Token::Colon,
            Token::Assign => Token::Assign,
            Token::Print => Token::Print,
            Token::Read => Token::Read,
            Token::Var => Token::Var,
            Token::Assert => Token::Assert,
            Token::For => Token::For,
            Token::In => Token::In,
            Token::Do => Token::Do,
            Token::End => Token::End,
            Token::Range => Token::Range,
            Token::EndOfFile => Token::EndOfFile,
        }
    }
}

/// A token and the offset of its first character.
#[derive(Debug, PartialEq)]
pub struct TokenWithCtx {
    pub offset: usize,
    pub token: Token,
}

/// The mathematical content of a [`TokenWithCtx`].
pub struct SpecTokenWithCtx {
    pub offset: usize,
    pub token: SpecToken,
}

impl View for TokenWithCtx {
    type V = SpecTokenWithCtx;

    open spec fn view(&self) -> SpecTokenWithCtx {
        SpecTokenWithCtx { offset: self.offset, token: self.token@ }
    }
}

impl Clone for TokenWithCtx {
    fn clone(&self) -> (copy: Self)
        ensures
            copy == *self,
    {
        TokenWithCtx { offset: self.offset, token: self.token.clone() }
    }
}

/// A token without what it carries.
#[derive(Debug, PartialEq, Eq, Copy, Clone, Structural)]
pub enum TokenKind {
    IdentifierK,
    LiteralK,
    TypeK,
    OperatorK,
    SemicolonK,
    LParenK,
    RParenK,
    LCurlyK,
    RCurlyK,
    ColonK,
    AssignK,
    PrintK,
    ReadK,
    VarK,
    AssertK,
    ForK,
    InK,
    DoK,
    EndK,
    RangeK,
    EndOfFileK,
}

impl SpecToken {
    /// The kind of a token.
    pub open spec fn kind(self) -> TokenKind {
        match self {
            SpecToken::Identifier(_) => TokenKind::IdentifierK,
            SpecToken::Literal(_) => TokenKind::LiteralK,
            SpecToken::Type(_) => TokenKind::TypeK,
            SpecToken::Operator(_) => TokenKind::OperatorK,
            SpecToken::Semicolon => TokenKind::SemicolonK,
            SpecToken::LParen => TokenKind::LParenK,
            SpecToken::RParen => TokenKind::RParenK,
            SpecToken::LCurly => TokenKind::LCurlyK,
            SpecToken::RCurly => TokenKind::RCurlyK,
            SpecToken::Colon => TokenKind::ColonK,
            SpecToken::Assign => TokenKind::AssignK,
            SpecToken::Print => TokenKind::PrintK,
            SpecToken::Read => TokenKind::ReadK,
            SpecToken::Var => TokenKind::VarK,
            SpecToken::Assert => TokenKind::AssertK,
            SpecToken::For => TokenKind::ForK,
            SpecToken::In => TokenKind::InK,
            SpecToken::Do => TokenKind::DoK,
            SpecToken::End => TokenKind::EndK,
            SpecToken::Range => TokenKind::RangeK,
            SpecToken::EndOfFile => TokenKind::EndOfFileK,
        }
    }
}

impl TokenKind {
    /// The name of a kind as diagnostics show it.
    pub open spec fn name(self) -> Seq<char> {
        match self {
            TokenKind::IdentifierK => "IdentifierK"@,
            TokenKind::LiteralK => "LiteralK"@,
            TokenKind::TypeK => "TypeK"@,
            TokenKind::OperatorK => "OperatorK"@,
            TokenKind::SemicolonK => "SemicolonK"@,
            TokenKind::LParenK => "LParenK"@,
            TokenKind::RParenK => "RParenK"@,
            TokenKind::LCurlyK => "LCurlyK"@,
            TokenKind::RCurlyK => "RCurlyK"@,
            TokenKind::ColonK => "ColonK"@,
            TokenKind::AssignK => "AssignK"@,
            TokenKind::PrintK => "PrintK"@,
            TokenKind::ReadK => "ReadK"@,
            TokenKind::VarK => "VarK"@,
            TokenKind::AssertK => "AssertK"@,
            TokenKind::ForK => "ForK"@,
            TokenKind::InK => "InK"@,
            TokenKind::DoK => "DoK"@,
            TokenKind::EndK => "EndK"@,
            TokenKind::RangeK => "RangeK"@,
            TokenKind::EndOfFileK => "EndOfFileK"@,
        }
    }

    /// The name of this kind as diagnostics show it.
    pub fn get_name(self) -> (name: &'static str)
        ensures
            name@ == self.name(),
    {
        match self {
            TokenKind::IdentifierK => "IdentifierK",
            TokenKind::LiteralK => "LiteralK",
            TokenKind::TypeK => "TypeK",
            TokenKind::OperatorK => "OperatorK",
            TokenKind::SemicolonK => "SemicolonK",
            TokenKind::LParenK => "LParenK",
            TokenKind::RParenK => "RParenK",
            TokenKind::LCurlyK => "LCurlyK",
            TokenKind::RCurlyK => "RCurlyK",
            TokenKind::ColonK => "ColonK",
            TokenKind::AssignK => "AssignK",
            TokenKind::PrintK => "PrintK",
            TokenKind::ReadK => "ReadK",
            TokenKind::VarK => "VarK",
            TokenKind::AssertK => "AssertK",
            TokenKind::ForK => "ForK",
            TokenKind::InK => "InK",
            TokenKind::DoK => "DoK",
            TokenKind::EndK => "EndK",
            TokenKind::RangeK => "RangeK",
            TokenKind::EndOfFileK => "EndOfFileK",
        }
    }
}

impl Token {
    pub fn get_kind(&self) -> (kind: TokenKind)
        ensures
            kind == self@.kind(),
    {
        match *self {
            Token::Identifier(_) => TokenKind::IdentifierK,
            Token::Literal(_) => TokenKind::LiteralK,
            Token::Type(_) => TokenKind::TypeK,
            Token::Operator(_) => TokenKind::OperatorK,
            Token::Semicolon => TokenKind::SemicolonK,
            Token::Colon => TokenKind::ColonK,
            Token::LParen => TokenKind::LParenK,
            Token::RParen => TokenKind::RParenK,
            Token::LCurly => TokenKind::LCurlyK,
            Token::RCurly => TokenKind::RCurlyK,
            Token::Assign => TokenKind::AssignK,
            Token::Print => TokenKind::PrintK,
            Token::Read => TokenKind::ReadK,
            Token::Var => TokenKind::VarK,
            Token::Assert => TokenKind::AssertK,
            Token::For => TokenKind::ForK,
            Token::In => TokenKind::InK,
            Token::Do => TokenKind::DoK,
            Token::End => TokenKind::EndK,
            Token::Range => TokenKind::RangeK,
            Token::EndOfFile => TokenKind::EndOfFileK,
        }
    }

    pub fn kind_equals(&self, other: TokenKind) -> (same: bool)
        ensures
            same == (self@.kind() == other),
    {
        self.get_kind() == other
    }

    pub fn kinds_equal(&self, other: &Token) -> (same: bool)
        ensures
            same == (self@.kind() == other@.kind()),
    {
        self.kind_equals(other.get_kind())
    }

    /// Whether two tokens are of one kind and carry the same content.
    pub fn same_as(&self, other: &Token) -> (same: bool)
        ensures
            same == (self@ == other@),
    {
        match (self, other) {
            (Token::Identifier(a), Token::Identifier(b)) => *a == *b,
            (Token::Literal(a), Token::Literal(b)) => match (a, b) {
                (LiteralValue::StringLiteral(x), LiteralValue::StringLiteral(y)) => *x == *y,
                (LiteralValue::IntLiteral(x), LiteralValue::IntLiteral(y)) => *x == *y,
                _ => false,
            },
            (Token::Type(a), Token::Type(b)) => *a == *b,
            (Token::Operator(a), Token::Operator(b)) => *a == *b,
            _ => self.get_kind() == other.get_kind() && !self.carries_content(),
        }
    }

    fn carries_content(&self) -> (carries: bool)
        ensures
            carries == (self@ is Identifier || self@ is Literal || self@ is Type
                || self@ is Operator),
    {
        match self {
            Token::Identifier(_) | Token::Literal(_) | Token::Type(_) | Token::Operator(_) => true,
            _ => false,
        }
    }
}

} // verus!
