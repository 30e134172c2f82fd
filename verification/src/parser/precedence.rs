//! The binding powers of Monkey's operators.

use vstd::prelude::*;
use crate::token::{Token, TokenModel};

verus! {

/// The precedences of Monkey's operators, from the weakest to the strongest.
#[derive(Debug, Clone, Copy, PartialEq, Eq, PartialOrd)]
pub enum Precdence {
    /// The lowest precedence: that of a token that is no operator.
    Lowest,
    /// `==` and `!=`
    Equals,
    /// `<` and `>`
    LessGreater,
    /// `+` and `-`
    Sum,
    /// `*` and `/`
    Product,
    /// Prefix operators: `-x`, `!x`
    Prefix,
    /// Function calls: `f(x)`
    Call,
    /// Index access: `a[i]`
    Index,
}

/// A precedence's place in the order: a stronger one has a larger rank.
pub open spec fn rank(precedence: Precdence) -> int {
    match precedence {
        Precdence::Lowest => 0,
        Precdence::Equals => 1,
        Precdence::LessGreater => 2,
        Precdence::Sum => 3,
        Precdence::Product => 4,
        Precdence::Prefix => 5,
        Precdence::Call => 6,
        Precdence::Index => 7,
    }
}

/// The precedence with which a token binds the expression on its left.
pub open spec fn precedence_of(token: TokenModel) -> Precdence {
    match token {
        TokenModel::Eq | TokenModel::NotEq => Precdence::Equals,
        TokenModel::Lt | TokenModel::Gt => Precdence::LessGreater,
        TokenModel::Plus | TokenModel::Minus => Precdence::Sum,
        TokenModel::Slash | TokenModel::Asterisk => Precdence::Product,
        TokenModel::LParen => Precdence::Call,
        TokenModel::LBracket => Precdence::Index,
        _ => Precdence::Lowest,
    }
}

impl Precdence {
    /// The precedence's rank, for comparing two precedences.
    pub fn level(&self) -> (level: u8)
        ensures
            level == rank(*self),
    {
        match self {
            Precdence::Lowest => 0,
            Precdence::Equals => 1,
            Precdence::LessGreater => 2,
            Precdence::Sum => 3,
            Precdence::Product => 4,
            Precdence::Prefix => 5,
            Precdence::Call => 6,
            Precdence::Index => 7,
        }
    }

    /// Whether `self` binds less tightly than `other`.
    pub fn weaker_than(&self, other: &Precdence) -> (weaker: bool)
        ensures
            weaker == (rank(*self) < rank(*other)),
    {
        self.level() < other.level()
    }
}

/// The precedence with which `token` binds the expression on its left.
pub fn token_precedence(token: &Token) -> (precedence: Precdence)
    ensures
        precedence == precedence_of(token@),
{
    match token {
        Token::Eq | Token::NotEq => Precdence::Equals,
        Token::Lt | Token::Gt => Precdence::LessGreater,
        Token::Plus | Token::Minus => Precdence::Sum,
        Token::Slash | Token::Asterisk => Precdence::Product,
        Token::LParen => Precdence::Call,
        Token::LBracket => Precdence::Index,
        _ => Precdence::Lowest,
    }
}

} // verus!
