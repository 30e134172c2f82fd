//! The tokens of Monkey source text.

use vstd::prelude::*;
use crate::text::{push_signed_decimal, same_text, signed_decimal};

verus! {

/// A lexical unit of Monkey source text.
#[derive(Debug, PartialEq, Eq)]
pub enum Token {
    /// A character that starts no token.
    Illegal,
    /// The end of the input.
    Eof,
    /// A name: `add`, `foobar`, `x`.
    Ident(String),
    /// An integer literal.
    Int(i64),
    /// A string literal, without its quotes.
    String(String),
    /// `=`
    Assign,
    /// `+`
    Plus,
    /// `-`
    Minus,
    /// `!`
    Bang,
    /// `*`
    Asterisk,
    /// `/`
    Slash,
    /// `<`
    Lt,
    /// `>`
    Gt,
    /// `==`
    Eq,
    /// `!=`
    NotEq,
    /// `,`
    Comma,
    /// `;`
    Semicolon,
    /// `:`
    Colon,
    /// `(`
    LParen,
    /// `)`
    RParen,
    /// `{`
    LBrace,
    /// `}`
    RBrace,
    /// `[`
    LBracket,
    /// `]`
    RBracket,
    /// `fn`
    Function,
    /// `let`
    Let,
    /// `true`
    True,
    /// `false`
    False,
    /// `if`
    If,
    /// `else`
    Else,
    /// `return`
    Return,
}

/// The mathematical value of a [`Token`]: names and strings are sequences of
/// characters, and an integer literal is an unbounded integer.
pub ghost enum TokenModel {
    Illegal,
    Eof,
    Ident(Seq<char>),
    Int(int),
    String(Seq<char>),
    Assign,
    Plus,
    Minus,
    Bang,
    Asterisk,
    Slash,
    Lt,
    Gt,
    Eq,
    NotEq,
    Comma,
    Semicolon,
    Colon,
    LParen,
    RParen,
    LBrace,
    RBrace,
    LBracket,
    RBracket,
    Function,
    Let,
    True,
    False,
    If,
    Else,
    Return,
}

impl View for Token {
    type V = TokenModel;

    open spec fn view(&self) -> TokenModel {
        match self {
            Token::Illegal => TokenModel::Illegal,
            Token::Eof => TokenModel::Eof,
            Token::Ident(name) => TokenModel::Ident(name@),
            Token::Int(value) => TokenModel::Int(*value as int),
            Token::String(value) => TokenModel::String(value@),
            Token::Assign => TokenModel::Assign,
            Token::Plus => TokenModel::Plus,
            Token::Minus => TokenModel::Minus,
            Token::Bang => TokenModel::Bang,
            Token::Asterisk => TokenModel::Asterisk,
            Token::Slash => TokenModel::Slash,
            Token::Lt => TokenModel::Lt,
            Token::Gt => TokenModel::Gt,
            Token::Eq => TokenModel::Eq,
            Token::NotEq => TokenModel::NotEq,
            Token::Comma => TokenModel::Comma,
            Token::Semicolon => TokenModel::Semicolon,
            Token::Colon => TokenModel::Colon,
            Token::LParen => TokenModel::LParen,
            Token::RParen => TokenModel::RParen,
            Token::LBrace => TokenModel::LBrace,
            Token::RBrace => TokenModel::RBrace,
            Token::LBracket => TokenModel::LBracket,
            Token::RBracket => TokenModel::RBracket,
            Token::Function => TokenModel::Function,
            Token::Let => TokenModel::Let,
            Token::True => TokenModel::True,
            Token::False => TokenModel::False,
            Token::If => TokenModel::If,
            Token::Else => TokenModel::Else,
            Token::Return => TokenModel::Return,
        }
    }
}

/// The text that a token is displayed as: a name, a number or a string by its
/// content, an operator or a delimiter by its characters, a keyword by its
/// name in capitals.
pub open spec fn token_text(t: TokenModel) -> Seq<char> {
    match t {
        TokenModel::Illegal => "ILLEGAL"@,
        TokenModel::Eof => "EOF"@,
        TokenModel::Ident(name) => name,
        TokenModel::Int(value) => signed_decimal(value),
        TokenModel::String(value) => value,
        TokenModel::Assign => "="@,
        TokenModel::Plus => "+"@,
        TokenModel::Minus => "-"@,
        TokenModel::Bang => "!"@,
        TokenModel::Asterisk => "*"@,
        TokenModel::Slash => "/"@,
        TokenModel::Lt => "<"@,
        TokenModel::Gt => ">"@,
        TokenModel::Eq => "=="@,
        TokenModel::NotEq => "!="@,
        TokenModel::Comma => ","@,
        TokenModel::Semicolon => ";"@,
        TokenModel::Colon => ":"@,
        TokenModel::LParen => "("@,
        TokenModel::RParen => ")"@,
        TokenModel::LBrace => "{"@,
        TokenModel::RBrace => "}"@,
        TokenModel::LBracket => "["@,
        TokenModel::RBracket => "]"@,
        TokenModel::Function => "FUNCTION"@,
        TokenModel::Let => "LET"@,
        TokenModel::True => "TRUE"@,
        TokenModel::False => "FALSE"@,
        TokenModel::If => "IF"@,
        TokenModel::Else => "ELSE"@,
        TokenModel::Return => "RETURN"@,
    }
}

/// The token that a scanned name stands for: its keyword, or else an
/// identifier of that name.
pub open spec fn keyword_or_ident(name: Seq<char>) -> TokenModel {
    if name == "fn"@ {
        TokenModel::Function
    } else if name == "let"@ {
        TokenModel::Let
    } else if name == "true"@ {
        TokenModel::True
    } else if name == "false"@ {
        TokenModel::False
    } else if name == "if"@ {
        TokenModel::If
    } else if name == "else"@ {
        TokenModel::Else
    } else if name == "return"@ {
        TokenModel::Return
    } else {
        TokenModel::Ident(name)
    }
}

impl Clone for Token {
    fn clone(&self) -> (copy: Self)
        ensures
            copy@ == self@,
    {
        match self {
            Token::Illegal => Token::Illegal,
            Token::Eof => Token::Eof,
            Token::Ident(name) => Token::Ident(name.clone()),
            Token::Int(value) => Token::Int(*value),
            Token::String(value) => Token::String(value.clone()),
            Token::Assign => Token::Assign,
            Token::Plus => Token::Plus,
            Token::Minus => Token::Minus,
            Token::Bang => Token::Bang,
            Token::Asterisk => Token::Asterisk,
            Token::Slash => Token::Slash,
            Token::Lt => Token::Lt,
            Token::Gt => Token::Gt,
            Token::Eq => Token::Eq,
            Token::NotEq => Token::NotEq,
            Token::Comma => Token::Comma,
            Token::Semicolon => Token::Semicolon,
            Token::Colon => Token::Colon,
            Token::LParen => Token::LParen,
            Token::RParen => Token::RParen,
            Token::LBrace => Token::LBrace,
            Token::RBrace => Token::RBrace,
            Token::LBracket => Token::LBracket,
            Token::RBracket => Token::RBracket,
            Token::Function => Token::Function,
            Token::Let => Token::Let,
            Token::True => Token::True,
            Token::False => Token::False,
            Token::If => Token::If,
            Token::Else => Token::Else,
            Token::Return => Token::Return,
        }
    }
}

impl Token {
    /// Whether `self` and `other` are the same token, contents included.
    pub fn same(&self, other: &Token) -> (r: bool)
        ensures
            r == (self@ == other@),
    {
        match (self, other) {
            (Token::Illegal, Token::Illegal) => true,
            (Token::Eof, Token::Eof) => true,
            (Token::Ident(a), Token::Ident(b)) => *a == *b,
            (Token::Int(a), Token::Int(b)) => *a == *b,
            (Token::String(a), Token::String(b)) => *a == *b,
            (Token::Assign, Token::Assign) => true,
            (Token::Plus, Token::Plus) => true,
            (Token::Minus, Token::Minus) => true,
            (Token::Bang, Token::Bang) => true,
            (Token::Asterisk, Token::Asterisk) => true,
            (Token::Slash, Token::Slash) => true,
            (Token::Lt, Token::Lt) => true,
            (Token::Gt, Token::Gt) => true,
            (Token::Eq, Token::Eq) => true,
            (Token::NotEq, Token::NotEq) => true,
            (Token::Comma, Token::Comma) => true,
            (Token::Semicolon, Token::Semicolon) => true,
            (Token::Colon, Token::Colon) => true,
            (Token::LParen, Token::LParen) => true,
            (Token::RParen, Token::RParen) => true,
            (Token::LBrace, Token::LBrace) => true,
            (Token::RBrace, Token::RBrace) => true,
            (Token::LBracket, Token::LBracket) => true,
            (Token::RBracket, Token::RBracket) => true,
            (Token::Function, Token::Function) => true,
            (Token::Let, Token::Let) => true,
            (Token::True, Token::True) => true,
            (Token::False, Token::False) => true,
            (Token::If, Token::If) => true,
            (Token::Else, Token::Else) => true,
            (Token::Return, Token::Return) => true,
            _ => false,
        }
    }

    /// Appends the token's display text to `out`.
    pub fn write_to(&self, out: &mut String)
        ensures
            final(out)@ == old(out)@ + token_text(self@),
    {
        match self {
            Token::Illegal => out.append("ILLEGAL"),
            Token::Eof => out.append("EOF"),
            Token::Ident(name) => out.append(name.as_str()),
            Token::Int(value) => push_signed_decimal(out, *value),
            Token::String(value) => out.append(value.as_str()),
            Token::Assign => out.append("="),
            Token::Plus => out.append("+"),
            Token::Minus => out.append("-"),
            Token::Bang => out.append("!"),
            Token::Asterisk => out.append("*"),
            Token::Slash => out.append("/"),
            Token::Lt => out.append("<"),
            Token::Gt => out.append(">"),
            Token::Eq => out.append("=="),
            Token::NotEq => out.append("!="),
            Token::Comma => out.append(","),
            Token::Semicolon => out.append(";"),
            Token::Colon => out.append(":"),
            Token::LParen => out.append("("),
            Token::RParen => out.append(")"),
            Token::LBrace => out.append("{"),
            Token::RBrace => out.append("}"),
            Token::LBracket => out.append("["),
            Token::RBracket => out.append("]"),
            Token::Function => out.append("FUNCTION"),
            Token::Let => out.append("LET"),
            Token::True => out.append("TRUE"),
            Token::False => out.append("FALSE"),
            Token::If => out.append("IF"),
            Token::Else => out.append("ELSE"),
            Token::Return => out.append("RETURN"),
        }
    }

    /// The token's display text.
    pub fn to_string(&self) -> (s: String)
        ensures
            s@ == token_text(self@),
    {
        let mut s = String::new();
        self.write_to(&mut s);
        assert(s@ =~= token_text(self@));
        s
    }
}

/// Maps a scanned name to its keyword token, or to an identifier.
pub fn lookup_ident(ident: &str) -> (t: Token)
    ensures
        t@ == keyword_or_ident(ident@),
{
    if same_text(ident, "fn") {
        Token::Function
    } else if same_text(ident, "let") {
        Token::Let
    } else if same_text(ident, "true") {
        Token::True
    } else if same_text(ident, "false") {
        Token::False
    } else if same_text(ident, "if") {
        Token::If
    } else if same_text(ident, "else") {
        Token::Else
    } else if same_text(ident, "return") {
        Token::Return
    } else {
        Token::Ident(String::from_str(ident))
    }
}

} // verus!
