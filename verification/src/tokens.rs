//! The closed set of lexical categories, their literal payloads, and the
//! keyword table that separates keywords from identifiers.

use vstd::prelude::*;

verus! {

/// A token: a tag, plus the literal text for the categories that carry one.
/// Identifier, integer and illegal tokens keep the exact run of input
/// characters they were lexed from; every other token is a pure tag.
#[derive(Debug, PartialEq, Eq, Clone, Hash)]
pub enum Token {
    Illegal(String),
    Eof,
    // identifiers + literals
    Ident(String),
    Int(String),
    // operators
    Assign,
    Plus,
    Minus,
    Bang,
    Asterisk,
    Slash,
    Lt,
    Gt,
    // delimiters
    Comma,
    SemiColon,
    LParen,
    RParen,
    LBrace,
    RBrace,
    // keywords
    Function,
    Let,
    True,
    False,
    If,
    Else,
    Return,
    Eq,
    NotEq,
}

/// The tag of a token, without its payload. Used by the parser's
/// expectations ("the next token must be an identifier") and in error
/// messages, which speak of token kinds rather than token values.
#[derive(Debug, PartialEq, Eq, Clone, Copy, Structural)]
pub enum TokenType {
    Illegal,
    Eof,
    Ident,
    Int,
    Assign,
    Plus,
    Minus,
    Bang,
    Asterisk,
    Slash,
    Lt,
    Gt,
    Comma,
    SemiColon,
    LParen,
    RParen,
    LBrace,
    RBrace,
    Function,
    Let,
    True,
    False,
    If,
    Else,
    Return,
    Eq,
    NotEq,
}

/// Mathematical model of a token: the same tags, with literal payloads as
/// character sequences.
pub enum TokenView {
    Illegal(Seq<char>),
    Eof,
    Ident(Seq<char>),
    Int(Seq<char>),
    Assign,
    Plus,
    Minus,
    Bang,
    Asterisk,
    Slash,
    Lt,
    Gt,
    Comma,
    SemiColon,
    LParen,
    RParen,
    LBrace,
    RBrace,
    Function,
    Let,
    True,
    False,
    If,
    Else,
    Return,
    Eq,
    NotEq,
}

impl View for Token {
    type V = TokenView;

    open spec fn view(&self) -> TokenView {
        match self {
            Token::Illegal(s) => TokenView::Illegal(s@),
            Token::Eof => TokenView::Eof,
            Token::Ident(s) => TokenView::Ident(s@),
            Token::Int(s) => TokenView::Int(s@),
            Token::Assign => TokenView::Assign,
            Token::Plus => TokenView::Plus,
            Token::Minus => TokenView::Minus,
            Token::Bang => TokenView::Bang,
            Token::Asterisk => TokenView::Asterisk,
            Token::Slash => TokenView::Slash,
            Token::Lt => TokenView::Lt,
            Token::Gt => TokenView::Gt,
            Token::Comma => TokenView::Comma,
            Token::SemiColon => TokenView::SemiColon,
            Token::LParen => TokenView::LParen,
            Token::RParen => TokenView::RParen,
            Token::LBrace => TokenView::LBrace,
            Token::RBrace => TokenView::RBrace,
            Token::Function => TokenView::Function,
            Token::Let => TokenView::Let,
            Token::True => TokenView::True,
            Token::False => TokenView::False,
            Token::If => TokenView::If,
            Token::Else => TokenView::Else,
            Token::Return => TokenView::Return,
            Token::Eq => TokenView::Eq,
            Token::NotEq => TokenView::NotEq,
        }
    }
}

/// The tag of a token view.
pub open spec fn spec_token_type(t: TokenView) -> TokenType {
    match t {
        TokenView::Illegal(_) => TokenType::Illegal,
        TokenView::Eof => TokenType::Eof,
        TokenView::Ident(_) => TokenType::Ident,
        TokenView::Int(_) => TokenType::Int,
        TokenView::Assign => TokenType::Assign,
        TokenView::Plus => TokenType::Plus,
        TokenView::Minus => TokenType::Minus,
        TokenView::Bang => TokenType::Bang,
        TokenView::Asterisk => TokenType::Asterisk,
        TokenView::Slash => TokenType::Slash,
        TokenView::Lt => TokenType::Lt,
        TokenView::Gt => TokenType::Gt,
        TokenView::Comma => TokenType::Comma,
        TokenView::SemiColon => TokenType::SemiColon,
        TokenView::LParen => TokenType::LParen,
        TokenView::RParen => TokenType::RParen,
        TokenView::LBrace => TokenType::LBrace,
        TokenView::RBrace => TokenType::RBrace,
        TokenView::Function => TokenType::Function,
        TokenView::Let => TokenType::Let,
        TokenView::True => TokenType::True,
        TokenView::False => TokenType::False,
        TokenView::If => TokenType::If,
        TokenView::Else => TokenType::Else,
        TokenView::Return => TokenType::Return,
        TokenView::Eq => TokenType::Eq,
        TokenView::NotEq => TokenType::NotEq,
    }
}

/// The display name of a token kind: the operator or delimiter itself,
/// the keyword's spelling, a category word for the payload-carrying kinds,
/// and the empty string for end-of-input.
pub open spec fn spec_type_name(t: TokenType) -> Seq<char> {
    match t {
        TokenType::Illegal => "illegal"@,
        TokenType::Eof => ""@,
        TokenType::Ident => "identifier"@,
        TokenType::Int => "integer"@,
        TokenType::Assign => "="@,
        TokenType::Plus => "+"@,
        TokenType::Minus => "-"@,
        TokenType::Bang => "!"@,
        TokenType::Asterisk => "*"@,
        TokenType::Slash => "/"@,
        TokenType::Lt => "<"@,
        TokenType::Gt => ">"@,
        TokenType::Comma => ","@,
        TokenType::SemiColon => ";"@,
        TokenType::LParen => "("@,
        TokenType::RParen => ")"@,
        TokenType::LBrace => "{"@,
        TokenType::RBrace => "}"@,
        TokenType::Function => "fn"@,
        TokenType::Let => "let"@,
        TokenType::True => "true"@,
        TokenType::False => "false"@,
        TokenType::If => "if"@,
        TokenType::Else => "else"@,
        TokenType::Return => "return"@,
        TokenType::Eq => "=="@,
        TokenType::NotEq => "!="@,
    }
}

/// The display name of a token: the name of its kind.
pub open spec fn spec_token_name(t: TokenView) -> Seq<char> {
    spec_type_name(spec_token_type(t))
}

/// The literal text a token stands for: the payload where there is one,
/// the kind's name otherwise.
pub open spec fn spec_token_string(t: TokenView) -> Seq<char> {
    match t {
        TokenView::Illegal(s) => s,
        TokenView::Ident(s) => s,
        TokenView::Int(s) => s,
        _ => spec_token_name(t),
    }
}

/// Keyword lookup: an identifier run of characters resolves to a keyword
/// token exactly when it matches one entry of the fixed keyword table, and
/// to an identifier token otherwise.
pub open spec fn spec_lookup_ident(s: Seq<char>) -> TokenView {
    if s == "fn"@ {
        TokenView::Function
    } else if s == "let"@ {
        TokenView::Let
    } else if s == "true"@ {
        TokenView::True
    } else if s == "false"@ {
        TokenView::False
    } else if s == "if"@ {
        TokenView::If
    } else if s == "else"@ {
        TokenView::Else
    } else if s == "return"@ {
        TokenView::Return
    } else {
        TokenView::Ident(s)
    }
}

impl Token {
    /// Resolve an identifier run against the keyword table.
    pub fn lookup_ident(string: &String) -> (t: Token)
        ensures
            t@ == spec_lookup_ident(string@),
    {
        if *string == String::from_str("fn") {
            Token::Function
        } else if *string == String::from_str("let") {
            Token::Let
        } else if *string == String::from_str("true") {
            Token::True
        } else if *string == String::from_str("false") {
            Token::False
        } else if *string == String::from_str("if") {
            Token::If
        } else if *string == String::from_str("else") {
            Token::Else
        } else if *string == String::from_str("return") {
            Token::Return
        } else {
            Token::Ident(string.clone())
        }
    }

    /// An exact copy of this token, with the guarantee — which a derived
    /// `Clone` would not carry — that the copy equals the original.
    pub fn duplicate(&self) -> (t: Token)
        ensures
            t == *self,
    {
        match self {
            Token::Illegal(s) => Token::Illegal(s.clone()),
            Token::Eof => Token::Eof,
            Token::Ident(s) => Token::Ident(s.clone()),
            Token::Int(s) => Token::Int(s.clone()),
            Token::Assign => Token::Assign,
            Token::Plus => Token::Plus,
            Token::Minus => Token::Minus,
            Token::Bang => Token::Bang,
            Token::Asterisk => Token::Asterisk,
            Token::Slash => Token::Slash,
            Token::Lt => Token::Lt,
            Token::Gt => Token::Gt,
            Token::Comma => Token::Comma,
            Token::SemiColon => Token::SemiColon,
            Token::LParen => Token::LParen,
            Token::RParen => Token::RParen,
            Token::LBrace => Token::LBrace,
            Token::RBrace => Token::RBrace,
            Token::Function => Token::Function,
            Token::Let => Token::Let,
            Token::True => Token::True,
            Token::False => Token::False,
            Token::If => Token::If,
            Token::Else => Token::Else,
            Token::Return => Token::Return,
            Token::Eq => Token::Eq,
            Token::NotEq => Token::NotEq,
        }
    }

    /// The literal text this token stands for.
    pub fn string(&self) -> (r: String)
        ensures
            r@ == spec_token_string(self@),
    {
        match self {
            Token::Illegal(s) => s.clone(),
            Token::Ident(s) => s.clone(),
            Token::Int(s) => s.clone(),
            _ => Self::name(self),
        }
    }

    /// The display name of a token's kind, used in parse error messages.
    pub fn name(token: &Token) -> (r: String)
        ensures
            r@ == spec_token_name(token@),
    {
        token.token_type().name()
    }

    /// The tag of this token.
    pub fn token_type(&self) -> (tt: TokenType)
        ensures
            tt == spec_token_type(self@),
    {
        match self {
            Token::Illegal(_) => TokenType::Illegal,
            Token::Eof => TokenType::Eof,
            Token::Ident(_) => TokenType::Ident,
            Token::Int(_) => TokenType::Int,
            Token::Assign => TokenType::Assign,
            Token::Plus => TokenType::Plus,
            Token::Minus => TokenType::Minus,
            Token::Bang => TokenType::Bang,
            Token::Asterisk => TokenType::Asterisk,
            Token::Slash => TokenType::Slash,
            Token::Lt => TokenType::Lt,
            Token::Gt => TokenType::Gt,
            Token::Comma => TokenType::Comma,
            Token::SemiColon => TokenType::SemiColon,
            Token::LParen => TokenType::LParen,
            Token::RParen => TokenType::RParen,
            Token::LBrace => TokenType::LBrace,
            Token::RBrace => TokenType::RBrace,
            Token::Function => TokenType::Function,
            Token::Let => TokenType::Let,
            Token::True => TokenType::True,
            Token::False => TokenType::False,
            Token::If => TokenType::If,
            Token::Else => TokenType::Else,
            Token::Return => TokenType::Return,
            Token::Eq => TokenType::Eq,
            Token::NotEq => TokenType::NotEq,
        }
    }
}

impl TokenType {
    /// Resolve an identifier run against the keyword table, at the level of
    /// token kinds.
    pub fn lookup_ident(literal: &String) -> (tt: TokenType)
        ensures
            tt == spec_token_type(spec_lookup_ident(literal@)),
    {
        Token::lookup_ident(literal).token_type()
    }

    /// The display name of this token kind.
    pub fn name(&self) -> (r: String)
        ensures
            r@ == spec_type_name(*self),
    {
        match self {
            TokenType::Illegal => String::from_str("illegal"),
            TokenType::Eof => String::from_str(""),
            TokenType::Ident => String::from_str("identifier"),
            TokenType::Int => String::from_str("integer"),
            TokenType::Assign => String::from_str("="),
            TokenType::Plus => String::from_str("+"),
            TokenType::Minus => String::from_str("-"),
            TokenType::Bang => String::from_str("!"),
            TokenType::Asterisk => String::from_str("*"),
            TokenType::Slash => String::from_str("/"),
            TokenType::Lt => String::from_str("<"),
            TokenType::Gt => String::from_str(">"),
            TokenType::Comma => String::from_str(","),
            TokenType::SemiColon => String::from_str(";"),
            TokenType::LParen => String::from_str("("),
            TokenType::RParen => String::from_str(")"),
            TokenType::LBrace => String::from_str("{"),
            TokenType::RBrace => String::from_str("}"),
            TokenType::Function => String::from_str("fn"),
            TokenType::Let => String::from_str("let"),
            TokenType::True => String::from_str("true"),
            TokenType::False => String::from_str("false"),
            TokenType::If => String::from_str("if"),
            TokenType::Else => String::from_str("else"),
            TokenType::Return => String::from_str("return"),
            TokenType::Eq => String::from_str("=="),
            TokenType::NotEq => String::from_str("!="),
        }
    }
}

} // verus!
