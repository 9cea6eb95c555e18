//! Tokens and literals.
use crate::env::value_option;
use crate::lox_value::LoxValue;
use crate::machine::literal_value;
use vstd::prelude::*;
use vstd::string::StringExecFns;

verus! {

/// The kind of a token.
#[derive(Copy, Clone, Debug, PartialEq, Eq, Structural)]
pub enum TokenType {
    // Single-character tokens
    LeftParen,
    RightParen,
    LeftBrace,
    RightBrace,
    Comma,
    Dot,
    Minus,
    Plus,
    Semicolon,
    Slash,
    Star,
    // One or two character tokens
    Bang,
    BangEqual,
    Equal,
    EqualEqual,
    Greater,
    GreaterEqual,
    Less,
    LessEqual,
    // Literals
    Identifier,
    Str,
    Number,
    // Keywords
    And,
    Class,
    Else,
    False,
    Fun,
    For,
    If,
    Nil,
    Or,
    Print,
    Return,
    Super,
    This,
    True,
    Var,
    While,
    Eof,
}

/// The payload of a literal token. A number is kept as its decimal text:
/// the library does no arithmetic on doubles, and the host turns the text
/// into a double when the literal is evaluated.
#[derive(Clone, Debug, PartialEq)]
pub enum Literal {
    Number(String),
    Str(String),
    Bool(bool),
    Nil,
}

/// The mathematical content of [`Literal`].
pub enum LiteralModel {
    Number(Seq<char>),
    Str(Seq<char>),
    Bool(bool),
    Nil,
}

impl View for Literal {
    type V = LiteralModel;

    open spec fn view(&self) -> LiteralModel {
        match self {
            Literal::Number(s) => LiteralModel::Number(s@),
            Literal::Str(s) => LiteralModel::Str(s@),
            Literal::Bool(b) => LiteralModel::Bool(*b),
            Literal::Nil => LiteralModel::Nil,
        }
    }
}

impl Literal {
    /// The runtime value that the literal denotes, where the library knows
    /// it: a number literal has none here, because the host computes the
    /// double from the text.
    pub fn value(&self) -> (r: Option<LoxValue>)
        ensures
            value_option(r) == literal_value(self@),
    {
        match self {
            Literal::Number(_) => None,
            Literal::Str(s) => Some(LoxValue::Str(s.clone())),
            Literal::Bool(b) => Some(LoxValue::Bool(*b)),
            Literal::Nil => Some(LoxValue::Nil),
        }
    }

    /// The text of the literal as the source has it, without the quotes of
    /// a string.
    pub fn to_string(&self) -> (s: String)
        ensures
            s@ == (match self@ {
                LiteralModel::Number(n) => n,
                LiteralModel::Str(t) => t,
                LiteralModel::Bool(b) => if b {
                    "true"@
                } else {
                    "false"@
                },
                LiteralModel::Nil => "nil"@,
            }),
    {
        match self {
            Literal::Number(n) => n.clone(),
            Literal::Str(t) => t.clone(),
            Literal::Bool(b) => if *b {
                String::from_str("true")
            } else {
                String::from_str("false")
            },
            Literal::Nil => String::from_str("nil"),
        }
    }

    /// A copy of this literal.
    pub fn duplicate(&self) -> (r: Literal)
        ensures
            r@ == self@,
    {
        match self {
            Literal::Number(s) => Literal::Number(s.clone()),
            Literal::Str(s) => Literal::Str(s.clone()),
            Literal::Bool(b) => Literal::Bool(*b),
            Literal::Nil => Literal::Nil,
        }
    }
}

/// A token: its kind, the text it was scanned from, the literal it carries
/// if it is one, and the line it stands on.
#[derive(Clone, Debug, PartialEq)]
pub struct Token {
    pub token_type: TokenType,
    pub lexeme: String,
    pub lit: Option<Literal>,
    pub line: usize,
}

/// The mathematical content of [`Token`].
pub struct TokenModel {
    pub token_type: TokenType,
    pub lexeme: Seq<char>,
    pub lit: Option<LiteralModel>,
    pub line: usize,
}

/// The view of an optional literal.
pub open spec fn literal_option_model(lit: Option<Literal>) -> Option<LiteralModel> {
    match lit {
        Some(l) => Some(l@),
        None => None,
    }
}

impl View for Token {
    type V = TokenModel;

    open spec fn view(&self) -> TokenModel {
        TokenModel {
            token_type: self.token_type,
            lexeme: self.lexeme@,
            lit: literal_option_model(self.lit),
            line: self.line,
        }
    }
}

/// The views of a list of tokens.
pub open spec fn tokens_model(tokens: Seq<Token>) -> Seq<TokenModel> {
    Seq::new(tokens.len(), |i: int| tokens[i]@)
}

impl Token {
    /// A copy of this token.
    pub fn duplicate(&self) -> (r: Token)
        ensures
            r@ == self@,
    {
        let lit = match &self.lit {
            Some(l) => Some(l.duplicate()),
            None => None,
        };
        Token { token_type: self.token_type, lexeme: self.lexeme.clone(), lit, line: self.line }
    }
}

/// A copy of a list of tokens.
pub fn duplicate_tokens(tokens: &Vec<Token>) -> (r: Vec<Token>)
    ensures
        tokens_model(r@) == tokens_model(tokens@),
{
    let mut out: Vec<Token> = Vec::new();
    let mut i: usize = 0;
    while i < tokens.len()
        invariant
            0 <= i <= tokens.len(),
            out@.len() == i,
            forall|j: int| 0 <= j < i ==> out@[j]@ == tokens@[j]@,
        decreases tokens.len() - i,
    {
        out.push(tokens[i].duplicate());
        i += 1;
    }
    assert(tokens_model(out@) =~= tokens_model(tokens@));
    out
}

} // verus!
