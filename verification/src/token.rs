//! Tokens produced by the lexer. A token's text is carried as it will be
//! consumed: an identifier keeps its characters, a numeric literal keeps its
//! digits (and decimal point) with the `'_'` separators already stripped.

use vstd::prelude::*;

verus! {

/// The mathematical image of a token: the same variants, with text as
/// character sequences.
pub enum TokenV {
    Identifier(Seq<char>),
    Number(Seq<char>),
    Add,
    Sub,
    Mult,
    Div,
    Pow,
    LParent,
    RParent,
    Comma,
}

#[derive(Debug)]
pub enum Token {
    Identifier(String),
    Number(String),
    Add,
    Sub,
    Mult,
    Div,
    Pow,
    LParent,
    RParent,
    Comma,
}

impl View for Token {
    type V = TokenV;

    open spec fn view(&self) -> TokenV {
        match self {
            Token::Identifier(s) => TokenV::Identifier(s@),
            Token::Number(s) => TokenV::Number(s@),
            Token::Add => TokenV::Add,
            Token::Sub => TokenV::Sub,
            Token::Mult => TokenV::Mult,
            Token::Div => TokenV::Div,
            Token::Pow => TokenV::Pow,
            Token::LParent => TokenV::LParent,
            Token::RParent => TokenV::RParent,
            Token::Comma => TokenV::Comma,
        }
    }
}

impl Token {
    /// The kind of token, as text: the five operators all answer
    /// `"Operator"`, and both parentheses answer `"Parenthesis"`.
    pub open spec fn typ_spec(&self) -> Seq<char> {
        match self {
            Token::Identifier(_) => "Identifier"@,
            Token::Number(_) => "Number"@,
            Token::Add => "Operator"@,
            Token::Sub => "Operator"@,
            Token::Mult => "Operator"@,
            Token::Div => "Operator"@,
            Token::Pow => "Operator"@,
            Token::LParent => "Parenthesis"@,
            Token::RParent => "Parenthesis"@,
            Token::Comma => "Comma"@,
        }
    }

    pub fn typ(&self) -> (r: &'static str)
        ensures
            r@ == self.typ_spec(),
    {
        match self {
            Token::Identifier(_) => "Identifier",
            Token::Number(_) => "Number",
            Token::Add | Token::Sub | Token::Mult | Token::Div | Token::Pow => "Operator",
            Token::LParent | Token::RParent => "Parenthesis",
            Token::Comma => "Comma",
        }
    }
}

} // verus!
