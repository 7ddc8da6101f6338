//! The expression tree built by the parser. Every operator node and call
//! node owns fully-formed children; the tree is immutable once built and may
//! be walked any number of times.

use vstd::prelude::*;

verus! {

/// A function reference stored in a call node. The name was resolved against
/// the registry when the call was parsed; the callable the name designates
/// lives with the embedding application, which looks it up by this name.
pub struct Function {
    pub name: String,
}

impl Function {
    pub fn new(name: &str) -> (r: Function)
        ensures
            r.name@ == name@,
    {
        Function { name: name.to_owned() }
    }
}

/// A parsed program: exactly one root expression.
pub struct Program {
    pub body: Expression,
}

/// A strict binary tree: an atom, or one operator with two children. The
/// operator is one of `'+'`, `'-'`, `'*'`, `'/'`, `'^'`.
pub enum Expression {
    Primitive(Primitive),
    ExpressionOperation((Box<Expression>, char, Box<Expression>)),
}

/// The atoms: a call of a registered function, a bare variable, a
/// parenthesized group (kept in the tree), or a numeric literal, its text
/// held with separators stripped.
pub enum Primitive {
    Function((Function, Box<Expression>)),
    Identifier(String),
    Parenthesis(Box<Expression>),
    Number(String),
}

impl Primitive {
    /// The kind of atom, as text.
    pub open spec fn typ_spec(&self) -> Seq<char> {
        match self {
            Primitive::Function(_) => "Function"@,
            Primitive::Parenthesis(_) => "Parenthesis"@,
            Primitive::Identifier(_) => "Identifier"@,
            Primitive::Number(_) => "Number"@,
        }
    }

    pub fn typ(&self) -> (r: &'static str)
        ensures
            r@ == self.typ_spec(),
    {
        match self {
            Primitive::Function(_) => "Function",
            Primitive::Parenthesis(_) => "Parenthesis",
            Primitive::Identifier(_) => "Identifier",
            Primitive::Number(_) => "Number",
        }
    }
}

} // verus!
