//! The recursive-descent parser. Each grammar level reads one token ahead
//! through the cursor and pushes it back when the token instead belongs to a
//! caller:
//!
//! ```text
//! Program            := AdditiveExpr
//! AdditiveExpr       := MultiplicativeExpr ( ('+' | '-') AdditiveExpr )?
//! MultiplicativeExpr := ExponentialExpr ( ('*' | '/') MultiplicativeExpr )?
//! ExponentialExpr    := Primitive ( '^' Primitive )?
//! Primitive          := Number
//!                     | Identifier '(' AdditiveExpr ')'
//!                     | Identifier            (only the variable "x")
//!                     | '(' AdditiveExpr ')'
//! ```
//!
//! The additive and multiplicative levels recurse into themselves, so chains
//! of equal precedence associate to the right: `10 - 5 - 2` groups as
//! `10 - (5 - 2)`. The right operand of `'^'` is a `Primitive`, so `'^'`
//! does not chain. Function names are resolved against the registry at parse
//! time; a bare identifier other than `x` is a semantic error, as is a call
//! of an unregistered name. A parse either fully succeeds, consuming every
//! token, or fails: leftover input of any kind is a syntax error.
//!
//! The behaviour of each level is pinned down by a specification-level
//! outcome function (`additive_outcome` and friends), and the returned tree
//! by a derivation function (`additive_end` and friends) that maps a tree
//! and a start position to the position after the tokens it derives.

use vstd::prelude::*;

use crate::ast::Expression;
use crate::ast::Function;
use crate::ast::Primitive;
use crate::ast::Program;
use crate::lexer::lex_all;
use crate::lexer::lemma_lex_all_stop;
use crate::lexer::lemma_lex_all_unfold;
use crate::lexer::LexStep;
use crate::lexer::Tokenizer;
use crate::token::Token;
use crate::token::TokenV;
use crate::utils::Iter;

verus! {

/// How a parse fails: a malformed numeric literal; an unexpected, missing or
/// leftover token; an unknown identifier or function name.
#[derive(Clone, Copy, Debug, PartialEq, Eq, Structural)]
pub enum ParseError {
    LexError,
    SyntaxError,
    SemanticError,
}

/// The outcome of one grammar level at one position: it matched an
/// expression and stopped at the given position; it matched nothing because
/// the production cannot start here, stopping after whatever empty-group
/// tokens it consumed; or it failed.
pub enum Outcome {
    Matched(int),
    Empty(int),
    Fail(ParseError),
}

/// The token images of a lexed token vector.
pub open spec fn toks_of(elems: Seq<(Token, usize, usize)>) -> Seq<TokenV> {
    elems.map_values(|t: (Token, usize, usize)| t.0@)
}

/// What the `Primitive` level does on `toks` at position `i`, against the
/// registered function names `fns`.
pub open spec fn primitive_outcome(fns: Seq<Seq<char>>, toks: Seq<TokenV>, i: int) -> Outcome
    decreases toks.len() - i, 0int
        when 0 <= i <= toks.len()
{
    if i >= toks.len() {
        Outcome::Empty(i)
    } else {
        match toks[i] {
            TokenV::Identifier(name) => {
                if name == seq!['x'] {
                    Outcome::Matched(i + 1)
                } else if !fns.contains(name) {
                    Outcome::Fail(ParseError::SemanticError)
                } else if i + 1 >= toks.len() {
                    Outcome::Fail(ParseError::SyntaxError)
                } else if !(toks[i + 1] matches TokenV::LParent) {
                    Outcome::Fail(ParseError::SyntaxError)
                } else {
                    match additive_outcome(fns, toks, i + 2) {
                        Outcome::Fail(k) => Outcome::Fail(k),
                        Outcome::Empty(_) => Outcome::Fail(ParseError::SyntaxError),
                        Outcome::Matched(np) => {
                            if np < toks.len() && (toks[np] matches TokenV::RParent) {
                                Outcome::Matched(np + 1)
                            } else {
                                Outcome::Fail(ParseError::SyntaxError)
                            }
                        },
                    }
                }
            },
            TokenV::Number(_) => Outcome::Matched(i + 1),
            TokenV::LParent => {
                match additive_outcome(fns, toks, i + 1) {
                    Outcome::Fail(k) => Outcome::Fail(k),
                    Outcome::Matched(np) => {
                        if np < toks.len() && (toks[np] matches TokenV::RParent) {
                            Outcome::Matched(np + 1)
                        } else {
                            Outcome::Fail(ParseError::SyntaxError)
                        }
                    },
                    Outcome::Empty(np) => {
                        if np < toks.len() && (toks[np] matches TokenV::RParent) {
                            Outcome::Empty(np + 1)
                        } else {
                            Outcome::Fail(ParseError::SyntaxError)
                        }
                    },
                }
            },
            _ => Outcome::Empty(i),
        }
    }
}

/// What the `ExponentialExpr` level does.
pub open spec fn exponential_outcome(fns: Seq<Seq<char>>, toks: Seq<TokenV>, i: int) -> Outcome
    decreases toks.len() - i, 1int
        when 0 <= i <= toks.len()
{
    match primitive_outcome(fns, toks, i) {
        Outcome::Fail(k) => Outcome::Fail(k),
        Outcome::Empty(np) => Outcome::Empty(np),
        Outcome::Matched(np) => {
            if np < toks.len() && (toks[np] matches TokenV::Pow) {
                // A matched level never retreats (`lemma_exponential_bounds`), so
                // the guard only serves the termination measure.
                if i <= np {
                    match primitive_outcome(fns, toks, np + 1) {
                        Outcome::Matched(np2) => Outcome::Matched(np2),
                        Outcome::Empty(_) => Outcome::Fail(ParseError::SyntaxError),
                        Outcome::Fail(k) => Outcome::Fail(k),
                    }
                } else {
                    Outcome::Fail(ParseError::SyntaxError)
                }
            } else {
                Outcome::Matched(np)
            }
        },
    }
}

/// What the `MultiplicativeExpr` level does.
pub open spec fn multiplicative_outcome(fns: Seq<Seq<char>>, toks: Seq<TokenV>, i: int) -> Outcome
    decreases toks.len() - i, 2int
        when 0 <= i <= toks.len()
{
    match exponential_outcome(fns, toks, i) {
        Outcome::Fail(k) => Outcome::Fail(k),
        Outcome::Empty(np) => Outcome::Empty(np),
        Outcome::Matched(np) => {
            if np < toks.len() && (toks[np] matches TokenV::Mult || toks[np] matches TokenV::Div) {
                // The guard only serves the termination measure, as above.
                if i <= np {
                    match multiplicative_outcome(fns, toks, np + 1) {
                        Outcome::Matched(np2) => Outcome::Matched(np2),
                        Outcome::Empty(_) => Outcome::Fail(ParseError::SyntaxError),
                        Outcome::Fail(k) => Outcome::Fail(k),
                    }
                } else {
                    Outcome::Fail(ParseError::SyntaxError)
                }
            } else {
                Outcome::Matched(np)
            }
        },
    }
}

/// What the `AdditiveExpr` level does.
pub open spec fn additive_outcome(fns: Seq<Seq<char>>, toks: Seq<TokenV>, i: int) -> Outcome
    decreases toks.len() - i, 3int
        when 0 <= i <= toks.len()
{
    match multiplicative_outcome(fns, toks, i) {
        Outcome::Fail(k) => Outcome::Fail(k),
        Outcome::Empty(np) => Outcome::Empty(np),
        Outcome::Matched(np) => {
            if np < toks.len() && (toks[np] matches TokenV::Add || toks[np] matches TokenV::Sub) {
                // The guard only serves the termination measure, as above.
                if i <= np {
                    match additive_outcome(fns, toks, np + 1) {
                        Outcome::Matched(np2) => Outcome::Matched(np2),
                        Outcome::Empty(_) => Outcome::Fail(ParseError::SyntaxError),
                        Outcome::Fail(k) => Outcome::Fail(k),
                    }
                } else {
                    Outcome::Fail(ParseError::SyntaxError)
                }
            } else {
                Outcome::Matched(np)
            }
        },
    }
}

/// A level that matches always advances; one that matches nothing never
/// retreats; neither passes the end.
pub proof fn lemma_primitive_bounds(fns: Seq<Seq<char>>, toks: Seq<TokenV>, i: int)
    requires
        0 <= i <= toks.len(),
    ensures
        match primitive_outcome(fns, toks, i) {
            Outcome::Matched(np) => i < np <= toks.len(),
            Outcome::Empty(np) => i <= np <= toks.len(),
            Outcome::Fail(_) => true,
        },
    decreases toks.len() - i, 0int,
{
    if i < toks.len() {
        match toks[i] {
            TokenV::Identifier(name) => {
                if name != seq!['x'] && fns.contains(name) && i + 1 < toks.len() && (toks[i + 1]
                    matches TokenV::LParent) {
                    lemma_additive_bounds(fns, toks, i + 2);
                }
            },
            TokenV::LParent => {
                lemma_additive_bounds(fns, toks, i + 1);
            },
            _ => {},
        }
    }
}

pub proof fn lemma_exponential_bounds(fns: Seq<Seq<char>>, toks: Seq<TokenV>, i: int)
    requires
        0 <= i <= toks.len(),
    ensures
        match exponential_outcome(fns, toks, i) {
            Outcome::Matched(np) => i < np <= toks.len(),
            Outcome::Empty(np) => i <= np <= toks.len(),
            Outcome::Fail(_) => true,
        },
    decreases toks.len() - i, 1int,
{
    lemma_primitive_bounds(fns, toks, i);
    match primitive_outcome(fns, toks, i) {
        Outcome::Matched(np) => {
            if np < toks.len() && (toks[np] matches TokenV::Pow) {
                lemma_primitive_bounds(fns, toks, np + 1);
            }
        },
        _ => {},
    }
}

pub proof fn lemma_multiplicative_bounds(fns: Seq<Seq<char>>, toks: Seq<TokenV>, i: int)
    requires
        0 <= i <= toks.len(),
    ensures
        match multiplicative_outcome(fns, toks, i) {
            Outcome::Matched(np) => i < np <= toks.len(),
            Outcome::Empty(np) => i <= np <= toks.len(),
            Outcome::Fail(_) => true,
        },
    decreases toks.len() - i, 2int,
{
    lemma_exponential_bounds(fns, toks, i);
    match exponential_outcome(fns, toks, i) {
        Outcome::Matched(np) => {
            if np < toks.len() && (toks[np] matches TokenV::Mult || toks[np] matches TokenV::Div) {
                lemma_multiplicative_bounds(fns, toks, np + 1);
            }
        },
        _ => {},
    }
}

pub proof fn lemma_additive_bounds(fns: Seq<Seq<char>>, toks: Seq<TokenV>, i: int)
    requires
        0 <= i <= toks.len(),
    ensures
        match additive_outcome(fns, toks, i) {
            Outcome::Matched(np) => i < np <= toks.len(),
            Outcome::Empty(np) => i <= np <= toks.len(),
            Outcome::Fail(_) => true,
        },
    decreases toks.len() - i, 3int,
{
    lemma_multiplicative_bounds(fns, toks, i);
    match multiplicative_outcome(fns, toks, i) {
        Outcome::Matched(np) => {
            if np < toks.len() && (toks[np] matches TokenV::Add || toks[np] matches TokenV::Sub) {
                lemma_additive_bounds(fns, toks, np + 1);
            }
        },
        _ => {},
    }
}

/// The position after the tokens that `e` derives as a `Primitive`
/// starting at `i`, if it derives any.
pub open spec fn primitive_end(fns: Seq<Seq<char>>, toks: Seq<TokenV>, i: int, e: Expression) -> Option<int>
    decreases e, 0int
{
    match e {
        Expression::Primitive(p) => match p {
            Primitive::Number(text) => {
                if 0 <= i < toks.len() && toks[i] == TokenV::Number(text@) {
                    Option::Some(i + 1)
                } else {
                    Option::None
                }
            },
            Primitive::Identifier(name) => {
                if 0 <= i < toks.len() && name@ == seq!['x'] && toks[i] == TokenV::Identifier(
                    name@,
                ) {
                    Option::Some(i + 1)
                } else {
                    Option::None
                }
            },
            Primitive::Parenthesis(inner) => {
                if 0 <= i < toks.len() && (toks[i] matches TokenV::LParent) {
                    match additive_end(fns, toks, i + 1, *inner) {
                        Option::Some(m) => {
                            if m < toks.len() && (toks[m] matches TokenV::RParent) {
                                Option::Some(m + 1)
                            } else {
                                Option::None
                            }
                        },
                        Option::None => Option::None,
                    }
                } else {
                    Option::None
                }
            },
            Primitive::Function((f, arg)) => {
                if 0 <= i && i + 1 < toks.len() && toks[i] == TokenV::Identifier(f.name@)
                    && f.name@ != seq!['x'] && fns.contains(f.name@) && (toks[i + 1]
                    matches TokenV::LParent) {
                    match additive_end(fns, toks, i + 2, *arg) {
                        Option::Some(m) => {
                            if m < toks.len() && (toks[m] matches TokenV::RParent) {
                                Option::Some(m + 1)
                            } else {
                                Option::None
                            }
                        },
                        Option::None => Option::None,
                    }
                } else {
                    Option::None
                }
            },
        },
        Expression::ExpressionOperation(_) => Option::None,
    }
}

/// The position after the tokens that `e` derives as an `ExponentialExpr`:
/// a `'^'` node whose operands are both `Primitive`, or a `Primitive`
/// passed through.
pub open spec fn exponential_end(fns: Seq<Seq<char>>, toks: Seq<TokenV>, i: int, e: Expression) -> Option<int>
    decreases e, 1int
{
    match e {
        Expression::ExpressionOperation((l, op, r)) => {
            if op == '^' {
                match primitive_end(fns, toks, i, *l) {
                    Option::Some(m) => {
                        if m < toks.len() && (toks[m] matches TokenV::Pow) {
                            primitive_end(fns, toks, m + 1, *r)
                        } else {
                            Option::None
                        }
                    },
                    Option::None => Option::None,
                }
            } else {
                Option::None
            }
        },
        _ => primitive_end(fns, toks, i, e),
    }
}

/// The position after the tokens that `e` derives as a
/// `MultiplicativeExpr`.
pub open spec fn multiplicative_end(fns: Seq<Seq<char>>, toks: Seq<TokenV>, i: int, e: Expression) -> Option<int>
    decreases e, 2int
{
    match e {
        Expression::ExpressionOperation((l, op, r)) => {
            if op == '*' || op == '/' {
                match exponential_end(fns, toks, i, *l) {
                    Option::Some(m) => {
                        if m < toks.len() && toks[m] == (if op == '*' {
                            TokenV::Mult
                        } else {
                            TokenV::Div
                        }) {
                            multiplicative_end(fns, toks, m + 1, *r)
                        } else {
                            Option::None
                        }
                    },
                    Option::None => Option::None,
                }
            } else {
                exponential_end(fns, toks, i, e)
            }
        },
        _ => exponential_end(fns, toks, i, e),
    }
}

/// The position after the tokens that `e` derives as an `AdditiveExpr`.
pub open spec fn additive_end(fns: Seq<Seq<char>>, toks: Seq<TokenV>, i: int, e: Expression) -> Option<int>
    decreases e, 3int
{
    match e {
        Expression::ExpressionOperation((l, op, r)) => {
            if op == '+' || op == '-' {
                match multiplicative_end(fns, toks, i, *l) {
                    Option::Some(m) => {
                        if m < toks.len() && toks[m] == (if op == '+' {
                            TokenV::Add
                        } else {
                            TokenV::Sub
                        }) {
                            additive_end(fns, toks, m + 1, *r)
                        } else {
                            Option::None
                        }
                    },
                    Option::None => Option::None,
                }
            } else {
                multiplicative_end(fns, toks, i, e)
            }
        },
        _ => multiplicative_end(fns, toks, i, e),
    }
}

/// A tree that derives a range at one level derives the same range at every
/// higher level, through the pass-down cases.
pub proof fn lemma_end_up(fns: Seq<Seq<char>>, toks: Seq<TokenV>, i: int, e: Expression)
    ensures
        primitive_end(fns, toks, i, e) is Some ==> exponential_end(fns, toks, i, e)
            == primitive_end(fns, toks, i, e),
        exponential_end(fns, toks, i, e) is Some ==> multiplicative_end(fns, toks, i, e)
            == exponential_end(fns, toks, i, e),
        multiplicative_end(fns, toks, i, e) is Some ==> additive_end(fns, toks, i, e)
            == multiplicative_end(fns, toks, i, e),
{
    match e {
        Expression::ExpressionOperation(t) => {
            assert(primitive_end(fns, toks, i, e) is None);
            if t.1 != '^' {
                assert(exponential_end(fns, toks, i, e) is None);
            }
            if !(t.1 == '*' || t.1 == '/') {
                assert(multiplicative_end(fns, toks, i, e) == exponential_end(fns, toks, i, e));
            }
            if !(t.1 == '+' || t.1 == '-') {
                assert(additive_end(fns, toks, i, e) == multiplicative_end(fns, toks, i, e));
            }
        },
        Expression::Primitive(p) => {
        },
    }
}

/// The parser, holding the registry of function names that calls may use.
/// The registry is fixed at construction, before any parsing.
pub struct Moo {
    pub functions: Vec<Function>,
}

impl Moo {
    /// The registered function names.
    pub open spec fn names(&self) -> Seq<Seq<char>> {
        self.functions@.map_values(|f: Function| f.name@)
    }

    /// Builds the registry: the built-in names `sin`, `cos` and `abs`,
    /// augmented by the caller's extensions.
    pub fn new(add_on: Vec<Function>) -> (r: Moo)
        ensures
            r.names() == seq!["sin"@, "cos"@, "abs"@] + add_on@.map_values(
                |f: Function| f.name@,
            ),
    {
        let mut functions: Vec<Function> = Vec::new();
        functions.push(Function::new("sin"));
        functions.push(Function::new("cos"));
        functions.push(Function::new("abs"));
        let mut rest = add_on;
        functions.append(&mut rest);
        let r = Moo { functions };
        proof {
            assert(r.names() =~= seq!["sin"@, "cos"@, "abs"@] + add_on@.map_values(
                |f: Function| f.name@,
            ));
        }
        r
    }

    /// Looks a name up in the registry, returning a reference node for it.
    fn lookup(&self, name: &String) -> (r: Option<Function>)
        ensures
            match r {
                Some(f) => f.name@ == name@ && self.names().contains(name@),
                None => !self.names().contains(name@),
            },
    {
        let mut k: usize = 0;
        while k < self.functions.len()
            invariant
                k <= self.functions.len(),
                forall|j: int| 0 <= j < k ==> self.names()[j] != name@,
            decreases self.functions.len() - k,
        {
            let fk = &self.functions[k];
            if fk.name.eq(name) {
                let found = Function { name: fk.name.clone() };
                proof {
                    assert(self.names()[k as int] == name@);
                }
                return Some(found);
            }
            k += 1;
        }
        None
    }

    /// Parses one `Primitive`.
    fn ast_primitive(&self, iter: &mut Iter<(Token, usize, usize)>) -> (r: Result<
        Option<Expression>,
        ParseError,
    >)
        requires
            old(iter).wf(),
        ensures
            final(iter).wf(),
            final(iter).elements() == old(iter).elements(),
            ({
                let fns = self.names();
                let toks = toks_of(old(iter).elements());
                let i = old(iter).pos();
                match primitive_outcome(fns, toks, i) {
                    Outcome::Matched(np) => {
                        &&& r matches Ok(Some(e))
                        &&& primitive_end(fns, toks, i, e) == Some(np)
                        &&& final(iter).pos() == np
                    },
                    Outcome::Empty(np) => r matches Ok(None) && final(iter).pos() == np,
                    Outcome::Fail(k) => r == Err::<Option<Expression>, ParseError>(k),
                }
            }),
        decreases old(iter).elements().len() - old(iter).pos(), 0int,
    {
        let ghost fns = self.names();
        let ghost toks = toks_of(old(iter).elements());
        let ghost i = old(iter).pos();
        proof {
            lemma_primitive_bounds(fns, toks, i);
            assert(forall|k: int|
                0 <= k < toks.len() ==> #[trigger] toks[k] == old(iter).elements()[k].0@);
        }
        let tnk = match iter.next() {
            None => {
                return Ok(None);
            },
            Some(t) => t,
        };
        proof {
            assert(toks[i] == tnk.0@);
        }
        match &tnk.0 {
            Token::Identifier(ident) => {
                if ident.as_str().unicode_len() == 1 && ident.as_str().get_char(0) == 'x' {
                    let e = Expression::Primitive(Primitive::Identifier(ident.clone()));
                    proof {
                        assert(ident@ =~= seq!['x']);
                        assert(primitive_end(fns, toks, i, e) == Some(i + 1));
                    }
                    return Ok(Some(e));
                }
                proof {
                    assert(ident@ != seq!['x']) by {
                        if ident@ == seq!['x'] {
                            assert(ident@.len() == 1 && ident@[0] == 'x');
                        }
                    }
                }
                let func = match self.lookup(ident) {
                    None => {
                        return Err(ParseError::SemanticError);
                    },
                    Some(func) => func,
                };
                match iter.next() {
                    None => {
                        return Err(ParseError::SyntaxError);
                    },
                    Some(token) => {
                        match &token.0 {
                            Token::LParent => {},
                            _ => {
                                return Err(ParseError::SyntaxError);
                            },
                        }
                    },
                }
                proof {
                    lemma_additive_bounds(fns, toks, i + 2);
                }
                let w_input = match self.ast_additive_expression(iter) {
                    Err(k) => {
                        return Err(k);
                    },
                    Ok(w) => w,
                };
                match w_input {
                    None => Err(ParseError::SyntaxError),
                    Some(input) => {
                        match iter.next() {
                            Some(token) => {
                                match &token.0 {
                                    Token::RParent => {},
                                    _ => {
                                        return Err(ParseError::SyntaxError);
                                    },
                                }
                            },
                            None => {
                                return Err(ParseError::SyntaxError);
                            },
                        }
                        let ghost np = additive_outcome(fns, toks, i + 2)->Matched_0;
                        let e = Expression::Primitive(
                            Primitive::Function((func, Box::new(input))),
                        );
                        proof {
                            assert(primitive_end(fns, toks, i, e) == Some(np + 1));
                        }
                        Ok(Some(e))
                    },
                }
            },
            Token::Number(num) => {
                let e = Expression::Primitive(Primitive::Number(num.clone()));
                proof {
                    assert(primitive_end(fns, toks, i, e) == Some(i + 1));
                }
                Ok(Some(e))
            },
            Token::LParent => {
                proof {
                    lemma_additive_bounds(fns, toks, i + 1);
                }
                let expr = match self.ast_additive_expression(iter) {
                    Err(k) => {
                        return Err(k);
                    },
                    Ok(w) => w,
                };
                match expr {
                    Some(expr) => {
                        match iter.next() {
                            Some(token) => {
                                match &token.0 {
                                    Token::RParent => {},
                                    _ => {
                                        return Err(ParseError::SyntaxError);
                                    },
                                }
                            },
                            None => {
                                return Err(ParseError::SyntaxError);
                            },
                        }
                        let ghost np = additive_outcome(fns, toks, i + 1)->Matched_0;
                        let e = Expression::Primitive(Primitive::Parenthesis(Box::new(expr)));
                        proof {
                            assert(primitive_end(fns, toks, i, e) == Some(np + 1));
                        }
                        Ok(Some(e))
                    },
                    None => {
                        match iter.next() {
                            Some(token) => {
                                match &token.0 {
                                    Token::RParent => Ok(None),
                                    _ => Err(ParseError::SyntaxError),
                                }
                            },
                            None => Err(ParseError::SyntaxError),
                        }
                    },
                }
            },
            _ => {
                iter.prev();
                Ok(None)
            },
        }
    }

    /// Parses one `ExponentialExpr`: a `Primitive`, optionally to the power
    /// of one more `Primitive`. A second `'^'` is left for the caller, which
    /// rejects it as leftover input.
    fn ast_exponential_expression(&self, iter: &mut Iter<(Token, usize, usize)>) -> (r: Result<
        Option<Expression>,
        ParseError,
    >)
        requires
            old(iter).wf(),
        ensures
            final(iter).wf(),
            final(iter).elements() == old(iter).elements(),
            ({
                let fns = self.names();
                let toks = toks_of(old(iter).elements());
                let i = old(iter).pos();
                match exponential_outcome(fns, toks, i) {
                    Outcome::Matched(np) => {
                        &&& r matches Ok(Some(e))
                        &&& exponential_end(fns, toks, i, e) == Some(np)
                        &&& final(iter).pos() == np
                    },
                    Outcome::Empty(np) => r matches Ok(None) && final(iter).pos() == np,
                    Outcome::Fail(k) => r == Err::<Option<Expression>, ParseError>(k),
                }
            }),
        decreases old(iter).elements().len() - old(iter).pos(), 1int,
    {
        let ghost fns = self.names();
        let ghost toks = toks_of(old(iter).elements());
        let ghost i = old(iter).pos();
        proof {
            lemma_primitive_bounds(fns, toks, i);
            assert(forall|k: int|
                0 <= k < toks.len() ==> #[trigger] toks[k] == old(iter).elements()[k].0@);
        }
        let left = match self.ast_primitive(iter) {
            Err(k) => {
                return Err(k);
            },
            Ok(None) => {
                return Ok(None);
            },
            Ok(Some(l)) => l,
        };
        let ghost np = primitive_outcome(fns, toks, i)->Matched_0;
        proof {
            lemma_end_up(fns, toks, i, left);
            assert(exponential_end(fns, toks, i, left) == Some(np));
        }
        let tnk = match iter.next() {
            None => {
                return Ok(Some(left));
            },
            Some(t) => t,
        };
        match &tnk.0 {
            Token::Pow => {
                proof {
                    lemma_primitive_bounds(fns, toks, np + 1);
                }
                let right = match self.ast_primitive(iter) {
                    Err(k) => {
                        return Err(k);
                    },
                    Ok(None) => {
                        return Err(ParseError::SyntaxError);
                    },
                    Ok(Some(rr)) => rr,
                };
                let ghost np2 = primitive_outcome(fns, toks, np + 1)->Matched_0;
                let e = Expression::ExpressionOperation((Box::new(left), '^', Box::new(right)));
                proof {
                    assert(exponential_end(fns, toks, i, e) == Some(np2));
                }
                Ok(Some(e))
            },
            _ => {
                iter.prev();
                Ok(Some(left))
            },
        }
    }

    /// Parses one `MultiplicativeExpr`: an `ExponentialExpr`, optionally
    /// `'*'` or `'/'` and a further `MultiplicativeExpr`, which makes chains
    /// associate to the right.
    fn ast_multiplicative_expression(&self, iter: &mut Iter<(Token, usize, usize)>) -> (r: Result<
        Option<Expression>,
        ParseError,
    >)
        requires
            old(iter).wf(),
        ensures
            final(iter).wf(),
            final(iter).elements() == old(iter).elements(),
            ({
                let fns = self.names();
                let toks = toks_of(old(iter).elements());
                let i = old(iter).pos();
                match multiplicative_outcome(fns, toks, i) {
                    Outcome::Matched(np) => {
                        &&& r matches Ok(Some(e))
                        &&& multiplicative_end(fns, toks, i, e) == Some(np)
                        &&& final(iter).pos() == np
                    },
                    Outcome::Empty(np) => r matches Ok(None) && final(iter).pos() == np,
                    Outcome::Fail(k) => r == Err::<Option<Expression>, ParseError>(k),
                }
            }),
        decreases old(iter).elements().len() - old(iter).pos(), 2int,
    {
        let ghost fns = self.names();
        let ghost toks = toks_of(old(iter).elements());
        let ghost i = old(iter).pos();
        proof {
            lemma_exponential_bounds(fns, toks, i);
            assert(forall|k: int|
                0 <= k < toks.len() ==> #[trigger] toks[k] == old(iter).elements()[k].0@);
        }
        let left = match self.ast_exponential_expression(iter) {
            Err(k) => {
                return Err(k);
            },
            Ok(None) => {
                return Ok(None);
            },
            Ok(Some(l)) => l,
        };
        let ghost np = exponential_outcome(fns, toks, i)->Matched_0;
        proof {
            lemma_end_up(fns, toks, i, left);
            assert(multiplicative_end(fns, toks, i, left) == Some(np));
        }
        let tnk = match iter.next() {
            None => {
                return Ok(Some(left));
            },
            Some(t) => t,
        };
        match &tnk.0 {
            Token::Mult => {
                proof {
                    lemma_multiplicative_bounds(fns, toks, np + 1);
                }
                let right = match self.ast_multiplicative_expression(iter) {
                    Err(k) => {
                        return Err(k);
                    },
                    Ok(None) => {
                        return Err(ParseError::SyntaxError);
                    },
                    Ok(Some(rr)) => rr,
                };
                let ghost np2 = multiplicative_outcome(fns, toks, np + 1)->Matched_0;
                let e = Expression::ExpressionOperation((Box::new(left), '*', Box::new(right)));
                proof {
                    assert(multiplicative_end(fns, toks, i, e) == Some(np2));
                }
                Ok(Some(e))
            },
            Token::Div => {
                proof {
                    lemma_multiplicative_bounds(fns, toks, np + 1);
                }
                let right = match self.ast_multiplicative_expression(iter) {
                    Err(k) => {
                        return Err(k);
                    },
                    Ok(None) => {
                        return Err(ParseError::SyntaxError);
                    },
                    Ok(Some(rr)) => rr,
                };
                let ghost np2 = multiplicative_outcome(fns, toks, np + 1)->Matched_0;
                let e = Expression::ExpressionOperation((Box::new(left), '/', Box::new(right)));
                proof {
                    assert(multiplicative_end(fns, toks, i, e) == Some(np2));
                }
                Ok(Some(e))
            },
            _ => {
                iter.prev();
                Ok(Some(left))
            },
        }
    }

    /// Parses one `AdditiveExpr`: a `MultiplicativeExpr`, optionally `'+'`
    /// or `'-'` and a further `AdditiveExpr`, which makes chains associate
    /// to the right: `10 - 5 - 2` groups as `10 - (5 - 2)`.
    fn ast_additive_expression(&self, iter: &mut Iter<(Token, usize, usize)>) -> (r: Result<
        Option<Expression>,
        ParseError,
    >)
        requires
            old(iter).wf(),
        ensures
            final(iter).wf(),
            final(iter).elements() == old(iter).elements(),
            ({
                let fns = self.names();
                let toks = toks_of(old(iter).elements());
                let i = old(iter).pos();
                match additive_outcome(fns, toks, i) {
                    Outcome::Matched(np) => {
                        &&& r matches Ok(Some(e))
                        &&& additive_end(fns, toks, i, e) == Some(np)
                        &&& final(iter).pos() == np
                    },
                    Outcome::Empty(np) => r matches Ok(None) && final(iter).pos() == np,
                    Outcome::Fail(k) => r == Err::<Option<Expression>, ParseError>(k),
                }
            }),
        decreases old(iter).elements().len() - old(iter).pos(), 3int,
    {
        let ghost fns = self.names();
        let ghost toks = toks_of(old(iter).elements());
        let ghost i = old(iter).pos();
        proof {
            lemma_multiplicative_bounds(fns, toks, i);
            assert(forall|k: int|
                0 <= k < toks.len() ==> #[trigger] toks[k] == old(iter).elements()[k].0@);
        }
        let left = match self.ast_multiplicative_expression(iter) {
            Err(k) => {
                return Err(k);
            },
            Ok(None) => {
                return Ok(None);
            },
            Ok(Some(l)) => l,
        };
        let ghost np = multiplicative_outcome(fns, toks, i)->Matched_0;
        proof {
            lemma_end_up(fns, toks, i, left);
            assert(additive_end(fns, toks, i, left) == Some(np));
        }
        let tnk = match iter.next() {
            None => {
                return Ok(Some(left));
            },
            Some(t) => t,
        };
        match &tnk.0 {
            Token::Add => {
                proof {
                    lemma_additive_bounds(fns, toks, np + 1);
                }
                let right = match self.ast_additive_expression(iter) {
                    Err(k) => {
                        return Err(k);
                    },
                    Ok(None) => {
                        return Err(ParseError::SyntaxError);
                    },
                    Ok(Some(rr)) => rr,
                };
                let ghost np2 = additive_outcome(fns, toks, np + 1)->Matched_0;
                let e = Expression::ExpressionOperation((Box::new(left), '+', Box::new(right)));
                proof {
                    assert(additive_end(fns, toks, i, e) == Some(np2));
                }
                Ok(Some(e))
            },
            Token::Sub => {
                proof {
                    lemma_additive_bounds(fns, toks, np + 1);
                }
                let right = match self.ast_additive_expression(iter) {
                    Err(k) => {
                        return Err(k);
                    },
                    Ok(None) => {
                        return Err(ParseError::SyntaxError);
                    },
                    Ok(Some(rr)) => rr,
                };
                let ghost np2 = additive_outcome(fns, toks, np + 1)->Matched_0;
                let e = Expression::ExpressionOperation((Box::new(left), '-', Box::new(right)));
                proof {
                    assert(additive_end(fns, toks, i, e) == Some(np2));
                }
                Ok(Some(e))
            },
            _ => {
                iter.prev();
                Ok(Some(left))
            },
        }
    }

    /// Parses a whole program: one `AdditiveExpr`.
    fn ast_program(&self, iter: &mut Iter<(Token, usize, usize)>) -> (r: Result<
        Option<Program>,
        ParseError,
    >)
        requires
            old(iter).wf(),
        ensures
            final(iter).wf(),
            final(iter).elements() == old(iter).elements(),
            ({
                let fns = self.names();
                let toks = toks_of(old(iter).elements());
                let i = old(iter).pos();
                match additive_outcome(fns, toks, i) {
                    Outcome::Matched(np) => {
                        &&& r matches Ok(Some(p))
                        &&& additive_end(fns, toks, i, p.body) == Some(np)
                        &&& final(iter).pos() == np
                    },
                    Outcome::Empty(np) => r matches Ok(None) && final(iter).pos() == np,
                    Outcome::Fail(k) => r == Err::<Option<Program>, ParseError>(k),
                }
            }),
    {
        match self.ast_additive_expression(iter) {
            Err(k) => Err(k),
            Ok(None) => Ok(None),
            Ok(Some(body)) => Ok(Some(Program { body })),
        }
    }

    /// Parses source text: lexes it, then builds the tree. A malformed
    /// numeric literal is the lexical error; leftover input of any kind — a
    /// character no lexing rule matches, or tokens after a complete program
    /// — is a syntax error; a program that is only an empty group, or
    /// nothing at all, parses to `Ok(None)`.
    pub fn parse(&self, source: &str) -> (r: Result<Option<Program>, ParseError>)
        ensures
            ({
                let s = source@;
                let trace = lex_all(s, 0);
                let toks = trace.0.map_values(|t: (TokenV, int, int)| t.0);
                &&& (trace.1 matches LexStep::Fail { .. } ==> r == Err::<
                    Option<Program>,
                    ParseError,
                >(ParseError::LexError))
                &&& (trace.1 matches LexStep::Halt { .. } ==> r == Err::<
                    Option<Program>,
                    ParseError,
                >(ParseError::SyntaxError))
                &&& (trace.1 matches LexStep::End { .. } ==> match additive_outcome(
                    self.names(),
                    toks,
                    0,
                ) {
                    Outcome::Matched(np) => {
                        if np == toks.len() {
                            r matches Ok(Some(p)) && additive_end(self.names(), toks, 0, p.body)
                                == Some(np)
                        } else {
                            r == Err::<Option<Program>, ParseError>(ParseError::SyntaxError)
                        }
                    },
                    Outcome::Empty(np) => {
                        if np == toks.len() {
                            r matches Ok(None)
                        } else {
                            r == Err::<Option<Program>, ParseError>(ParseError::SyntaxError)
                        }
                    },
                    Outcome::Fail(k) => r == Err::<Option<Program>, ParseError>(k),
                })
            }),
    {
        let ghost s = source@;
        let mut tokenizer = Tokenizer::new(source);
        let mut tokens: Vec<(Token, usize, usize)> = Vec::new();
        proof {
            lemma_lex_all_stop(s, 0);
            assert(lex_all(s, 0).0 =~= spans_of(tokens@) + lex_all(s, 0).0);
        }
        loop
            invariant
                tokenizer.wf(),
                tokenizer.src() == s,
                s == source@,
                lex_all(s, 0).0 == spans_of(tokens@) + lex_all(s, tokenizer.at()).0,
                lex_all(s, 0).1 == lex_all(s, tokenizer.at()).1,
            decreases s.len() - tokenizer.at(),
        {
            let ghost at0 = tokenizer.at();
            proof {
                lemma_lex_all_unfold(s, at0);
            }
            match tokenizer.next() {
                Err(_) => {
                    return Err(ParseError::LexError);
                },
                Ok(None) => {
                    if !tokenizer.at_end() {
                        return Err(ParseError::SyntaxError);
                    }
                    proof {
                        assert(lex_all(s, 0).0 =~= spans_of(tokens@));
                        assert(toks_of(tokens@) =~= lex_all(s, 0).0.map_values(
                            |t: (TokenV, int, int)| t.0,
                        ));
                        lemma_additive_bounds(self.names(), toks_of(tokens@), 0);
                    }
                    let mut it = Iter::new(&tokens);
                    let body = match self.ast_program(&mut it) {
                        Err(k) => {
                            return Err(k);
                        },
                        Ok(b) => b,
                    };
                    let np = it.cur();
                    if np < tokens.len() {
                        return Err(ParseError::SyntaxError);
                    }
                    match body {
                        Some(p) => {
                            return Ok(Some(p));
                        },
                        None => {
                            return Ok(None);
                        },
                    }
                },
                Ok(Some(t)) => {
                    proof {
                        assert(spans_of(tokens@.push(t)) =~= spans_of(tokens@) + seq![
                            (t.0@, t.1 as int, t.2 as int),
                        ]);
                    }
                    tokens.push(t);
                },
            }
        }
    }
}

/// The span images of a lexed token vector.
pub open spec fn spans_of(elems: Seq<(Token, usize, usize)>) -> Seq<(TokenV, int, int)> {
    elems.map_values(|t: (Token, usize, usize)| (t.0@, t.1 as int, t.2 as int))
}

} // verus!
