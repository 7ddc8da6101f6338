//! The lexer: source text to positioned tokens.
//!
//! At each position, after greedily skipping whitespace, the rules apply in a
//! fixed priority order: numeric literal, identifier, single-character
//! operator or punctuation. A position where none applies stops lexing; the
//! parser is the one to report such leftover input. Only a malformed numeric
//! literal is a lexical error.
//!
//! A numeric literal is an integer part — `0` exactly, or a nonzero-leading
//! run of digits and `'_'` separators — optionally followed by `'.'` and a
//! run of digits and separators. A second `'.'` immediately after that run is
//! the lexical error. The token's text keeps the decimal point but has the
//! separators stripped; spans count characters, and every character of the
//! literal, separators and point included, is part of its span.

use vstd::prelude::*;

use crate::chars::alphabetic_char;
use crate::chars::alphanumeric_char;
use crate::chars::digit_char;
use crate::chars::digit_or_sep_char;
use crate::chars::is_alnum_char;
use crate::chars::is_alpha_char;
use crate::chars::is_digit_char;
use crate::chars::is_digit_or_sep;
use crate::chars::is_whitespace_char;
use crate::chars::whitespace_char;
use crate::token::Token;
use crate::token::TokenV;

verus! {

/// The end of the run of characters satisfying `p` that starts at `i`.
pub open spec fn run_end(s: Seq<char>, i: int, p: spec_fn(char) -> bool) -> int
    decreases s.len() - i when 0 <= i <= s.len()
{
    if i < s.len() && p(s[i]) {
        run_end(s, i + 1, p)
    } else {
        i
    }
}

pub proof fn lemma_run_end_bounds(s: Seq<char>, i: int, p: spec_fn(char) -> bool)
    requires
        0 <= i <= s.len(),
    ensures
        i <= run_end(s, i, p) <= s.len(),
        forall|j: int| i <= j < run_end(s, i, p) ==> p(s[j]),
        run_end(s, i, p) < s.len() ==> !p(s[run_end(s, i, p)]),
    decreases s.len() - i,
{
    if i < s.len() && p(s[i]) {
        lemma_run_end_bounds(s, i + 1, p);
    }
}

/// A run ends exactly at the first position whose character fails `p`.
pub proof fn lemma_run_end_unique(s: Seq<char>, i: int, j: int, p: spec_fn(char) -> bool)
    requires
        0 <= i <= j <= s.len(),
        forall|k: int| i <= k < j ==> p(s[k]),
        j < s.len() ==> !p(s[j]),
    ensures
        run_end(s, i, p) == j,
    decreases j - i,
{
    if i < j {
        lemma_run_end_unique(s, i + 1, j, p);
    }
}

/// The whitespace class, as a predicate value.
pub open spec fn ws_p() -> spec_fn(char) -> bool {
    |c: char| is_whitespace_char(c)
}

/// The class of identifier continuation characters.
pub open spec fn ident_cont_p() -> spec_fn(char) -> bool {
    |c: char| is_alnum_char(c) || c == '_'
}

/// The class of digits and separators.
pub open spec fn digit_or_sep_p() -> spec_fn(char) -> bool {
    |c: char| is_digit_or_sep(c)
}

/// Where the whitespace run starting at `i` ends.
pub open spec fn ws_end(s: Seq<char>, i: int) -> int {
    run_end(s, i, ws_p())
}

/// Where the identifier starting at `i` ends (given its first character matches).
pub open spec fn ident_end(s: Seq<char>, i: int) -> int {
    run_end(s, i + 1, ident_cont_p())
}

/// Where the integer part starting at `i` ends: one character for `'0'`,
/// otherwise the run of digits and separators.
pub open spec fn int_end(s: Seq<char>, i: int) -> int {
    if s[i] == '0' {
        i + 1
    } else {
        run_end(s, i, digit_or_sep_p())
    }
}

/// Whether the literal starting at `i` continues with a fractional part.
pub open spec fn num_has_dot(s: Seq<char>, i: int) -> bool {
    int_end(s, i) < s.len() && s[int_end(s, i)] == '.'
}

/// Where the numeric literal starting at `i` ends.
pub open spec fn num_end(s: Seq<char>, i: int) -> int {
    if num_has_dot(s, i) {
        run_end(s, int_end(s, i) + 1, digit_or_sep_p())
    } else {
        int_end(s, i)
    }
}

/// Whether the literal starting at `i` is malformed: a second `'.'` directly
/// after the fractional run.
pub open spec fn num_fails(s: Seq<char>, i: int) -> bool {
    num_has_dot(s, i) && num_end(s, i) < s.len() && s[num_end(s, i)] == '.'
}

/// `s` with every `'_'` separator removed.
pub open spec fn strip_seps(s: Seq<char>) -> Seq<char>
    decreases s.len(),
{
    if s.len() == 0 {
        Seq::empty()
    } else if s.last() == '_' {
        strip_seps(s.drop_last())
    } else {
        strip_seps(s.drop_last()) + seq![s.last()]
    }
}

/// The text of the numeric literal starting at `i`: its span with the
/// separators stripped.
pub open spec fn num_text(s: Seq<char>, i: int) -> Seq<char> {
    strip_seps(s.subrange(i, num_end(s, i)))
}

/// What one call of the lexer does at position `i`: emit a token with its
/// span and the next position, reach the end of the input, halt on a
/// character no rule matches, or fail on a malformed numeric literal.
pub enum LexStep {
    Emit { t: TokenV, lo: int, hi: int },
    End { at: int },
    Halt { at: int },
    Fail { at: int },
}

pub open spec fn lex_step(s: Seq<char>, i: int) -> LexStep {
    let j = ws_end(s, i);
    if j == s.len() {
        LexStep::End { at: j }
    } else if is_digit_char(s[j]) {
        if num_fails(s, j) {
            LexStep::Fail { at: j }
        } else {
            LexStep::Emit { t: TokenV::Number(num_text(s, j)), lo: j, hi: num_end(s, j) }
        }
    } else if is_alpha_char(s[j]) || s[j] == '_' {
        LexStep::Emit { t: TokenV::Identifier(s.subrange(j, ident_end(s, j))), lo: j, hi: ident_end(s, j) }
    } else if s[j] == '^' {
        LexStep::Emit { t: TokenV::Pow, lo: j, hi: j + 1 }
    } else if s[j] == '+' {
        LexStep::Emit { t: TokenV::Add, lo: j, hi: j + 1 }
    } else if s[j] == '-' {
        LexStep::Emit { t: TokenV::Sub, lo: j, hi: j + 1 }
    } else if s[j] == '*' {
        LexStep::Emit { t: TokenV::Mult, lo: j, hi: j + 1 }
    } else if s[j] == '/' {
        LexStep::Emit { t: TokenV::Div, lo: j, hi: j + 1 }
    } else if s[j] == '(' {
        LexStep::Emit { t: TokenV::LParent, lo: j, hi: j + 1 }
    } else if s[j] == ')' {
        LexStep::Emit { t: TokenV::RParent, lo: j, hi: j + 1 }
    } else if s[j] == ',' {
        LexStep::Emit { t: TokenV::Comma, lo: j, hi: j + 1 }
    } else {
        LexStep::Halt { at: j }
    }
}

pub proof fn lemma_lex_step_bounds(s: Seq<char>, i: int)
    requires
        0 <= i <= s.len(),
    ensures
        match lex_step(s, i) {
            LexStep::Emit { t, lo, hi } => i <= lo < hi <= s.len(),
            LexStep::End { at } => i <= at == s.len(),
            LexStep::Halt { at } => i <= at < s.len(),
            LexStep::Fail { at } => i <= at < s.len(),
        },
{
    lemma_run_end_bounds(s, i, ws_p());
    let j = ws_end(s, i);
    if j < s.len() {
        if is_digit_char(s[j]) {
            lemma_run_end_bounds(s, j, digit_or_sep_p());
            if num_has_dot(s, j) {
                lemma_run_end_bounds(s, int_end(s, j) + 1, digit_or_sep_p());
            }
        } else if is_alpha_char(s[j]) || s[j] == '_' {
            lemma_run_end_bounds(s, j + 1, ident_cont_p());
        }
    }
}

/// The whole lexing trace from position `i`: the tokens emitted, with their
/// spans, and how lexing stopped. The stop is never an `Emit`.
pub open spec fn lex_all(s: Seq<char>, i: int) -> (Seq<(TokenV, int, int)>, LexStep)
    decreases s.len() - i when 0 <= i <= s.len()
{
    match lex_step(s, i) {
        LexStep::Emit { t, lo, hi } => {
            // A token always advances (`lemma_lex_step_bounds`); the guard only
            // serves the termination measure.
            if i < hi <= s.len() {
                let rest = lex_all(s, hi);
                (seq![(t, lo, hi)] + rest.0, rest.1)
            } else {
                (Seq::empty(), LexStep::End { at: i })
            }
        },
        stop => (Seq::empty(), stop),
    }
}

/// Unfolds one step of `lex_all` under the bounds that always hold.
pub proof fn lemma_lex_all_unfold(s: Seq<char>, i: int)
    requires
        0 <= i <= s.len(),
    ensures
        match lex_step(s, i) {
            LexStep::Emit { t, lo, hi } => lex_all(s, i).0 == seq![(t, lo, hi)] + lex_all(s, hi).0
                && lex_all(s, i).1 == lex_all(s, hi).1,
            stop => lex_all(s, i).0 == Seq::<(TokenV, int, int)>::empty() && lex_all(s, i).1
                == stop,
        },
{
    lemma_lex_step_bounds(s, i);
}

/// The lexing trace ends at the input's end, at a halt, or at a failure —
/// never on a token.
pub proof fn lemma_lex_all_stop(s: Seq<char>, i: int)
    requires
        0 <= i <= s.len(),
    ensures
        !(lex_all(s, i).1 matches LexStep::Emit { .. }),
        lex_all(s, i).1 matches LexStep::End { at } ==> at == s.len(),
        lex_all(s, i).1 matches LexStep::Halt { at } ==> 0 <= at < s.len(),
        lex_all(s, i).1 matches LexStep::Fail { at } ==> 0 <= at < s.len(),
    decreases s.len() - i,
{
    lemma_lex_step_bounds(s, i);
    match lex_step(s, i) {
        LexStep::Emit { t, lo, hi } => {
            lemma_lex_all_stop(s, hi);
        },
        _ => {},
    }
}

/// Counts the run of characters satisfying `f`, scanning forward from `from`.
pub fn takes<F: Fn(char) -> bool>(source: &str, from: usize, f: F) -> (n: usize)
    requires
        from <= source@.len(),
        forall|c: char| #[trigger] call_requires(f, (c,)),
    ensures
        from + n <= source@.len(),
        forall|j: int| from <= j < from + n ==> call_ensures(f, (source@[j],), true),
        from + n < source@.len() ==> call_ensures(f, (source@[from + n as int],), false),
{
    let len = source.unicode_len();
    let mut j: usize = from;
    let mut go: bool = if j < len {
        let c = source.get_char(j);
        f(c)
    } else {
        false
    };
    while go
        invariant
            from <= j <= len,
            len == source@.len(),
            forall|k: int| from <= k < j ==> call_ensures(f, (source@[k],), true),
            go ==> j < len && call_ensures(f, (source@[j as int],), true),
            !go ==> j == len || call_ensures(f, (source@[j as int],), false),
            forall|c: char| #[trigger] call_requires(f, (c,)),
        decreases len - j,
    {
        j = j + 1;
        go = if j < len {
            let c = source.get_char(j);
            f(c)
        } else {
            false
        };
    }
    j - from
}

/// Reads the identifier starting at `from`, if one starts there: a character
/// that is alphabetic or `'_'`, continued by the maximal run of alphanumeric
/// or `'_'` characters. Returns its text and its length.
pub fn identifier(source: &str, from: usize) -> (r: Option<(String, usize)>)
    requires
        from <= source@.len(),
    ensures
        ({
            let s = source@;
            if from < s.len() && (is_alpha_char(s[from as int]) || s[from as int] == '_') {
                &&& r matches Some((name, k))
                &&& name@ == s.subrange(from as int, ident_end(s, from as int))
                &&& from + k == ident_end(s, from as int)
                &&& k >= 1
            } else {
                r is None
            }
        }),
{
    let ghost s = source@;
    let len = source.unicode_len();
    if from >= len {
        return None;
    }
    let c0 = source.get_char(from);
    if !(alphabetic_char(c0) || c0 == '_') {
        return None;
    }
    let n = takes(source, from + 1, |c: char| -> (r: bool)
        ensures
            r == (is_alnum_char(c) || c == '_'),
        { alphanumeric_char(c) || c == '_' });
    let e = from + 1 + n;
    proof {
        lemma_run_end_unique(s, from + 1, e as int, ident_cont_p());
    }
    let name = source.substring_char(from, e).to_owned();
    Some((name, e - from))
}

/// Reads the integer part of a numeric literal starting at `from`, if a digit
/// stands there: `'0'` alone, or a nonzero-leading run of digits and
/// separators. Returns the number of characters read.
pub fn integer(source: &str, from: usize) -> (r: Option<usize>)
    requires
        from <= source@.len(),
    ensures
        ({
            let s = source@;
            if from < s.len() && is_digit_char(s[from as int]) {
                &&& r matches Some(k)
                &&& from + k == int_end(s, from as int)
                &&& k >= 1
            } else {
                r is None
            }
        }),
{
    let ghost s = source@;
    let len = source.unicode_len();
    if from >= len {
        return None;
    }
    let c0 = source.get_char(from);
    if !digit_char(c0) {
        return None;
    }
    if c0 == '0' {
        return Some(1);
    }
    let n = takes(source, from, |c: char| -> (r: bool)
        ensures
            r == is_digit_or_sep(c),
        { digit_or_sep_char(c) });
    proof {
        lemma_run_end_unique(s, from as int, from + n as int, digit_or_sep_p());
    }
    Some(n)
}

/// Builds the text of `source[from..to)` with the `'_'` separators removed.
fn strip_range(source: &str, from: usize, to: usize) -> (r: String)
    requires
        from <= to <= source@.len(),
    ensures
        r@ == strip_seps(source@.subrange(from as int, to as int)),
{
    let ghost s = source@;
    let mut r = String::new();
    let mut j: usize = from;
    proof {
        assert(s.subrange(from as int, from as int) =~= Seq::<char>::empty());
    }
    while j < to
        invariant
            from <= j <= to <= s.len(),
            s == source@,
            r@ == strip_seps(s.subrange(from as int, j as int)),
        decreases to - j,
    {
        proof {
            assert(s.subrange(from as int, j + 1).drop_last() =~= s.subrange(
                from as int,
                j as int,
            ));
            assert(s.subrange(from as int, j + 1).last() == s[j as int]);
        }
        let c = source.get_char(j);
        if c != '_' {
            let piece = source.substring_char(j, j + 1);
            proof {
                assert(piece@ =~= seq![s[j as int]]);
            }
            r.append(piece);
        }
        j = j + 1;
    }
    r
}

/// Reads the numeric literal starting at `from`, if a digit stands there.
/// On success returns the literal's text, separators stripped, and the number
/// of characters consumed; a second `'.'` directly after the fractional run
/// is the lexical error.
pub fn number(source: &str, from: usize) -> (r: Result<Option<(String, usize)>, &'static str>)
    requires
        from <= source@.len(),
    ensures
        ({
            let s = source@;
            if from < s.len() && is_digit_char(s[from as int]) {
                if num_fails(s, from as int) {
                    r matches Err(m) && m@ == "Unexpected number"@
                } else {
                    &&& r matches Ok(Some((text, used)))
                    &&& text@ == num_text(s, from as int)
                    &&& from + used == num_end(s, from as int)
                    &&& used >= 1
                }
            } else {
                r matches Ok(None)
            }
        }),
{
    let ghost s = source@;
    let len = source.unicode_len();
    let k = match integer(source, from) {
        None => {
            return Ok(None);
        },
        Some(k) => k,
    };
    proof {
        lemma_run_end_bounds(s, from as int, digit_or_sep_p());
    }
    let ie = from + k;
    if ie < len && source.get_char(ie) == '.' {
        let n = takes(source, ie + 1, |c: char| -> (r: bool)
            ensures
                r == is_digit_or_sep(c),
            { digit_or_sep_char(c) });
        let fe = ie + 1 + n;
        proof {
            lemma_run_end_unique(s, ie + 1, fe as int, digit_or_sep_p());
        }
        if fe < len && source.get_char(fe) == '.' {
            return Err("Unexpected number");
        }
        let text = strip_range(source, from, fe);
        Ok(Some((text, fe - from)))
    } else {
        let text = strip_range(source, from, ie);
        Ok(Some((text, k)))
    }
}

/// A cursor over the source text, fed to the parser one token at a time; it
/// is never asked to re-lex input it has consumed.
pub struct Tokenizer {
    pub source: String,
    pub index: usize,
}

impl Tokenizer {
    /// The source being lexed.
    pub open spec fn src(&self) -> Seq<char> {
        self.source@
    }

    /// How many characters have been consumed.
    pub open spec fn at(&self) -> int {
        self.index as int
    }

    pub open spec fn wf(&self) -> bool {
        self.index <= self.source@.len() && self.source@.len() <= usize::MAX
    }

    pub fn new(src: &str) -> (r: Tokenizer)
        ensures
            r.wf(),
            r.src() == src@,
            r.at() == 0,
    {
        let owned = src.to_owned();
        let len = owned.as_str().unicode_len();
        Tokenizer { source: owned, index: 0 }
    }

    /// Advances past `length` consumed characters.
    pub fn shift(&mut self, length: usize)
        requires
            old(self).wf(),
            old(self).at() + length <= old(self).src().len(),
        ensures
            final(self).wf(),
            final(self).src() == old(self).src(),
            final(self).at() == old(self).at() + length,
    {
        self.index = self.index + length;
    }

    /// Consumes the whitespace run at the current position, greedily.
    pub fn skip_whitespace(&mut self)
        requires
            old(self).wf(),
        ensures
            final(self).wf(),
            final(self).src() == old(self).src(),
            final(self).at() == ws_end(old(self).src(), old(self).at()),
    {
        let ghost s = self.source@;
        let ghost i = self.index as int;
        let n = takes(self.source.as_str(), self.index, |c: char| -> (r: bool)
            ensures
                r == is_whitespace_char(c),
            { whitespace_char(c) });
        proof {
            lemma_run_end_unique(s, i, i + n, ws_p());
        }
        self.shift(n);
    }

    /// Whether the whole source has been consumed.
    pub fn at_end(&self) -> (r: bool)
        requires
            self.wf(),
        ensures
            r == (self.at() == self.src().len()),
    {
        self.index >= self.source.as_str().unicode_len()
    }

    /// Produces the next token with its span, `Ok(None)` at the end of the
    /// input or at a character no rule matches, and the lexical error for a
    /// malformed numeric literal.
    pub fn next(&mut self) -> (r: Result<Option<(Token, usize, usize)>, &'static str>)
        requires
            old(self).wf(),
        ensures
            final(self).wf(),
            final(self).src() == old(self).src(),
            ({
                let s = old(self).src();
                let i = old(self).at();
                match lex_step(s, i) {
                    LexStep::Emit { t, lo, hi } => {
                        &&& r matches Ok(Some((tok, a, b)))
                        &&& tok@ == t
                        &&& a == lo
                        &&& b == hi
                        &&& final(self).at() == hi
                    },
                    LexStep::End { at } => r matches Ok(None) && final(self).at() == at,
                    LexStep::Halt { at } => r matches Ok(None) && final(self).at() == at,
                    LexStep::Fail { at } => {
                        &&& r matches Err(m)
                        &&& m@ == "Unexpected number"@
                        &&& final(self).at() == at
                    },
                }
            }),
    {
        let ghost s = self.source@;
        let ghost i0 = self.index as int;
        self.skip_whitespace();
        proof {
            lemma_run_end_bounds(s, i0, ws_p());
        }
        if self.at_end() {
            return Ok(None);
        }
        let start = self.index;
        match number(self.source.as_str(), start) {
            Err(m) => {
                return Err(m);
            },
            Ok(Some((text, used))) => {
                proof {
                    lemma_run_end_bounds(s, start as int, digit_or_sep_p());
                    if num_has_dot(s, start as int) {
                        lemma_run_end_bounds(s, int_end(s, start as int) + 1, digit_or_sep_p());
                    }
                }
                self.shift(used);
                return Ok(Some((Token::Number(text), start, self.index)));
            },
            Ok(None) => {},
        }
        match identifier(self.source.as_str(), start) {
            Some((name, used)) => {
                proof {
                    lemma_run_end_bounds(s, start + 1, ident_cont_p());
                }
                self.shift(used);
                return Ok(Some((Token::Identifier(name), start, self.index)));
            },
            None => {},
        }
        let c = self.source.as_str().get_char(start);
        if c == '^' {
            self.shift(1);
            return Ok(Some((Token::Pow, start, self.index)));
        }
        if c == '+' {
            self.shift(1);
            return Ok(Some((Token::Add, start, self.index)));
        }
        if c == '-' {
            self.shift(1);
            return Ok(Some((Token::Sub, start, self.index)));
        }
        if c == '*' {
            self.shift(1);
            return Ok(Some((Token::Mult, start, self.index)));
        }
        if c == '/' {
            self.shift(1);
            return Ok(Some((Token::Div, start, self.index)));
        }
        if c == '(' {
            self.shift(1);
            return Ok(Some((Token::LParent, start, self.index)));
        }
        if c == ')' {
            self.shift(1);
            return Ok(Some((Token::RParent, start, self.index)));
        }
        if c == ',' {
            self.shift(1);
            return Ok(Some((Token::Comma, start, self.index)));
        }
        Ok(None)
    }
}

} // verus!
