//! Properties of the lexer, stated over all inputs of a shape and proved
//! once for all of them.

use vstd::prelude::*;

use crate::chars::is_alnum_char;
use crate::chars::is_alpha_char;
use crate::chars::is_digit_char;
use crate::chars::is_digit_or_sep;
use crate::lexer::digit_or_sep_p;
use crate::lexer::ident_cont_p;
use crate::lexer::lemma_lex_all_unfold;
use crate::lexer::lemma_run_end_unique;
use crate::lexer::lex_all;
use crate::lexer::lex_step;
use crate::lexer::strip_seps;
use crate::lexer::ws_p;
use crate::lexer::LexStep;
use crate::token::TokenV;

verus! {

/// A well-formed integer part: `0` alone, or a nonzero digit followed by
/// digits and `'_'` separators.
pub open spec fn valid_int_part(a: Seq<char>) -> bool {
    (a == seq!['0']) || (a.len() > 0 && is_digit_char(a[0]) && a[0] != '0' && (forall|j: int|
        0 <= j < a.len() ==> is_digit_or_sep(a[j])))
}

/// Every valid numeric literal — an integer part, optionally followed by a
/// single `'.'` and a fractional run of digits and separators — lexes to
/// exactly one `Number` token spanning the whole input, whose text is the
/// literal with the separators stripped.
pub proof fn lemma_number_literal_single_token(
    s: Seq<char>,
    intpart: Seq<char>,
    frac: Option<Seq<char>>,
)
    requires
        valid_int_part(intpart),
        match frac {
            Option::None => s == intpart,
            Option::Some(f) => s == intpart + seq!['.'] + f && (forall|j: int|
                0 <= j < f.len() ==> is_digit_or_sep(f[j])),
        },
    ensures
        lex_all(s, 0).0 == seq![(TokenV::Number(strip_seps(s)), 0int, s.len() as int)],
        lex_all(s, 0).1 == (LexStep::End { at: s.len() as int }),
{
    let a = intpart.len() as int;
    let len = s.len() as int;
    assert(s[0] == intpart[0]);
    assert(is_digit_char(s[0]));
    assert(!crate::chars::is_whitespace_char(s[0]));
    lemma_run_end_unique(s, 0, 0, ws_p());
    if intpart == seq!['0'] {
        assert(s[0] == '0');
    } else {
        assert(forall|k: int| 0 <= k < a ==> s[k] == intpart[k]);
        assert(forall|k: int| 0 <= k < a ==> is_digit_or_sep(s[k]));
        if a < len {
            assert(s[a] == '.');
            assert(!is_digit_or_sep(s[a]));
        }
        lemma_run_end_unique(s, 0, a, digit_or_sep_p());
        assert(s[0] != '0');
    }
    match frac {
        Option::None => {
            assert(crate::lexer::int_end(s, 0) == len);
            assert(!crate::lexer::num_has_dot(s, 0));
            assert(crate::lexer::num_end(s, 0) == len);
        },
        Option::Some(f) => {
            assert(crate::lexer::int_end(s, 0) == a);
            assert(s[a] == '.');
            assert(crate::lexer::num_has_dot(s, 0));
            assert(forall|k: int| a + 1 <= k < len ==> s[k] == f[k - a - 1]);
            assert(forall|k: int| a + 1 <= k < len ==> is_digit_or_sep(s[k]));
            lemma_run_end_unique(s, a + 1, len, digit_or_sep_p());
            assert(crate::lexer::num_end(s, 0) == len);
        },
    }
    assert(!crate::lexer::num_fails(s, 0));
    assert(s.subrange(0, len) =~= s);
    assert(lex_step(s, 0) == (LexStep::Emit {
        t: TokenV::Number(strip_seps(s)),
        lo: 0int,
        hi: len,
    }));
    lemma_lex_all_unfold(s, 0);
    lemma_run_end_unique(s, len, len, ws_p());
    assert(lex_step(s, len) == (LexStep::End { at: len }));
    assert(lex_all(s, len).0 =~= Seq::<(TokenV, int, int)>::empty());
    assert(lex_all(s, 0).0 =~= seq![(TokenV::Number(strip_seps(s)), 0int, len)]);
}

/// A literal with a second `'.'` after its fractional run — in particular
/// any literal made only of digits, separators and two or more points —
/// always yields the lexical error, whatever follows it.
pub proof fn lemma_second_point_is_lex_error(
    s: Seq<char>,
    intpart: Seq<char>,
    frac: Seq<char>,
    rest: Seq<char>,
)
    requires
        valid_int_part(intpart),
        forall|j: int| 0 <= j < frac.len() ==> is_digit_or_sep(frac[j]),
        s == intpart + seq!['.'] + frac + seq!['.'] + rest,
    ensures
        lex_all(s, 0).0 == Seq::<(TokenV, int, int)>::empty(),
        lex_all(s, 0).1 == (LexStep::Fail { at: 0int }),
{
    let a = intpart.len() as int;
    let fe = a + 1 + frac.len() as int;
    let len = s.len() as int;
    assert(s[0] == intpart[0]);
    assert(is_digit_char(s[0]));
    assert(!crate::chars::is_whitespace_char(s[0]));
    lemma_run_end_unique(s, 0, 0, ws_p());
    if intpart == seq!['0'] {
        assert(s[0] == '0');
    } else {
        assert(forall|k: int| 0 <= k < a ==> s[k] == intpart[k]);
        assert(forall|k: int| 0 <= k < a ==> is_digit_or_sep(s[k]));
        assert(s[a] == '.');
        assert(!is_digit_or_sep(s[a]));
        lemma_run_end_unique(s, 0, a, digit_or_sep_p());
        assert(s[0] != '0');
    }
    assert(crate::lexer::int_end(s, 0) == a);
    assert(s[a] == '.');
    assert(crate::lexer::num_has_dot(s, 0));
    assert(forall|k: int| a + 1 <= k < fe ==> s[k] == frac[k - a - 1]);
    assert(forall|k: int| a + 1 <= k < fe ==> is_digit_or_sep(s[k]));
    assert(s[fe] == '.');
    assert(!is_digit_or_sep(s[fe]));
    lemma_run_end_unique(s, a + 1, fe, digit_or_sep_p());
    assert(crate::lexer::num_end(s, 0) == fe);
    assert(crate::lexer::num_fails(s, 0));
    assert(lex_step(s, 0) == (LexStep::Fail { at: 0int }));
}

/// Every input that starts with a letter or `'_'` and continues with
/// alphanumeric characters or `'_'` throughout lexes to exactly one
/// `Identifier` token spanning the whole input — non-ASCII letters
/// included.
pub proof fn lemma_identifier_single_token(s: Seq<char>)
    requires
        s.len() > 0,
        is_alpha_char(s[0]) || s[0] == '_',
        forall|j: int| 0 <= j < s.len() ==> is_alnum_char(s[j]) || s[j] == '_',
    ensures
        lex_all(s, 0).0 == seq![(TokenV::Identifier(s), 0int, s.len() as int)],
        lex_all(s, 0).1 == (LexStep::End { at: s.len() as int }),
{
    let len = s.len() as int;
    assert(!crate::chars::is_whitespace_char(s[0]));
    lemma_run_end_unique(s, 0, 0, ws_p());
    assert(!is_digit_char(s[0]));
    assert(forall|k: int| 1 <= k < len ==> is_alnum_char(s[k]) || s[k] == '_');
    lemma_run_end_unique(s, 1, len, ident_cont_p());
    assert(crate::lexer::ident_end(s, 0) == len);
    assert(s.subrange(0, len) =~= s);
    assert(lex_step(s, 0) == (LexStep::Emit {
        t: TokenV::Identifier(s),
        lo: 0int,
        hi: len,
    }));
    lemma_lex_all_unfold(s, 0);
    lemma_run_end_unique(s, len, len, ws_p());
    assert(lex_step(s, len) == (LexStep::End { at: len }));
    assert(lex_all(s, len).0 =~= Seq::<(TokenV, int, int)>::empty());
    assert(lex_all(s, 0).0 =~= seq![(TokenV::Identifier(s), 0int, len)]);
}

} // verus!
