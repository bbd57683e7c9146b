use vstd::prelude::*;

use crate::numeral::all_digits;
use crate::numeral::dec_of;
use crate::numeral::digit_of;
use crate::numeral::digits_val;
use crate::numeral::is_digit_char;
use crate::numeral::lemma_dec_of_digits;
use crate::numeral::lemma_dec_of_roundtrip;
use crate::numeral::lemma_digits_val_nonneg;
use crate::numeral::lemma_digits_val_prefix_le;
use crate::numeral::lemma_digits_val_single;
use crate::token::ExpandError;
use crate::token::Token;
use crate::token::tokens_valid;
use vstd::string::StrSliceExecFns;

verus! {

/// Characters that separate atoms: ASCII whitespace.
pub open spec fn is_space_char(c: char) -> bool {
    c == ' ' || c == '\t' || c == '\n' || c == '\r' || c == '\u{c}'
}

/// Length of the leading run of non-separator characters.
pub open spec fn atom_len(s: Seq<char>) -> nat
    decreases s.len(),
{
    if s.len() == 0 || is_space_char(s[0]) {
        0
    } else {
        1 + atom_len(s.drop_first())
    }
}

pub proof fn lemma_atom_len_le(s: Seq<char>)
    ensures
        atom_len(s) <= s.len(),
    decreases s.len(),
{
    if s.len() > 0 && !is_space_char(s[0]) {
        lemma_atom_len_le(s.drop_first());
    }
}

/// The whitespace-separated atoms of the text, in order.
pub open spec fn split_ws(s: Seq<char>) -> Seq<Seq<char>>
    decreases s.len(),
    via split_ws_decreases
{
    if s.len() == 0 {
        Seq::empty()
    } else if is_space_char(s[0]) {
        split_ws(s.drop_first())
    } else {
        seq![s.take(atom_len(s) as int)] + split_ws(s.skip(atom_len(s) as int))
    }
}

#[via_fn]
proof fn split_ws_decreases(s: Seq<char>) {
    lemma_atom_len_le(s);
}

/// The token an atom stands for, or None when it is no operator, not a digit
/// string, or a digit string past the 64-bit signed range.
pub open spec fn atom_token(a: Seq<char>) -> Option<Token> {
    if a.len() == 1 && a[0] == '+' {
        Some(Token::Plus)
    } else if a.len() == 1 && a[0] == '*' {
        Some(Token::Multiply)
    } else if a.len() >= 1 && all_digits(a) && digits_val(a) <= i64::MAX {
        Some(Token::Number(digits_val(a) as i64))
    } else {
        None
    }
}

/// The tokens of a sequence of atoms, or None as soon as one atom is bad.
pub open spec fn lex_atoms(atoms: Seq<Seq<char>>) -> Option<Seq<Token>>
    decreases atoms.len(),
{
    if atoms.len() == 0 {
        Some(Seq::empty())
    } else {
        match (atom_token(atoms[0]), lex_atoms(atoms.drop_first())) {
            (Some(t), Some(rest)) => Some(seq![t] + rest),
            _ => None,
        }
    }
}

/// The tokens of the whole text, or None on a lexical error.
pub open spec fn lex(s: Seq<char>) -> Option<Seq<Token>> {
    lex_atoms(split_ws(s))
}

/// What lexing the whole text yields once the atoms before position `i` have
/// produced `prefix`.
pub open spec fn lex_continue(prefix: Seq<Token>, s: Seq<char>, i: int) -> Option<Seq<Token>> {
    match lex_atoms(split_ws(s.skip(i))) {
        Some(rest) => Some(prefix + rest),
        None => None,
    }
}

/// Splitting ignores a leading separator.
pub proof fn lemma_split_ws_skip_space(s: Seq<char>, i: int)
    requires
        0 <= i < s.len(),
        is_space_char(s[i]),
    ensures
        split_ws(s.skip(i)) == split_ws(s.skip(i + 1)),
{
    assert(s.skip(i)[0] == s[i]);
    assert(s.skip(i).drop_first() =~= s.skip(i + 1));
}

/// The leading atom ends exactly at the first separator (or the end).
pub proof fn lemma_atom_len_exact(s: Seq<char>, k: int)
    requires
        0 <= k <= s.len(),
        forall|m: int| 0 <= m < k ==> !is_space_char(#[trigger] s[m]),
        k == s.len() || is_space_char(s[k]),
    ensures
        atom_len(s) == k,
    decreases k,
{
    if k == 0 {
    } else {
        assert(!is_space_char(s[0]));
        assert forall|m: int| 0 <= m < k - 1 implies !is_space_char(#[trigger] s.drop_first()[m]) by {
            assert(s.drop_first()[m] == s[m + 1]);
        }
        if k < s.len() {
            assert(s.drop_first()[k - 1] == s[k]);
        }
        lemma_atom_len_exact(s.drop_first(), k - 1);
    }
}

/// Splitting takes the maximal non-separator run as the next atom.
pub proof fn lemma_split_ws_atom(s: Seq<char>, i: int, j: int)
    requires
        0 <= i < j <= s.len(),
        forall|m: int| i <= m < j ==> !is_space_char(#[trigger] s[m]),
        j == s.len() || is_space_char(s[j]),
    ensures
        split_ws(s.skip(i)) == seq![s.subrange(i, j)] + split_ws(s.skip(j)),
{
    let t = s.skip(i);
    assert forall|m: int| 0 <= m < j - i implies !is_space_char(#[trigger] t[m]) by {
        assert(t[m] == s[i + m]);
    }
    if j < s.len() {
        assert(t[j - i] == s[j]);
    }
    lemma_atom_len_exact(t, j - i);
    assert(!is_space_char(t[0]));
    assert(t.take(j - i) =~= s.subrange(i, j));
    assert(t.skip(j - i) =~= s.skip(j));
}

/// Every token a lex produces is an operator or a non-negative literal.
pub proof fn lemma_lex_atoms_valid(atoms: Seq<Seq<char>>)
    ensures
        lex_atoms(atoms) matches Some(ts) ==> tokens_valid(ts),
    decreases atoms.len(),
{
    if atoms.len() > 0 {
        lemma_lex_atoms_valid(atoms.drop_first());
        lemma_digits_val_nonneg(atoms[0]);
        if let (Some(t), Some(rest)) = (atom_token(atoms[0]), lex_atoms(atoms.drop_first())) {
            let ts = seq![t] + rest;
            assert forall|i: int| 0 <= i < ts.len() implies (#[trigger] ts[i] matches Token::Number(
                n,
            ) ==> n >= 0) by {
                if i > 0 {
                    assert(ts[i] == rest[i - 1]);
                }
            }
        }
    }
}

/// The text a single token stands for: the operator symbol, or the canonical
/// decimal rendering of the literal.
pub open spec fn token_text(t: Token) -> Seq<char> {
    match t {
        Token::Plus => seq!['+'],
        Token::Multiply => seq!['*'],
        Token::Number(n) => dec_of(n as int),
    }
}

/// The tokens' texts joined by single spaces.
pub open spec fn render_tokens(ts: Seq<Token>) -> Seq<char>
    decreases ts.len(),
{
    if ts.len() == 0 {
        Seq::empty()
    } else if ts.len() == 1 {
        token_text(ts[0])
    } else {
        token_text(ts[0]) + seq![' '] + render_tokens(ts.drop_first())
    }
}

/// A valid token's text is one whole atom, and it reads back as that token.
proof fn lemma_token_text_atom(t: Token)
    requires
        t matches Token::Number(n) ==> n >= 0,
    ensures
        token_text(t).len() >= 1,
        forall|m: int| 0 <= m < token_text(t).len() ==> !is_space_char(#[trigger] token_text(t)[m]),
        atom_token(token_text(t)) == Some(t),
{
    match t {
        Token::Plus => {},
        Token::Multiply => {},
        Token::Number(n) => {
            lemma_dec_of_digits(n as int);
            lemma_dec_of_roundtrip(n as int);
            let a = dec_of(n as int);
            assert(is_digit_char(a[0]));
            assert forall|m: int| 0 <= m < a.len() implies !is_space_char(#[trigger] a[m]) by {
                assert(is_digit_char(a[m]));
            }
        },
    }
}

/// Law: lexing the single-space concatenation of a token sequence's texts
/// yields that sequence back, for any tokens the lexer could have produced.
pub proof fn lemma_relex_round_trip(ts: Seq<Token>)
    requires
        tokens_valid(ts),
    ensures
        lex(render_tokens(ts)) == Some(ts),
    decreases ts.len(),
{
    if ts.len() == 0 {
        assert(ts =~= Seq::<Token>::empty());
    } else {
        let t0 = ts[0];
        lemma_token_text_atom(t0);
        let a = token_text(t0);
        let s = render_tokens(ts);
        if ts.len() == 1 {
            lemma_split_ws_atom(s, 0, a.len() as int);
            assert(s.skip(0) =~= s);
            assert(s.subrange(0, a.len() as int) =~= a);
            assert(s.skip(a.len() as int) =~= Seq::<char>::empty());
            let atoms = seq![a] + split_ws(Seq::<char>::empty());
            assert(split_ws(s) == atoms);
            assert(atoms =~= seq![a]);
            assert(atoms[0] == a);
            assert(atoms.drop_first() =~= Seq::<Seq<char>>::empty());
            assert(lex_atoms(Seq::<Seq<char>>::empty()) == Some(Seq::<Token>::empty()));
            assert(lex_atoms(atoms) == Some(seq![t0] + Seq::<Token>::empty()));
            assert(seq![t0] + Seq::<Token>::empty() =~= ts);
        } else {
            let rest = ts.drop_first();
            assert forall|i: int| 0 <= i < rest.len() implies (#[trigger] rest[i] matches
                Token::Number(n) ==> n >= 0) by {
                assert(rest[i] == ts[i + 1]);
            }
            lemma_relex_round_trip(rest);
            let tail = render_tokens(rest);
            assert(s == a + seq![' '] + tail);
            assert forall|m: int| 0 <= m < a.len() implies !is_space_char(#[trigger] s[m]) by {
                assert(s[m] == a[m]);
            }
            assert(s[a.len() as int] == ' ');
            lemma_split_ws_atom(s, 0, a.len() as int);
            lemma_split_ws_skip_space(s, a.len() as int);
            assert(s.skip(0) =~= s);
            assert(s.subrange(0, a.len() as int) =~= a);
            assert(s.skip(a.len() as int + 1) =~= tail);
            let atoms = seq![a] + split_ws(tail);
            assert(split_ws(s) == atoms);
            assert(atoms[0] == a);
            assert(atoms.drop_first() =~= split_ws(tail));
            assert(lex_atoms(split_ws(tail)) == Some(rest));
            assert(lex_atoms(atoms) == Some(seq![t0] + rest));
            assert(seq![t0] + rest =~= ts);
        }
    }
}

fn is_space(c: char) -> (r: bool)
    ensures
        r == is_space_char(c),
{
    c == ' ' || c == '\t' || c == '\n' || c == '\r' || c == '\u{c}'
}

/// Classifies one atom: `+`, `*`, or a string of decimal digits whose value
/// fits a signed 64-bit integer. Anything else is a lexical error, an
/// overflowing digit string too.
pub fn to_token(token_str: &str) -> (r: Result<Token, ExpandError>)
    ensures
        match r {
            Ok(t) => atom_token(token_str@) == Some(t),
            Err(e) => atom_token(token_str@) is None && e == ExpandError::Lexical,
        },
{
    let n = token_str.unicode_len();
    if n == 1 {
        let c = token_str.get_char(0);
        if c == '+' {
            return Ok(Token::Plus);
        }
        if c == '*' {
            return Ok(Token::Multiply);
        }
    }
    if n == 0 {
        return Err(ExpandError::Lexical);
    }
    let mut val: i64 = 0;
    let mut i: usize = 0;
    while i < n
        invariant
            0 < n == token_str@.len(),
            i <= n,
            all_digits(token_str@.take(i as int)),
            val == digits_val(token_str@.take(i as int)),
            0 <= val <= i64::MAX,
            n == 1 ==> token_str@[0] != '+' && token_str@[0] != '*',
        decreases n - i,
    {
        let c = token_str.get_char(i);
        let d: u8 = match c {
            '0' => 0,
            '1' => 1,
            '2' => 2,
            '3' => 3,
            '4' => 4,
            '5' => 5,
            '6' => 6,
            '7' => 7,
            '8' => 8,
            '9' => 9,
            _ => {
                proof {
                    assert(!is_digit_char(token_str@[i as int]));
                    assert(!all_digits(token_str@));
                    if token_str@.len() == 1 {
                        assert(token_str@[0] == c);
                    }
                }
                return Err(ExpandError::Lexical);
            },
        };
        proof {
            assert(c == token_str@[i as int]);
            assert(digit_of(c) == d as int);
            assert(token_str@.take(i + 1).drop_last() =~= token_str@.take(i as int));
            assert(token_str@.take(i + 1).last() == c);
            assert(digits_val(token_str@.take(i + 1)) == 10 * val + d as int);
        }
        if val > (i64::MAX - (d as i64)) / 10 {
            proof {
                vstd::arithmetic::div_mod::lemma_fundamental_div_mod(
                    i64::MAX as int - d as int,
                    10,
                );
                assert(digits_val(token_str@.take(i + 1)) > i64::MAX);
                lemma_digits_val_prefix_le(token_str@, i + 1);
                assert(digits_val(token_str@) > i64::MAX);
                if token_str@.len() == 1 && (token_str@[0] == '+' || token_str@[0] == '*') {
                    lemma_digits_val_single(token_str@[0]);
                }
            }
            return Err(ExpandError::Lexical);
        }
        proof {
            vstd::arithmetic::div_mod::lemma_fundamental_div_mod(i64::MAX as int - d as int, 10);
        }
        val = val * 10 + (d as i64);
        i = i + 1;
    }
    proof {
        assert(token_str@.take(n as int) =~= token_str@);
        assert(is_digit_char(token_str@[0]));
    }
    Ok(Token::Number(val))
}

/// Splits the text at whitespace and classifies every atom, in input order.
/// The first unrecognizable atom aborts the whole lex.
pub fn tokenize(expression: &str) -> (r: Result<Vec<Token>, ExpandError>)
    ensures
        match r {
            Ok(ts) => lex(expression@) == Some(ts@),
            Err(e) => lex(expression@) is None && e == ExpandError::Lexical,
        },
{
    let n = expression.unicode_len();
    let mut out: Vec<Token> = Vec::new();
    let mut i: usize = 0;
    proof {
        assert(expression@.skip(0) =~= expression@);
        match lex_atoms(split_ws(expression@)) {
            Some(rest) => {
                assert(Seq::<Token>::empty() + rest =~= rest);
            },
            None => {},
        }
    }
    while i < n
        invariant
            i <= n == expression@.len(),
            lex(expression@) == lex_continue(out@, expression@, i as int),
        decreases n - i,
    {
        let c = expression.get_char(i);
        if is_space(c) {
            proof {
                lemma_split_ws_skip_space(expression@, i as int);
            }
            i = i + 1;
        } else {
            let start = i;
            let mut j = i + 1;
            while j < n
                invariant
                    start < j <= n == expression@.len(),
                    forall|m: int| start <= m < j ==> !is_space_char(#[trigger] expression@[m]),
                ensures
                    start < j <= n == expression@.len(),
                    forall|m: int| start <= m < j ==> !is_space_char(#[trigger] expression@[m]),
                    j == n || is_space_char(expression@[j as int]),
                decreases n - j,
            {
                if is_space(expression.get_char(j)) {
                    break ;
                }
                j = j + 1;
            }
            let atom = expression.substring_char(start, j);
            proof {
                lemma_split_ws_atom(expression@, start as int, j as int);
            }
            match to_token(atom) {
                Ok(t) => {
                    proof {
                        let atoms = split_ws(expression@.skip(start as int));
                        assert(atoms[0] == expression@.subrange(start as int, j as int));
                        assert(atoms.drop_first() =~= split_ws(expression@.skip(j as int)));
                        match lex_atoms(split_ws(expression@.skip(j as int))) {
                            Some(rest) => {
                                assert(out@ + (seq![t] + rest) =~= out@.push(t) + rest);
                            },
                            None => {},
                        }
                    }
                    out.push(t);
                    i = j;
                },
                Err(_) => {
                    proof {
                        let atoms = split_ws(expression@.skip(start as int));
                        assert(atoms[0] == expression@.subrange(start as int, j as int));
                        assert(lex_atoms(atoms) is None);
                    }
                    return Err(ExpandError::Lexical);
                },
            }
        }
    }
    proof {
        assert(expression@.skip(n as int) =~= Seq::<char>::empty());
        assert(out@ + Seq::<Token>::empty() =~= out@);
    }
    Ok(out)
}

} // verus!
