//! The tokenization round-trip law.
//!
//! Any sequence of tokens the tokenizer could have produced, written back
//! out as text with arbitrary whitespace between the tokens, tokenizes to
//! exactly the original sequence ([`lemma_tokenize_round_trip`]).  The one
//! proviso: between two adjacent numeric tokens the whitespace must not be
//! empty, since their digit runs would otherwise merge into one token.

use vstd::arithmetic::div_mod::lemma_fundamental_div_mod;
use vstd::prelude::*;

use crate::token::{
    digit_run, digit_val, digits_val, is_digit, is_ws, lemma_digit_run_bound, lemma_lexed_bounds,
    lexed_end, lexed_token, ws_run, Token,
};
use crate::ParseError;

verus! {

/// The ASCII digit for `d` (0 through 9).
pub open spec fn digit_char(d: int) -> char {
    if d == 0 {
        '0'
    } else if d == 1 {
        '1'
    } else if d == 2 {
        '2'
    } else if d == 3 {
        '3'
    } else if d == 4 {
        '4'
    } else if d == 5 {
        '5'
    } else if d == 6 {
        '6'
    } else if d == 7 {
        '7'
    } else if d == 8 {
        '8'
    } else {
        '9'
    }
}

/// The canonical decimal digits of `n >= 0`, most significant first.
pub open spec fn num_chars(n: int) -> Seq<char>
    decreases n,
{
    if n <= 9 {
        seq![digit_char(n)]
    } else {
        num_chars(n / 10).push(digit_char(n % 10))
    }
}

/// The canonical text of one token.
pub open spec fn token_chars(t: Token) -> Seq<char> {
    match t {
        Token::BrOpen => seq!['('],
        Token::BrClose => seq![')'],
        Token::Add => seq!['+'],
        Token::Sub => seq!['-'],
        Token::Mul => seq!['*'],
        Token::Div => seq!['/'],
        Token::Num(n) => num_chars(n as int),
    }
}

/// Entirely whitespace.
pub open spec fn all_ws(g: Seq<char>) -> bool {
    forall|i: int| 0 <= i < g.len() ==> is_ws(#[trigger] g[i])
}

/// A token the tokenizer itself could have produced: a numeric token never
/// carries a negative value.
pub open spec fn valid_token(t: Token) -> bool {
    match t {
        Token::Num(n) => n >= 0,
        _ => true,
    }
}

/// `toks` written out as text, with `gaps[i]` standing before the `i`-th
/// token and `gaps[toks.len()]` after the last one.
pub open spec fn render(toks: Seq<Token>, gaps: Seq<Seq<char>>) -> Seq<char>
    decreases toks.len(),
{
    if toks.len() == 0 {
        if gaps.len() > 0 {
            gaps[0]
        } else {
            Seq::empty()
        }
    } else {
        gaps[0] + token_chars(toks[0]) + render(toks.drop_first(), gaps.drop_first())
    }
}

/// All the tokens of `s` from `pos` on; `None` as soon as a lexical or
/// numeric error is hit.
pub open spec fn tokens_from(s: Seq<char>, pos: nat) -> Option<Seq<Token>>
    decreases s.len() - pos,
    when pos <= s.len()
    via tokens_from_decreases
{
    match lexed_token(s, pos) {
        None => Some(Seq::empty()),
        Some(Err(e)) => None,
        Some(Ok(t)) => match tokens_from(s, lexed_end(s, pos)) {
            Some(rest) => Some(seq![t] + rest),
            None => None,
        },
    }
}

#[via_fn]
proof fn tokens_from_decreases(s: Seq<char>, pos: nat) {
    lemma_lexed_bounds(s, pos);
}

/// `digit_char` really is a digit, with the value it was made from.
pub proof fn lemma_digit_char(d: int)
    requires
        0 <= d <= 9,
    ensures
        is_digit(digit_char(d)),
        digit_val(digit_char(d)) == d,
{
}

/// The canonical digits of `n >= 0` are a non-empty run of digits.
pub proof fn lemma_num_chars(n: int)
    requires
        n >= 0,
    ensures
        num_chars(n).len() >= 1,
        forall|i: int| 0 <= i < num_chars(n).len() ==> is_digit(#[trigger] num_chars(n)[i]),
    decreases n,
{
    if n <= 9 {
        lemma_digit_char(n);
    } else {
        lemma_num_chars(n / 10);
        lemma_digit_char(n % 10);
    }
}

/// The digits that `digits_val` reads are the only thing it depends on.
pub proof fn lemma_digits_val_congruent(s1: Seq<char>, i1: nat, s2: Seq<char>, i2: nat, n: nat)
    requires
        forall|k: int| 0 <= k < n ==> #[trigger] s1[i1 + k] == s2[i2 + k],
    ensures
        digits_val(s1, i1, n) == digits_val(s2, i2, n),
    decreases n,
{
    if n > 0 {
        lemma_digits_val_congruent(s1, i1, s2, i2, (n - 1) as nat);
    }
}

/// Accumulating the canonical digits of `n` gives back `n`.
pub proof fn lemma_num_chars_val(n: int)
    requires
        n >= 0,
    ensures
        digits_val(num_chars(n), 0, num_chars(n).len()) == n,
    decreases n,
{
    if n <= 9 {
        lemma_digit_char(n);
        assert(digits_val(num_chars(n), 0, 0) == 0);
    } else {
        let a = num_chars(n / 10);
        let s = num_chars(n);
        let d = digit_char(n % 10);
        lemma_num_chars_val(n / 10);
        lemma_digit_char(n % 10);
        lemma_fundamental_div_mod(n, 10);
        assert(s == a.push(d));
        assert(s.len() == a.len() + 1);
        assert(s[a.len() as int] == d);
        assert(forall|k: int| 0 <= k < a.len() ==> #[trigger] s[0 + k] == a[0 + k]);
        lemma_digits_val_congruent(s, 0, a, 0, a.len());
        assert(digits_val(s, 0, a.len()) == n / 10);
        assert(digits_val(s, 0, s.len()) == digits_val(s, 0, a.len()) * 10 + digit_val(
            s[a.len() as int],
        ));
        assert(digits_val(s, 0, s.len()) == (n / 10) * 10 + (n % 10));
        assert((n / 10) * 10 + (n % 10) == n);
    }
}

/// A whitespace run of known extent is what `ws_run` measures.
pub proof fn lemma_ws_run_is(s: Seq<char>, i: nat, k: nat)
    requires
        i + k <= s.len(),
        forall|t: int| i <= t < i + k ==> is_ws(#[trigger] s[t]),
        i + k < s.len() ==> !is_ws(s[(i + k) as int]),
    ensures
        ws_run(s, i) == k,
    decreases k,
{
    if k > 0 {
        lemma_ws_run_is(s, i + 1, (k - 1) as nat);
    }
}

/// A digit run of known extent is what `digit_run` measures.
pub proof fn lemma_digit_run_is(s: Seq<char>, i: nat, k: nat)
    requires
        i + k <= s.len(),
        forall|t: int| i <= t < i + k ==> is_digit(#[trigger] s[t]),
        i + k < s.len() ==> !is_digit(s[(i + k) as int]),
    ensures
        digit_run(s, i) == k,
    decreases k,
{
    if k > 0 {
        lemma_digit_run_is(s, i + 1, (k - 1) as nat);
    }
}

/// `ws_run` within the second half of a concatenation.
pub proof fn lemma_ws_run_shift(a: Seq<char>, b: Seq<char>, i: nat)
    ensures
        ws_run(a + b, a.len() + i) == ws_run(b, i),
    decreases b.len() - i,
{
    if i < b.len() && is_ws(b[i as int]) {
        lemma_ws_run_shift(a, b, i + 1);
    }
}

/// `digit_run` within the second half of a concatenation.
pub proof fn lemma_digit_run_shift(a: Seq<char>, b: Seq<char>, i: nat)
    ensures
        digit_run(a + b, a.len() + i) == digit_run(b, i),
    decreases b.len() - i,
{
    if i < b.len() && is_digit(b[i as int]) {
        lemma_digit_run_shift(a, b, i + 1);
    }
}

/// One tokenizing step within the second half of a concatenation.
pub proof fn lemma_lexed_shift(a: Seq<char>, b: Seq<char>, i: nat)
    requires
        i <= b.len(),
    ensures
        lexed_token(a + b, a.len() + i) == lexed_token(b, i),
        lexed_end(a + b, a.len() + i) == a.len() + lexed_end(b, i),
{
    lemma_ws_run_shift(a, b, i);
    let j = i + ws_run(b, i);
    if j < b.len() {
        lemma_digit_run_shift(a, b, j);
        lemma_digit_run_bound(b, j);
        assert(forall|k: int|
            0 <= k < digit_run(b, j) ==> #[trigger] (a + b)[a.len() + j + k] == b[j + k]);
        lemma_digits_val_congruent(a + b, (a.len() + j) as nat, b, j, digit_run(b, j));
    }
}

/// Whole-text tokenization within the second half of a concatenation.
pub proof fn lemma_tokens_from_shift(a: Seq<char>, b: Seq<char>, i: nat)
    requires
        i <= b.len(),
    ensures
        tokens_from(a + b, a.len() + i) == tokens_from(b, i),
    decreases b.len() - i,
{
    lemma_lexed_shift(a, b, i);
    lemma_lexed_bounds(b, i);
    if let Some(Ok(_)) = lexed_token(b, i) {
        lemma_tokens_from_shift(a, b, lexed_end(b, i));
    }
}

/// Lexing the first rendered token: leading whitespace is skipped and the
/// token is read back exactly, provided — when it is numeric — the text
/// after it does not begin with a digit.
pub proof fn lemma_lex_one(g: Seq<char>, t: Token, rest: Seq<char>)
    requires
        all_ws(g),
        valid_token(t),
        t is Num && rest.len() > 0 ==> !is_digit(rest[0]),
    ensures
        lexed_token(g + token_chars(t) + rest, 0) == Some(Ok::<Token, ParseError>(t)),
        lexed_end(g + token_chars(t) + rest, 0) == g.len() + token_chars(t).len(),
{
    let s = g + token_chars(t) + rest;
    let tc = token_chars(t);
    if let Token::Num(n) = t {
        lemma_num_chars(n as int);
    }
    assert forall|k: int| 0 <= k < g.len() implies is_ws(#[trigger] s[k]) by {
        assert(s[k] == g[k]);
    }
    assert(!is_ws(s[g.len() as int]));
    lemma_ws_run_is(s, 0, g.len());
    let j = g.len();
    match t {
        Token::Num(n) => {
            assert forall|k: int| j <= k < j + tc.len() implies is_digit(#[trigger] s[k]) by {
                assert(s[k] == tc[k - j]);
            }
            lemma_digit_run_is(s, g.len(), tc.len());
            assert(forall|k: int| 0 <= k < tc.len() ==> #[trigger] s[j + k] == tc[0 + k]);
            lemma_digits_val_congruent(s, g.len(), tc, 0, tc.len());
            lemma_num_chars_val(n as int);
        },
        _ => {},
    }
}

/// Tokenization round-trip: a sequence of tokens the tokenizer could have
/// produced, re-serialized to text with arbitrary inter-token whitespace,
/// tokenizes back to exactly that sequence, the whitespace fully elided.
/// Between two adjacent numeric tokens the whitespace must be non-empty,
/// since their digit runs would otherwise merge.
pub proof fn lemma_tokenize_round_trip(toks: Seq<Token>, gaps: Seq<Seq<char>>)
    requires
        gaps.len() == toks.len() + 1,
        forall|i: int| 0 <= i < gaps.len() ==> all_ws(#[trigger] gaps[i]),
        forall|i: int| 0 <= i < toks.len() ==> valid_token(#[trigger] toks[i]),
        forall|i: int|
            0 < i < toks.len() && (toks[i - 1] is Num) && (toks[i] is Num) ==> gaps[i].len() > 0,
    ensures
        tokens_from(render(toks, gaps), 0) == Some(toks),
    decreases toks.len(),
{
    let s = render(toks, gaps);
    if toks.len() == 0 {
        let g = gaps[0];
        lemma_ws_run_is(g, 0, g.len());
        assert(toks =~= Seq::<Token>::empty());
    } else {
        let t0 = toks[0];
        let g0 = gaps[0];
        let rest_toks = toks.drop_first();
        let rest_gaps = gaps.drop_first();
        let rest = render(rest_toks, rest_gaps);
        assert(s == g0 + token_chars(t0) + rest);
        // When t0 is numeric, what follows it cannot begin with a digit:
        // either the next gap is non-empty whitespace, or the next token is
        // not numeric and so starts with a symbol character.
        if t0 is Num && rest.len() > 0 {
            if rest_toks.len() == 0 {
                assert(rest == rest_gaps[0]);
                assert(is_ws(rest[0]));
            } else {
                let g1 = rest_gaps[0];
                let t1 = rest_toks[0];
                assert(rest == g1 + token_chars(t1) + render(
                    rest_toks.drop_first(),
                    rest_gaps.drop_first(),
                ));
                if g1.len() > 0 {
                    assert(is_ws(rest[0]));
                    assert(!is_digit(rest[0]));
                } else {
                    assert(!(t1 is Num));
                    assert(rest[0] == token_chars(t1)[0]);
                    assert(!is_digit(rest[0]));
                }
            }
        }
        lemma_lex_one(g0, t0, rest);
        let a = g0 + token_chars(t0);
        assert(s == a + rest);
        lemma_tokens_from_shift(a, rest, 0);
        lemma_tokenize_round_trip(rest_toks, rest_gaps);
        assert(toks =~= seq![t0] + rest_toks);
    }
}

} // verus!
