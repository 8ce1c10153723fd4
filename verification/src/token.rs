//! Character-level tokenizer.
//!
//! A [`Tokenizer`] is a plain value: an immutable source text together with a
//! cursor.  Cloning one and reading from the clone never disturbs the
//! original, which is what makes the parser's backtracking safe.  What
//! [`Tokenizer::next`] returns is a pure function of the text and the cursor,
//! stated by the spec functions [`lexed_token`] and [`lexed_end`].

use vstd::prelude::*;

use crate::ParseError;

verus! {

/// One lexical unit: a bracket, an operator symbol, or a number.
#[derive(Debug, Clone, Copy, PartialEq, Eq, Structural)]
pub enum Token {
    BrOpen,
    BrClose,
    Add,
    Sub,
    Div,
    Mul,
    Num(i64),
}

/// The whitespace characters that are skipped between tokens.
pub open spec fn is_ws(c: char) -> bool {
    c == ' ' || c == '\n' || c == '\t'
}

/// ASCII decimal digits.
pub open spec fn is_digit(c: char) -> bool {
    48 <= c as int && c as int <= 57
}

/// The numeric value of an ASCII digit.
pub open spec fn digit_val(c: char) -> int {
    c as int - 48
}

/// The token denoted by a single-character symbol, if any.
pub open spec fn char_token(c: char) -> Option<Token> {
    if c == '(' {
        Some(Token::BrOpen)
    } else if c == ')' {
        Some(Token::BrClose)
    } else if c == '+' {
        Some(Token::Add)
    } else if c == '-' {
        Some(Token::Sub)
    } else if c == '*' {
        Some(Token::Mul)
    } else if c == '/' {
        Some(Token::Div)
    } else {
        None
    }
}

/// Length of the whitespace run starting at `i`.
pub open spec fn ws_run(s: Seq<char>, i: nat) -> nat
    decreases s.len() - i,
{
    if i < s.len() && is_ws(s[i as int]) {
        1 + ws_run(s, i + 1)
    } else {
        0
    }
}

/// Length of the digit run starting at `i`.
pub open spec fn digit_run(s: Seq<char>, i: nat) -> nat
    decreases s.len() - i,
{
    if i < s.len() && is_digit(s[i as int]) {
        1 + digit_run(s, i + 1)
    } else {
        0
    }
}

/// The value of the `n` digits of `s` starting at `i`, accumulated left to
/// right as `value * 10 + digit`.
pub open spec fn digits_val(s: Seq<char>, i: nat, n: nat) -> int
    decreases n,
{
    if n == 0 {
        0
    } else {
        digits_val(s, i, (n - 1) as nat) * 10 + digit_val(s[i + n - 1])
    }
}

/// What tokenizing `s` from position `pos` produces: `None` at the end of
/// input, `Some(Ok(t))` for a token, `Some(Err(e))` for a lexical or numeric
/// error.
pub open spec fn lexed_token(s: Seq<char>, pos: nat) -> Option<Result<Token, ParseError>> {
    let j = pos + ws_run(s, pos);
    if j >= s.len() {
        None
    } else {
        let c = s[j as int];
        match char_token(c) {
            Some(t) => Some(Ok(t)),
            None => if is_digit(c) {
                let v = digits_val(s, j, digit_run(s, j));
                if v <= i64::MAX {
                    Some(Ok(Token::Num(v as i64)))
                } else {
                    Some(Err(ParseError::Overflow))
                }
            } else {
                Some(Err(ParseError::Lex(c)))
            },
        }
    }
}

/// The cursor position after the step described by [`lexed_token`].
pub open spec fn lexed_end(s: Seq<char>, pos: nat) -> nat {
    let j = pos + ws_run(s, pos);
    if j >= s.len() {
        s.len()
    } else {
        let c = s[j as int];
        match char_token(c) {
            Some(t) => j + 1,
            None => if is_digit(c) {
                j + digit_run(s, j)
            } else {
                j + 1
            },
        }
    }
}

/// The whitespace run never reaches past the end of the text.
pub proof fn lemma_ws_run_bound(s: Seq<char>, i: nat)
    requires
        i <= s.len(),
    ensures
        i + ws_run(s, i) <= s.len(),
    decreases s.len() - i,
{
    if i < s.len() && is_ws(s[i as int]) {
        lemma_ws_run_bound(s, i + 1);
    }
}

/// The digit run never reaches past the end of the text.
pub proof fn lemma_digit_run_bound(s: Seq<char>, i: nat)
    requires
        i <= s.len(),
    ensures
        i + digit_run(s, i) <= s.len(),
    decreases s.len() - i,
{
    if i < s.len() && is_digit(s[i as int]) {
        lemma_digit_run_bound(s, i + 1);
    }
}

/// A run of digits accumulates to a non-negative value.
pub proof fn lemma_digits_val_nonneg(s: Seq<char>, i: nat, n: nat)
    requires
        forall|k: int| i <= k < i + n ==> is_digit(#[trigger] s[k]),
    ensures
        digits_val(s, i, n) >= 0,
    decreases n,
{
    if n > 0 {
        lemma_digits_val_nonneg(s, i, (n - 1) as nat);
    }
}

/// Bounds on the cursor movement of one tokenizing step: a step that
/// produces something always advances, and the end of input is reported
/// exactly at the end of the text.
pub proof fn lemma_lexed_bounds(s: Seq<char>, pos: nat)
    requires
        pos <= s.len(),
    ensures
        lexed_token(s, pos) is Some ==> pos < lexed_end(s, pos),
        lexed_token(s, pos) is None ==> lexed_end(s, pos) == s.len(),
        pos <= lexed_end(s, pos) <= s.len(),
{
    lemma_ws_run_bound(s, pos);
    let j = pos + ws_run(s, pos);
    if j < s.len() {
        lemma_digit_run_bound(s, j);
    }
}

/// An unsupported character — one that after whitespace skipping is not a
/// digit and not one of the bracket or operator symbols — is reported as a
/// lexical error carrying exactly that character.
pub proof fn lemma_lex_failure(s: Seq<char>, pos: nat)
    requires
        pos + ws_run(s, pos) < s.len(),
        char_token(s[(pos + ws_run(s, pos)) as int]) is None,
        !is_digit(s[(pos + ws_run(s, pos)) as int]),
    ensures
        lexed_token(s, pos) == Some(
            Err::<Token, ParseError>(ParseError::Lex(s[(pos + ws_run(s, pos)) as int])),
        ),
{
}

/// Consumes the maximal digit run of `s` beginning at `start`, which must be
/// a digit, accumulating its value as `value * 10 + digit`.  Returns the
/// value, or `None` when the run does not fit in `i64`, together with the
/// position just past the run.
pub fn num_token(s: &str, start: usize) -> (r: (Option<i64>, usize))
    requires
        start < s@.len(),
        is_digit(s@[start as int]),
    ensures
        r.1 == start + digit_run(s@, start as nat),
        ({
            let v = digits_val(s@, start as nat, digit_run(s@, start as nat));
            if v <= i64::MAX {
                r.0 == Some(v as i64)
            } else {
                r.0 is None
            }
        }),
{
    let ghost sq = s@;
    let n = s.unicode_len();
    let mut k = start;
    let mut acc: Option<i64> = Some(0i64);
    loop
        invariant
            start <= k <= n,
            n == sq.len(),
            sq == s@,
            forall|t: int| start <= t < k ==> is_digit(#[trigger] sq[t]),
            digit_run(sq, start as nat) == (k - start) + digit_run(sq, k as nat),
            ({
                let v = digits_val(sq, start as nat, (k - start) as nat);
                if v <= i64::MAX {
                    acc == Some(v as i64)
                } else {
                    acc is None
                }
            }),
        decreases sq.len() - k,
    {
        if k >= n {
            return (acc, k);
        }
        let c = s.get_char(k);
        let cu = c as u32;
        if !(cu >= 48 && cu <= 57) {
            return (acc, k);
        }
        let d = (cu - 48) as i64;
        proof {
            assert(forall|t: int| start <= t < k + 1 ==> is_digit(#[trigger] sq[t]));
            lemma_digits_val_nonneg(sq, start as nat, (k - start) as nat);
            assert(digits_val(sq, start as nat, (k + 1 - start) as nat) == digits_val(
                sq,
                start as nat,
                (k - start) as nat,
            ) * 10 + digit_val(sq[k as int]));
        }
        acc = match acc {
            Some(a) => match a.checked_mul(10) {
                Some(m) => m.checked_add(d),
                None => None,
            },
            None => None,
        };
        k = k + 1;
    }
}

/// One tokenizing step on `s` from `pos`: what was lexed (`None` at the end
/// of input) and the cursor position after it.
fn lex_step(s: &str, pos: usize) -> (r: (Option<Result<Token, ParseError>>, usize))
    requires
        pos <= s@.len(),
    ensures
        r.0 == lexed_token(s@, pos as nat),
        r.1 == lexed_end(s@, pos as nat),
        r.1 <= s@.len(),
{
    let ghost sq = s@;
    let n = s.unicode_len();
    let mut j = pos;
    loop
        invariant
            pos <= j <= n,
            n == sq.len(),
            sq == s@,
            ws_run(sq, pos as nat) == (j - pos) + ws_run(sq, j as nat),
        decreases sq.len() - j,
    {
        if j >= n {
            return (None, j);
        }
        let c = s.get_char(j);
        if c == ' ' || c == '\n' || c == '\t' {
            j = j + 1;
        } else {
            let tok: Option<Token> = if c == '(' {
                Some(Token::BrOpen)
            } else if c == ')' {
                Some(Token::BrClose)
            } else if c == '+' {
                Some(Token::Add)
            } else if c == '-' {
                Some(Token::Sub)
            } else if c == '*' {
                Some(Token::Mul)
            } else if c == '/' {
                Some(Token::Div)
            } else {
                None
            };
            match tok {
                Some(t) => {
                    return (Some(Ok(t)), j + 1);
                },
                None => {
                    let cu = c as u32;
                    if cu >= 48 && cu <= 57 {
                        proof {
                            lemma_digit_run_bound(sq, j as nat);
                        }
                        let (v, end) = num_token(s, j);
                        match v {
                            Some(x) => {
                                return (Some(Ok(Token::Num(x))), end);
                            },
                            None => {
                                return (Some(Err(ParseError::Overflow)), end);
                            },
                        }
                    } else {
                        return (Some(Err(ParseError::Lex(c))), j + 1);
                    }
                },
            }
        }
    }
}

/// A restartable cursor into a source text.
#[derive(Debug, Clone, Copy)]
pub struct Tokenizer<'a> {
    src: &'a str,
    pos: usize,
}

impl<'a> Tokenizer<'a> {
    /// The source text as a sequence of characters.
    pub closed spec fn text(self) -> Seq<char> {
        self.src@
    }

    /// The current cursor position, in characters.
    pub closed spec fn cursor(self) -> nat {
        self.pos as nat
    }

    /// The cursor never points past the end of the text.
    pub open spec fn wf(self) -> bool {
        self.cursor() <= self.text().len()
    }

    /// A tokenizer positioned at the start of `s`.
    pub fn new(s: &'a str) -> (t: Self)
        ensures
            t.wf(),
            t.text() == s@,
            t.cursor() == 0,
    {
        Tokenizer { src: s, pos: 0 }
    }

    /// The next token, or `None` at the end of input, advancing the cursor.
    pub fn next(&mut self) -> (r: Option<Result<Token, ParseError>>)
        requires
            old(self).wf(),
        ensures
            final(self).wf(),
            final(self).text() == old(self).text(),
            r == lexed_token(old(self).text(), old(self).cursor()),
            final(self).cursor() == lexed_end(old(self).text(), old(self).cursor()),
    {
        let (r, end) = lex_step(self.src, self.pos);
        self.pos = end;
        r
    }
}

} // verus!
