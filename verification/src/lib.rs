//! Arithmetic expression parsing.
//!
//! A character-level tokenizer ([`token::Tokenizer`]) turns source text into a
//! stream of [`token::Token`] values, and a recursive-descent parser with
//! backtracking ([`sub`], [`add`], [`mul`], [`div`], [`item`], [`brackets`])
//! builds an [`Expr`] tree.  The precedence chain is
//! division > multiplication > addition > subtraction, and operators at the
//! same level group to the right (`1-2-3` is `1-(2-3)`).
//!
//! A successful top-level parse ([`parse_expr`]) must consume the entire
//! input: trailing tokens after a complete expression are rejected with
//! [`ParseError::Trailing`].

use vstd::prelude::*;

pub mod grammar;
pub mod laws;
pub mod token;

use crate::grammar::{
    full_fuel, lemma_item_advance, lemma_level_advance, lemma_level_mono, lemma_level_zero,
    parse_brackets, parse_item, parse_level,
};
use crate::token::{lemma_lexed_bounds, lexed_end, lexed_token, Token, Tokenizer};

verus! {

/// A binary arithmetic operator.
#[derive(PartialEq, Clone, Copy, Debug)]
pub enum Oper {
    Add,
    Sub,
    Div,
    Mul,
}

/// An expression tree.  `Brackets` records that a subexpression was
/// explicitly parenthesized in the source text.
#[derive(PartialEq, Debug)]
pub enum Expr {
    Brackets(Box<Expr>),
    Op(Oper, Box<Expr>, Box<Expr>),
    Num(i64),
}

impl Clone for Expr {
    /// A deep copy, equal to the original tree.
    fn clone(&self) -> (r: Self)
        ensures
            r == *self,
        decreases *self,
    {
        match self {
            Expr::Num(n) => Expr::Num(*n),
            Expr::Brackets(e) => Expr::Brackets(Box::new((**e).clone())),
            Expr::Op(o, a, b) => Expr::Op(*o, Box::new((**a).clone()), Box::new((**b).clone())),
        }
    }
}

/// Everything that can go wrong while tokenizing or parsing.
#[derive(PartialEq, Eq, Structural, Clone, Copy, Debug)]
pub enum ParseError {
    /// Lexical error: the given character is not whitespace, a digit, a
    /// bracket or one of the four operator symbols.
    Lex(char),
    /// Numeric conversion error: a run of digits does not fit in `i64`.
    Overflow,
    /// Syntax error: a specific token was required and not found.
    ExpectedToken,
    /// Syntax error: a number or a bracketed group was required.
    ExpectedItem,
    /// Syntax error: input continues after a complete expression.
    Trailing,
}

impl ParseError {
    /// A short human-readable description of the failure category.
    pub fn describe(&self) -> (r: &'static str)
        ensures
            self is Lex ==> r@ == "unexpected character"@,
            self is Overflow ==> r@ == "number too large"@,
            self is ExpectedToken ==> r@ == "expected a specific token"@,
            self is ExpectedItem ==> r@ == "expected a number or a bracketed group"@,
            self is Trailing ==> r@ == "input continues after the expression"@,
    {
        match self {
            ParseError::Lex(_) => "unexpected character",
            ParseError::Overflow => "number too large",
            ParseError::ExpectedToken => "expected a specific token",
            ParseError::ExpectedItem => "expected a number or a bracketed group",
            ParseError::Trailing => "input continues after the expression",
        }
    }
}

/// Builds the `Expr::Op` node for `o` applied to `a` and `b`.
pub fn op(o: Oper, a: Expr, b: Expr) -> (r: Expr)
    ensures
        r == Expr::Op(o, Box::new(a), Box::new(b)),
{
    Expr::Op(o, Box::new(a), Box::new(b))
}

/// A parse outcome: on success, a cursor past everything consumed together
/// with what was built; on failure, an error — and nothing consumed, since
/// the cursor handed in is never touched.
pub type ParseRes<'a, T> = Result<(Tokenizer<'a>, T), ParseError>;

/// How an executable parse outcome `r` relates to a mathematical one `m`: on
/// success the returned cursor moved over the same text to the position `m`
/// reports, with the value `m` reports; on failure, with the error `m`
/// reports.
pub open spec fn corresponds<'a, T>(
    t: Tokenizer<'a>,
    r: ParseRes<'a, T>,
    m: Result<(T, nat), ParseError>,
) -> bool {
    match r {
        Ok((it, v)) => it.wf() && it.text() == t.text() && m == Ok::<(T, nat), ParseError>(
            (v, it.cursor()),
        ),
        Err(e) => m == Err::<(T, nat), ParseError>(e),
    }
}

/// Reads one token from a copy of `t` and accepts it iff `f` does.  A
/// lexical or numeric error is passed on; any other token that `f` rejects,
/// or the end of input, is a syntax error.
pub fn token_bool<'a, F: Fn(&Token) -> bool>(t: &Tokenizer<'a>, f: F) -> (r: ParseRes<'a, Token>)
    requires
        t.wf(),
        forall|v: Token| #[trigger] f.requires((&v,)),
    ensures
        match r {
            Ok((it, v)) => it.wf() && it.text() == t.text() && it.cursor() == lexed_end(
                t.text(),
                t.cursor(),
            ) && lexed_token(t.text(), t.cursor()) == Some(Ok::<Token, ParseError>(v))
                && f.ensures((&v,), true),
            Err(e) => match lexed_token(t.text(), t.cursor()) {
                Some(Ok(v)) => e == ParseError::ExpectedToken && f.ensures((&v,), false),
                Some(Err(e2)) => e == e2,
                None => e == ParseError::ExpectedToken,
            },
        },
{
    let mut it = t.clone();
    match it.next() {
        Some(Ok(v)) => if f(&v) {
            Ok((it, v))
        } else {
            Err(ParseError::ExpectedToken)
        },
        Some(Err(e)) => Err(e),
        None => Err(ParseError::ExpectedToken),
    }
}

/// `'(' expression ')'`.
pub fn brackets<'a>(t: &Tokenizer<'a>) -> (r: ParseRes<'a, Expr>)
    requires
        t.wf(),
    ensures
        corresponds(*t, r, parse_brackets(t.text(), t.cursor())),
    decreases t.text().len() - t.cursor(), 0nat,
{
    let ghost s = t.text();
    let ghost pos = t.cursor();
    let it = t.clone();

    let (it1, tk1) = match crate::token_bool(
        &it,
        (|tk: &Token| -> (b: bool)
            ensures
                b == (*tk == Token::BrOpen),
            { *tk == Token::BrOpen }),
    ) {
        Ok(p) => p,
        Err(e) => {
            return Err(e);
        },
    };
    let ghost p1 = it1.cursor();
    proof {
        assert(tk1 == Token::BrOpen);
        lemma_lexed_bounds(s, pos);
        lemma_level_mono(s, p1, 4, (full_fuel(s) - 1) as nat, full_fuel(s));
    }
    let (it2, res) = match crate::sub(&it1) {
        Ok(p) => p,
        Err(e) => {
            return Err(e);
        },
    };
    match crate::token_bool(
        &it2,
        (|tk: &Token| -> (b: bool)
            ensures
                b == (*tk == Token::BrClose),
            { *tk == Token::BrClose }),
    ) {
        Ok((it3, _)) => Ok((it3, Expr::Brackets(Box::new(res)))),
        Err(e) => Err(e),
    }
}

/// `brackets | number`.  The bracket attempt works on a copy of the cursor,
/// so when it fails the number is read from the unchanged starting position.
pub fn item<'a>(t: &Tokenizer<'a>) -> (r: ParseRes<'a, Expr>)
    requires
        t.wf(),
    ensures
        corresponds(*t, r, parse_item(t.text(), t.cursor())),
    decreases t.text().len() - t.cursor(), 1nat,
{
    match crate::brackets(t) {
        Ok(v) => Ok(v),
        Err(_) => {
            let mut it = t.clone();
            match it.next() {
                Some(Ok(Token::Num(n))) => Ok((it, Expr::Num(n))),
                Some(Err(e)) => Err(e),
                _ => Err(ParseError::ExpectedItem),
            }
        },
    }
}

/// `item ( '/' div )?` — division, the tightest-binding operator.
pub fn div<'a>(t: &Tokenizer<'a>) -> (r: ParseRes<'a, Expr>)
    requires
        t.wf(),
    ensures
        corresponds(*t, r, parse_level(t.text(), t.cursor(), 1)),
    decreases t.text().len() - t.cursor(), 2nat,
{
    let ghost s = t.text();
    let ghost pos = t.cursor();
    proof {
        lemma_level_zero(s, pos, full_fuel(s));
    }
    let (it, left) = match crate::item(t) {
        Ok(p) => p,
        Err(e) => {
            return Err(e);
        },
    };
    let ghost p1 = it.cursor();
    match crate::token_bool(
        &it,
        (|tk: &Token| -> (b: bool)
            ensures
                b == (*tk == Token::Div),
            { *tk == Token::Div }),
    ) {
        Ok((divit, _)) => {
            proof {
                lemma_item_advance(s, pos, full_fuel(s));
                lemma_lexed_bounds(s, p1);
                lemma_level_mono(s, divit.cursor(), 1, (full_fuel(s) - 1) as nat, full_fuel(s));
            }
            let (rit, right) = match crate::div(&divit) {
                Ok(p) => p,
                Err(e) => {
                    return Err(e);
                },
            };
            Ok((rit, crate::op(Oper::Div, left, right)))
        },
        Err(_) => Ok((it, left)),
    }
}

/// `div ( '*' mul )?` — multiplication.
pub fn mul<'a>(t: &Tokenizer<'a>) -> (r: ParseRes<'a, Expr>)
    requires
        t.wf(),
    ensures
        corresponds(*t, r, parse_level(t.text(), t.cursor(), 2)),
    decreases t.text().len() - t.cursor(), 3nat,
{
    let ghost s = t.text();
    let ghost pos = t.cursor();
    let (it, left) = match crate::div(t) {
        Ok(p) => p,
        Err(e) => {
            return Err(e);
        },
    };
    let ghost p1 = it.cursor();
    match crate::token_bool(
        &it,
        (|tk: &Token| -> (b: bool)
            ensures
                b == (*tk == Token::Mul),
            { *tk == Token::Mul }),
    ) {
        Ok((opit, _)) => {
            proof {
                lemma_level_advance(s, pos, 1, full_fuel(s));
                lemma_lexed_bounds(s, p1);
                lemma_level_mono(s, opit.cursor(), 2, (full_fuel(s) - 1) as nat, full_fuel(s));
            }
            let (rit, right) = match crate::mul(&opit) {
                Ok(p) => p,
                Err(e) => {
                    return Err(e);
                },
            };
            Ok((rit, crate::op(Oper::Mul, left, right)))
        },
        Err(_) => Ok((it, left)),
    }
}

/// `mul ( '+' add )?` — addition.
pub fn add<'a>(t: &Tokenizer<'a>) -> (r: ParseRes<'a, Expr>)
    requires
        t.wf(),
    ensures
        corresponds(*t, r, parse_level(t.text(), t.cursor(), 3)),
    decreases t.text().len() - t.cursor(), 4nat,
{
    let ghost s = t.text();
    let ghost pos = t.cursor();
    let (it, left) = match crate::mul(t) {
        Ok(p) => p,
        Err(e) => {
            return Err(e);
        },
    };
    let ghost p1 = it.cursor();
    match crate::token_bool(
        &it,
        (|tk: &Token| -> (b: bool)
            ensures
                b == (*tk == Token::Add),
            { *tk == Token::Add }),
    ) {
        Ok((opit, _)) => {
            proof {
                lemma_level_advance(s, pos, 2, full_fuel(s));
                lemma_lexed_bounds(s, p1);
                lemma_level_mono(s, opit.cursor(), 3, (full_fuel(s) - 1) as nat, full_fuel(s));
            }
            let (rit, right) = match crate::add(&opit) {
                Ok(p) => p,
                Err(e) => {
                    return Err(e);
                },
            };
            Ok((rit, crate::op(Oper::Add, left, right)))
        },
        Err(_) => Ok((it, left)),
    }
}

/// `add ( '-' sub )?` — subtraction, the loosest-binding operator and the
/// grammar's start symbol.
pub fn sub<'a>(t: &Tokenizer<'a>) -> (r: ParseRes<'a, Expr>)
    requires
        t.wf(),
    ensures
        corresponds(*t, r, parse_level(t.text(), t.cursor(), 4)),
    decreases t.text().len() - t.cursor(), 5nat,
{
    let ghost s = t.text();
    let ghost pos = t.cursor();
    let (it, left) = match crate::add(t) {
        Ok(p) => p,
        Err(e) => {
            return Err(e);
        },
    };
    let ghost p1 = it.cursor();
    match crate::token_bool(
        &it,
        (|tk: &Token| -> (b: bool)
            ensures
                b == (*tk == Token::Sub),
            { *tk == Token::Sub }),
    ) {
        Ok((opit, _)) => {
            proof {
                lemma_level_advance(s, pos, 3, full_fuel(s));
                lemma_lexed_bounds(s, p1);
                lemma_level_mono(s, opit.cursor(), 4, (full_fuel(s) - 1) as nat, full_fuel(s));
            }
            let (rit, right) = match crate::sub(&opit) {
                Ok(p) => p,
                Err(e) => {
                    return Err(e);
                },
            };
            Ok((rit, crate::op(Oper::Sub, left, right)))
        },
        Err(_) => Ok((it, left)),
    }
}

/// What parsing a whole text yields: the start symbol `sub` from the
/// beginning, after which the input must be exhausted.  A token left over is
/// [`ParseError::Trailing`]; a lexical or numeric error there is passed on.
pub open spec fn spec_parse_expr(s: Seq<char>) -> Result<Expr, ParseError> {
    match parse_level(s, 0, 4) {
        Ok((e, p)) => match lexed_token(s, p) {
            None => Ok(e),
            Some(Ok(_)) => Err(ParseError::Trailing),
            Some(Err(e2)) => Err(e2),
        },
        Err(e) => Err(e),
    }
}

/// Parses `s` as one complete arithmetic expression.  Trailing input after
/// the expression is rejected.
pub fn parse_expr(s: &str) -> (r: Result<Expr, ParseError>)
    ensures
        r == spec_parse_expr(s@),
{
    let t = Tokenizer::new(s);
    match crate::sub(&t) {
        Ok((mut it, e)) => match it.next() {
            None => Ok(e),
            Some(Ok(_)) => Err(ParseError::Trailing),
            Some(Err(e2)) => Err(e2),
        },
        Err(e) => Err(e),
    }
}

impl core::str::FromStr for Expr {
    type Err = ParseError;

    /// Parses `s` as one complete arithmetic expression, as [`parse_expr`].
    fn from_str(s: &str) -> Result<Expr, ParseError> {
        parse_expr(s)
    }
}

} // verus!
