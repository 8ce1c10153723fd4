//! The grammar, as mathematics.
//!
//! One spec function per syntactic form, mirroring the productions
//!
//! ```text
//! sub      := add ( '-' sub )?       level 4, loosest
//! add      := mul ( '+' add )?       level 3
//! mul      := div ( '*' mul )?       level 2
//! div      := item ( '/' div )?      level 1, tightest operator
//! item     := brackets | number      level 0
//! brackets := '(' sub ')'
//! ```
//!
//! The binary levels are one parameterized definition, [`parse_level_fuel`].
//! Its termination cannot rest on the cursor alone (how far a subexpression
//! reaches is only known once it is parsed), so the definitions carry a
//! `fuel` bound on the recursion depth.  Since every spent unit of fuel
//! follows the consumption of at least one character, [`full_fuel`] is always
//! enough, and [`lemma_level_mono`] shows the result is then independent of
//! the exact bound.  The fuel-free functions [`parse_level`], [`parse_item`]
//! and [`parse_brackets`] are what the executable parser is proved against.

use vstd::prelude::*;

use crate::token::{lemma_lexed_bounds, lexed_end, lexed_token, Token};
use crate::{Expr, Oper, ParseError};

verus! {

/// The operator token consumed at binary precedence level `lvl`
/// (1 = division, 2 = multiplication, 3 = addition, 4 = subtraction).
pub open spec fn level_token(lvl: nat) -> Token {
    if lvl == 1 {
        Token::Div
    } else if lvl == 2 {
        Token::Mul
    } else if lvl == 3 {
        Token::Add
    } else {
        Token::Sub
    }
}

/// The operator built at binary precedence level `lvl`.
pub open spec fn level_oper(lvl: nat) -> Oper {
    if lvl == 1 {
        Oper::Div
    } else if lvl == 2 {
        Oper::Mul
    } else if lvl == 3 {
        Oper::Add
    } else {
        Oper::Sub
    }
}

/// Demands exactly the token `t` at `pos`: on success, the position after
/// it.  A lexical or numeric error there is passed on; any other token, or
/// the end of input, is a syntax error.
pub open spec fn spec_expect(s: Seq<char>, pos: nat, t: Token) -> Result<nat, ParseError> {
    match lexed_token(s, pos) {
        Some(Ok(v)) => if v == t {
            Ok(lexed_end(s, pos))
        } else {
            Err(ParseError::ExpectedToken)
        },
        Some(Err(e)) => Err(e),
        None => Err(ParseError::ExpectedToken),
    }
}

/// A bare numeric literal at `pos`.
pub open spec fn parse_number(s: Seq<char>, pos: nat) -> Result<(Expr, nat), ParseError> {
    match lexed_token(s, pos) {
        Some(Ok(Token::Num(n))) => Ok((Expr::Num(n), lexed_end(s, pos))),
        Some(Err(e)) => Err(e),
        _ => Err(ParseError::ExpectedItem),
    }
}

/// `'(' expression ')'`, with `fuel` bounding the recursion depth.
pub open spec fn parse_brackets_fuel(s: Seq<char>, pos: nat, fuel: nat) -> Result<
    (Expr, nat),
    ParseError,
>
    decreases fuel, 0nat,
{
    match spec_expect(s, pos, Token::BrOpen) {
        Ok(p1) => if fuel == 0 {
            Err(ParseError::ExpectedItem)
        } else {
            match parse_level_fuel(s, p1, 4, (fuel - 1) as nat) {
                Ok((e, p2)) => match spec_expect(s, p2, Token::BrClose) {
                    Ok(p3) => Ok((Expr::Brackets(Box::new(e)), p3)),
                    Err(e2) => Err(e2),
                },
                Err(e1) => Err(e1),
            }
        },
        Err(e0) => Err(e0),
    }
}

/// A single item: a bracketed group, or — falling back to the very same
/// starting position — a number.
pub open spec fn parse_item_fuel(s: Seq<char>, pos: nat, fuel: nat) -> Result<
    (Expr, nat),
    ParseError,
>
    decreases fuel, 1nat,
{
    match parse_brackets_fuel(s, pos, fuel) {
        Ok(r) => Ok(r),
        Err(_) => parse_number(s, pos),
    }
}

/// The precedence chain.  Level 0 is an item; level `lvl >= 1` parses one
/// level-`lvl - 1` expression and, when the level's operator follows,
/// recurses at the same level for the right operand, so chains of one
/// operator group to the right.  When the operator is absent — or the next
/// token cannot be read at all — the left operand alone is the result.
pub open spec fn parse_level_fuel(s: Seq<char>, pos: nat, lvl: nat, fuel: nat) -> Result<
    (Expr, nat),
    ParseError,
>
    decreases fuel, lvl + 2,
{
    if lvl == 0 {
        parse_item_fuel(s, pos, fuel)
    } else {
        match parse_level_fuel(s, pos, (lvl - 1) as nat, fuel) {
            Ok((left, p1)) => match spec_expect(s, p1, level_token(lvl)) {
                Ok(p2) => if fuel == 0 {
                    Err(ParseError::ExpectedItem)
                } else {
                    match parse_level_fuel(s, p2, lvl, (fuel - 1) as nat) {
                        Ok((right, p3)) => Ok(
                            (Expr::Op(level_oper(lvl), Box::new(left), Box::new(right)), p3),
                        ),
                        Err(e) => Err(e),
                    }
                },
                Err(_) => Ok((left, p1)),
            },
            Err(e) => Err(e),
        }
    }
}

/// Always enough fuel for a parse of `s`: spending a unit of fuel follows
/// the consumption of at least one character.
pub open spec fn full_fuel(s: Seq<char>) -> nat {
    s.len() + 1
}

/// The precedence level `lvl` production at `pos`.
pub open spec fn parse_level(s: Seq<char>, pos: nat, lvl: nat) -> Result<(Expr, nat), ParseError> {
    parse_level_fuel(s, pos, lvl, full_fuel(s))
}

/// The `item` production at `pos`.
pub open spec fn parse_item(s: Seq<char>, pos: nat) -> Result<(Expr, nat), ParseError> {
    parse_item_fuel(s, pos, full_fuel(s))
}

/// The `brackets` production at `pos`.
pub open spec fn parse_brackets(s: Seq<char>, pos: nat) -> Result<(Expr, nat), ParseError> {
    parse_brackets_fuel(s, pos, full_fuel(s))
}

/// Level 0 of the precedence chain is exactly the `item` production.
pub proof fn lemma_level_zero(s: Seq<char>, pos: nat, fuel: nat)
    ensures
        parse_level_fuel(s, pos, 0, fuel) == parse_item_fuel(s, pos, fuel),
{
}

/// A successful bracket parse consumes at least one character and stays
/// within the text.
pub proof fn lemma_brackets_advance(s: Seq<char>, pos: nat, fuel: nat)
    requires
        pos <= s.len(),
    ensures
        parse_brackets_fuel(s, pos, fuel) matches Ok((e, p)) ==> pos < p <= s.len(),
    decreases fuel, 0nat,
{
    lemma_lexed_bounds(s, pos);
    if let Ok(p1) = spec_expect(s, pos, Token::BrOpen) {
        if fuel > 0 {
            lemma_level_advance(s, p1, 4, (fuel - 1) as nat);
            if let Ok((e, p2)) = parse_level_fuel(s, p1, 4, (fuel - 1) as nat) {
                lemma_lexed_bounds(s, p2);
            }
        }
    }
}

/// A successful item parse consumes at least one character and stays within
/// the text.
pub proof fn lemma_item_advance(s: Seq<char>, pos: nat, fuel: nat)
    requires
        pos <= s.len(),
    ensures
        parse_item_fuel(s, pos, fuel) matches Ok((e, p)) ==> pos < p <= s.len(),
    decreases fuel, 1nat,
{
    lemma_brackets_advance(s, pos, fuel);
    lemma_lexed_bounds(s, pos);
}

/// A successful level parse consumes at least one character and stays within
/// the text.
pub proof fn lemma_level_advance(s: Seq<char>, pos: nat, lvl: nat, fuel: nat)
    requires
        pos <= s.len(),
    ensures
        parse_level_fuel(s, pos, lvl, fuel) matches Ok((e, p)) ==> pos < p <= s.len(),
    decreases fuel, lvl + 2,
{
    if lvl == 0 {
        lemma_item_advance(s, pos, fuel);
    } else {
        lemma_level_advance(s, pos, (lvl - 1) as nat, fuel);
        if let Ok((left, p1)) = parse_level_fuel(s, pos, (lvl - 1) as nat, fuel) {
            lemma_lexed_bounds(s, p1);
            if spec_expect(s, p1, level_token(lvl)) is Ok && fuel > 0 {
                let p2 = spec_expect(s, p1, level_token(lvl))->Ok_0;
                lemma_level_advance(s, p2, lvl, (fuel - 1) as nat);
            }
        }
    }
}

/// With enough fuel, a bracket parse does not depend on the exact amount.
pub proof fn lemma_brackets_mono(s: Seq<char>, pos: nat, fuel1: nat, fuel2: nat)
    requires
        pos <= s.len(),
        fuel1 >= s.len() - pos + 1,
        fuel2 >= s.len() - pos + 1,
    ensures
        parse_brackets_fuel(s, pos, fuel1) == parse_brackets_fuel(s, pos, fuel2),
    decreases s.len() - pos, 0nat,
{
    lemma_lexed_bounds(s, pos);
    if let Ok(p1) = spec_expect(s, pos, Token::BrOpen) {
        lemma_level_mono(s, p1, 4, (fuel1 - 1) as nat, (fuel2 - 1) as nat);
    }
}

/// With enough fuel, an item parse does not depend on the exact amount.
pub proof fn lemma_item_mono(s: Seq<char>, pos: nat, fuel1: nat, fuel2: nat)
    requires
        pos <= s.len(),
        fuel1 >= s.len() - pos + 1,
        fuel2 >= s.len() - pos + 1,
    ensures
        parse_item_fuel(s, pos, fuel1) == parse_item_fuel(s, pos, fuel2),
    decreases s.len() - pos, 1nat,
{
    lemma_brackets_mono(s, pos, fuel1, fuel2);
}

/// With enough fuel, a level parse does not depend on the exact amount.
pub proof fn lemma_level_mono(s: Seq<char>, pos: nat, lvl: nat, fuel1: nat, fuel2: nat)
    requires
        pos <= s.len(),
        fuel1 >= s.len() - pos + 1,
        fuel2 >= s.len() - pos + 1,
    ensures
        parse_level_fuel(s, pos, lvl, fuel1) == parse_level_fuel(s, pos, lvl, fuel2),
    decreases s.len() - pos, lvl + 2,
{
    if lvl == 0 {
        lemma_item_mono(s, pos, fuel1, fuel2);
    } else {
        lemma_level_mono(s, pos, (lvl - 1) as nat, fuel1, fuel2);
        lemma_level_advance(s, pos, (lvl - 1) as nat, fuel1);
        if let Ok((left, p1)) = parse_level_fuel(s, pos, (lvl - 1) as nat, fuel1) {
            lemma_lexed_bounds(s, p1);
            if let Ok(p2) = spec_expect(s, p1, level_token(lvl)) {
                lemma_level_mono(s, p2, lvl, (fuel1 - 1) as nat, (fuel2 - 1) as nat);
            }
        }
    }
}

/// A failed bracket attempt leaves no trace: the fallback reads the number
/// from the very position the bracket attempt started at.
pub proof fn lemma_item_backtracks(s: Seq<char>, pos: nat)
    ensures
        parse_brackets(s, pos) is Err ==> parse_item(s, pos) == parse_number(s, pos),
{
}

} // verus!
