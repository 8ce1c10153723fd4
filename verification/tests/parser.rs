use sums::token::{Token, Tokenizer};
use sums::{
    add, brackets, div, item, mul, op, parse_expr, sub, token_bool, Expr, Oper, ParseError,
};

#[test]
fn test_strs() {
    let e: Expr = "3 + 5 *   (7-3)".parse().unwrap();

    assert_eq!(
        e,
        op(
            Oper::Add,
            Expr::Num(3),
            op(
                Oper::Mul,
                Expr::Num(5),
                Expr::Brackets(Box::new(op(Oper::Sub, Expr::Num(7), Expr::Num(3))))
            )
        )
    );
}

#[test]
fn test_precedence() {
    let e: Expr = "23+4".parse().unwrap();
    assert_eq!(e, op(Oper::Add, Expr::Num(23), Expr::Num(4)));

    // division binds tighter than multiplication in this grammar's chain
    let e: Expr = "8/4*2".parse().unwrap();
    assert_eq!(
        e,
        op(Oper::Mul, op(Oper::Div, Expr::Num(8), Expr::Num(4)), Expr::Num(2))
    );

    // multiplication binds tighter than addition
    let e: Expr = "1+2*3".parse().unwrap();
    assert_eq!(
        e,
        op(Oper::Add, Expr::Num(1), op(Oper::Mul, Expr::Num(2), Expr::Num(3)))
    );
}

#[test]
fn test_right_associativity() {
    let e: Expr = "1-2-3".parse().unwrap();
    assert_eq!(
        e,
        op(Oper::Sub, Expr::Num(1), op(Oper::Sub, Expr::Num(2), Expr::Num(3)))
    );
}

#[test]
fn test_bracket_balance() {
    let e: Expr = "(34)".parse().unwrap();
    assert_eq!(e, Expr::Brackets(Box::new(Expr::Num(34))));

    // unclosed bracket: a syntax error
    assert_eq!("(34".parse::<Expr>(), Err(ParseError::ExpectedItem));

    // the bare expression parses, and the trailing bracket is rejected by
    // the whole-input policy
    assert_eq!("34)".parse::<Expr>(), Err(ParseError::Trailing));
}

#[test]
fn test_parse_lex_error() {
    assert_eq!("3+#".parse::<Expr>(), Err(ParseError::Lex('#')));
    assert_eq!(parse_expr("3 # 4"), Err(ParseError::Lex('#')));
}

#[test]
fn test_backtracking() {
    // brackets is attempted first and fails; the number is still read from
    // the untouched starting position
    let e: Expr = "5".parse().unwrap();
    assert_eq!(e, Expr::Num(5));

    let t = Tokenizer::new("5");
    assert!(brackets(&t).is_err());
    let (_, e2) = item(&t).unwrap();
    assert_eq!(e2, Expr::Num(5));
}

#[test]
fn test_error_variants() {
    assert_eq!("".parse::<Expr>(), Err(ParseError::ExpectedItem));
    assert_eq!("1-".parse::<Expr>(), Err(ParseError::ExpectedItem));
    assert_eq!("9223372036854775808".parse::<Expr>(), Err(ParseError::Overflow));
    let t = Tokenizer::new("3");
    assert_eq!(
        token_bool(&t, |tk| *tk == Token::BrClose).unwrap_err(),
        ParseError::ExpectedToken
    );
}

#[test]
fn test_describe() {
    assert_eq!(ParseError::Lex('#').describe(), "unexpected character");
    assert_eq!(ParseError::Overflow.describe(), "number too large");
    assert_eq!(
        ParseError::Trailing.describe(),
        "input continues after the expression"
    );
}

#[test]
fn test_token_bool() {
    let t = Tokenizer::new("+3");
    let (it, v) = token_bool(&t, |tk| *tk == Token::Add).unwrap();
    assert_eq!(v, Token::Add);
    let (_, v2) = token_bool(&it, |tk| matches!(tk, Token::Num(_))).unwrap();
    assert_eq!(v2, Token::Num(3));
    assert!(token_bool(&t, |tk| *tk == Token::Sub).is_err());
}

#[test]
fn test_grammar_functions() {
    let t = Tokenizer::new("8/4*2");
    let (_, e) = div(&t).unwrap();
    assert_eq!(e, op(Oper::Div, Expr::Num(8), Expr::Num(4)));
    let (_, e) = mul(&t).unwrap();
    assert_eq!(
        e,
        op(Oper::Mul, op(Oper::Div, Expr::Num(8), Expr::Num(4)), Expr::Num(2))
    );
    let (_, e) = add(&Tokenizer::new("1+2")).unwrap();
    assert_eq!(e, op(Oper::Add, Expr::Num(1), Expr::Num(2)));
    let (_, e) = sub(&Tokenizer::new("1-2")).unwrap();
    assert_eq!(e, op(Oper::Sub, Expr::Num(1), Expr::Num(2)));
}

#[test]
fn test_nested_brackets() {
    let e: Expr = "((1))".parse().unwrap();
    assert_eq!(
        e,
        Expr::Brackets(Box::new(Expr::Brackets(Box::new(Expr::Num(1)))))
    );
}

#[test]
fn test_expr_clone() {
    let e: Expr = "1+(2*3)".parse().unwrap();
    assert_eq!(e.clone(), e);
}
