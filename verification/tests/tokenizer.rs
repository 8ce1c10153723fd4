use sums::token::{num_token, Token, Tokenizer};
use sums::ParseError;

#[test]
fn test_tokenizer() {
    let mut tk = Tokenizer::new("34+45    + (34)");
    assert_eq!(tk.next(), Some(Ok(Token::Num(34))));
    assert_eq!(tk.next(), Some(Ok(Token::Add)));
    assert_eq!(tk.next(), Some(Ok(Token::Num(45))));
    assert_eq!(tk.next(), Some(Ok(Token::Add)));
    assert_eq!(tk.next(), Some(Ok(Token::BrOpen)));
    assert_eq!(tk.next(), Some(Ok(Token::Num(34))));
    assert_eq!(tk.next(), Some(Ok(Token::BrClose)));
}

#[test]
fn test_digit_accumulation() {
    let mut tk = Tokenizer::new("34");
    assert_eq!(tk.next(), Some(Ok(Token::Num(34))));
    assert_eq!(tk.next(), None);
    let mut tk = Tokenizer::new("034");
    assert_eq!(tk.next(), Some(Ok(Token::Num(34))));
    assert_eq!(tk.next(), None);
}

#[test]
fn test_whitespace_elided() {
    let mut tk = Tokenizer::new(" \t7\n* 8 ");
    assert_eq!(tk.next(), Some(Ok(Token::Num(7))));
    assert_eq!(tk.next(), Some(Ok(Token::Mul)));
    assert_eq!(tk.next(), Some(Ok(Token::Num(8))));
    assert_eq!(tk.next(), None);
}

#[test]
fn test_all_symbols() {
    let mut tk = Tokenizer::new("()+-*/");
    assert_eq!(tk.next(), Some(Ok(Token::BrOpen)));
    assert_eq!(tk.next(), Some(Ok(Token::BrClose)));
    assert_eq!(tk.next(), Some(Ok(Token::Add)));
    assert_eq!(tk.next(), Some(Ok(Token::Sub)));
    assert_eq!(tk.next(), Some(Ok(Token::Mul)));
    assert_eq!(tk.next(), Some(Ok(Token::Div)));
    assert_eq!(tk.next(), None);
}

#[test]
fn test_lex_failure() {
    let mut tk = Tokenizer::new("#");
    assert_eq!(tk.next(), Some(Err(ParseError::Lex('#'))));
    let mut tk = Tokenizer::new("12 %");
    assert_eq!(tk.next(), Some(Ok(Token::Num(12))));
    assert_eq!(tk.next(), Some(Err(ParseError::Lex('%'))));
}

#[test]
fn test_num_overflow() {
    let mut tk = Tokenizer::new("9223372036854775807");
    assert_eq!(tk.next(), Some(Ok(Token::Num(i64::MAX))));
    assert_eq!(tk.next(), None);
    let mut tk = Tokenizer::new("9223372036854775808");
    assert_eq!(tk.next(), Some(Err(ParseError::Overflow)));
    assert_eq!(tk.next(), None);
}

#[test]
fn test_num_token() {
    assert_eq!(num_token("34+1", 0), (Some(34), 2));
    assert_eq!(num_token("x907", 1), (Some(907), 4));
    assert_eq!(num_token("0", 0), (Some(0), 1));
}

#[test]
fn test_tokenizer_restart() {
    let t = Tokenizer::new("1+2");
    let mut a = t.clone();
    let mut b = t.clone();
    assert_eq!(a.next(), Some(Ok(Token::Num(1))));
    assert_eq!(a.next(), Some(Ok(Token::Add)));
    // reading from one clone leaves the other at the start
    assert_eq!(b.next(), Some(Ok(Token::Num(1))));
}
