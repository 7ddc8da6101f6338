use moo::Token;
use moo::Tokenizer;

#[test]
fn number_integer() {
    let mut tokenizer = Tokenizer::new(" 10");
    assert_eq!(tokenizer.next().unwrap().unwrap().0.typ(), "Number");
}

#[test]
fn number_zero_integer() {
    let mut tokenizer = Tokenizer::new(" 0");
    assert_eq!(tokenizer.next().unwrap().unwrap().0.typ(), "Number");
}

#[test]
fn number_float() {
    let mut tokenizer = Tokenizer::new(" 10.1");
    assert_eq!(tokenizer.next().unwrap().unwrap().0.typ(), "Number");
}

#[test]
fn number_zero_float() {
    let mut tokenizer = Tokenizer::new(" 0.1");
    assert_eq!(tokenizer.next().unwrap().unwrap().0.typ(), "Number");
}

#[test]
fn number_underscore() {
    let mut tokenizer = Tokenizer::new(" 1_10");
    assert_eq!(tokenizer.next().unwrap().unwrap().0.typ(), "Number");
}

#[test]
fn number_unexpected_err() {
    let mut tokenizer = Tokenizer::new(" 10.1.1");
    assert_eq!(tokenizer.next().err().unwrap(), "Unexpected number");
}

#[test]
fn ident_x() {
    let mut tokenizer = Tokenizer::new("x");
    assert_eq!(tokenizer.next().unwrap().unwrap().0.typ(), "Identifier");
}

#[test]
fn ident_cow() {
    let mut tokenizer = Tokenizer::new("วัว");
    assert_eq!(tokenizer.next().unwrap().unwrap().0.typ(), "Identifier");
}

#[test]
fn ident_underscore() {
    let mut tokenizer = Tokenizer::new("_cow");
    assert_eq!(tokenizer.next().unwrap().unwrap().0.typ(), "Identifier");
}

#[test]
fn ident_number() {
    let mut tokenizer = Tokenizer::new("boon1_");
    assert_eq!(tokenizer.next().unwrap().unwrap().0.typ(), "Identifier");
}

#[test]
fn expr_1() {
    let mut tokenizer = Tokenizer::new(" 10  + x");
    assert_eq!(tokenizer.next().unwrap().unwrap().0.typ(), "Number");
    assert_eq!(tokenizer.next().unwrap().unwrap().0.typ(), "Operator");
    assert_eq!(tokenizer.next().unwrap().unwrap().0.typ(), "Identifier");
}

#[test]
fn expr_2() {
    let mut tokenizer = Tokenizer::new(" (10 / 5)");
    assert_eq!(tokenizer.next().unwrap().unwrap().0.typ(), "Parenthesis");
    assert_eq!(tokenizer.next().unwrap().unwrap().0.typ(), "Number");
    assert_eq!(tokenizer.next().unwrap().unwrap().0.typ(), "Operator");
    assert_eq!(tokenizer.next().unwrap().unwrap().0.typ(), "Number");
    assert_eq!(tokenizer.next().unwrap().unwrap().0.typ(), "Parenthesis");
}

#[test]
fn number_text_and_span() {
    let mut tokenizer = Tokenizer::new(" 10");
    let (token, lo, hi) = tokenizer.next().unwrap().unwrap();
    match token {
        Token::Number(text) => assert_eq!(text, "10"),
        _ => panic!("expected a number token"),
    }
    assert_eq!((lo, hi), (1, 3));
    assert!(tokenizer.next().unwrap().is_none());
    assert!(tokenizer.at_end());
}

#[test]
fn number_fraction_single_token() {
    let mut tokenizer = Tokenizer::new("10.25");
    let (token, lo, hi) = tokenizer.next().unwrap().unwrap();
    match token {
        Token::Number(text) => assert_eq!(text, "10.25"),
        _ => panic!("expected a number token"),
    }
    assert_eq!((lo, hi), (0, 5));
    assert!(tokenizer.next().unwrap().is_none());
}

#[test]
fn number_separators_stripped() {
    let mut tokenizer = Tokenizer::new("1_10");
    match tokenizer.next().unwrap().unwrap().0 {
        Token::Number(text) => assert_eq!(text, "110"),
        _ => panic!("expected a number token"),
    }
    let mut tokenizer = Tokenizer::new("1_0.2_5");
    let (token, lo, hi) = tokenizer.next().unwrap().unwrap();
    match token {
        Token::Number(text) => assert_eq!(text, "10.25"),
        _ => panic!("expected a number token"),
    }
    assert_eq!((lo, hi), (0, 7));
}

#[test]
fn number_two_points_errs() {
    let mut tokenizer = Tokenizer::new("1..2");
    assert_eq!(tokenizer.next().err().unwrap(), "Unexpected number");
    let mut tokenizer = Tokenizer::new("0.1.2");
    assert_eq!(tokenizer.next().err().unwrap(), "Unexpected number");
    let mut tokenizer = Tokenizer::new("3.1_4.x");
    assert_eq!(tokenizer.next().err().unwrap(), "Unexpected number");
}

#[test]
fn zero_is_lexed_alone() {
    let mut tokenizer = Tokenizer::new("012");
    match tokenizer.next().unwrap().unwrap().0 {
        Token::Number(text) => assert_eq!(text, "0"),
        _ => panic!("expected a number token"),
    }
    match tokenizer.next().unwrap().unwrap().0 {
        Token::Number(text) => assert_eq!(text, "12"),
        _ => panic!("expected a number token"),
    }
}

#[test]
fn ident_text_covers_maximal_run() {
    let mut tokenizer = Tokenizer::new("วัว");
    let (token, lo, hi) = tokenizer.next().unwrap().unwrap();
    match token {
        Token::Identifier(text) => assert_eq!(text, "วัว"),
        _ => panic!("expected an identifier token"),
    }
    assert_eq!((lo, hi), (0, 3));
    assert!(tokenizer.next().unwrap().is_none());
    assert!(tokenizer.at_end());
}

#[test]
fn lexing_halts_on_unknown_character() {
    let mut tokenizer = Tokenizer::new("1 $");
    assert_eq!(tokenizer.next().unwrap().unwrap().0.typ(), "Number");
    assert!(tokenizer.next().unwrap().is_none());
    assert!(!tokenizer.at_end());
}

#[test]
fn comma_and_operators() {
    let mut tokenizer = Tokenizer::new("^+-*/(),");
    assert_eq!(tokenizer.next().unwrap().unwrap().0.typ(), "Operator");
    assert_eq!(tokenizer.next().unwrap().unwrap().0.typ(), "Operator");
    assert_eq!(tokenizer.next().unwrap().unwrap().0.typ(), "Operator");
    assert_eq!(tokenizer.next().unwrap().unwrap().0.typ(), "Operator");
    assert_eq!(tokenizer.next().unwrap().unwrap().0.typ(), "Operator");
    assert_eq!(tokenizer.next().unwrap().unwrap().0.typ(), "Parenthesis");
    assert_eq!(tokenizer.next().unwrap().unwrap().0.typ(), "Parenthesis");
    assert_eq!(tokenizer.next().unwrap().unwrap().0.typ(), "Comma");
    assert!(tokenizer.next().unwrap().is_none());
}
