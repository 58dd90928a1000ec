use tardi::token::{format_char, format_str, Token, TokenType as Kind};
use tardi::word_token::TokenType;

fn tokens(input: &str) -> Vec<TokenType> {
    input.split_whitespace().map(|w| TokenType::from_str(w).unwrap()).collect()
}

fn ints(input: &str) -> Vec<i64> {
    tokens(input)
        .into_iter()
        .map(|t| match t {
            TokenType::Integer(n) => n,
            other => panic!("expected an integer, got {:?}", other),
        })
        .collect()
}

fn rationals(input: &str) -> Vec<(i64, i64)> {
    tokens(input)
        .into_iter()
        .map(|t| match t {
            TokenType::Rational(a, b) => (a, b),
            other => panic!("expected a rational, got {:?}", other),
        })
        .collect()
}

fn floats(input: &str) -> Vec<f64> {
    tokens(input)
        .into_iter()
        .map(|t| match t {
            TokenType::Float(text) => text.parse::<f64>().unwrap(),
            other => panic!("expected a float, got {:?}", other),
        })
        .collect()
}

#[test]
fn test_parse_integer() {
    assert_eq!(ints("10 3"), vec![10, 3]);
}

#[test]
fn test_parse_divide() {
    let t = tokens("10 3 /");
    assert!(matches!(t[0], TokenType::Integer(10)));
    assert!(matches!(t[1], TokenType::Integer(3)));
    assert!(matches!(t[2], TokenType::Slash));
}

#[test]
fn test_parse_plus() {
    assert!(matches!(tokens("10 3 +")[2], TokenType::Plus));
}

#[test]
fn test_parse_minus() {
    assert!(matches!(tokens("10 3 -")[2], TokenType::Minus));
}

#[test]
fn test_parse_multiply() {
    assert!(matches!(tokens("10 3 *")[2], TokenType::Star));
}

#[test]
fn test_parse_string_empty() {
    assert!(matches!(&tokens("\"\"")[0], TokenType::String(s) if s.is_empty()));
}

#[test]
fn test_parse_string_single_word() {
    assert!(matches!(&tokens("\"hello\"")[0], TokenType::String(s) if s == "hello"));
}

#[test]
fn test_parse_hexadecimal() {
    assert_eq!(ints("0x1A 0XFF"), vec![26, 255]);
}

#[test]
fn test_parse_octal() {
    assert_eq!(ints("0o123 0O77"), vec![83, 63]);
}

#[test]
fn test_parse_binary() {
    assert_eq!(ints("0b1010 0B1111"), vec![10, 15]);
}

#[test]
fn test_parse_negative_decimal() {
    assert_eq!(ints("-10 -3"), vec![-10, -3]);
}

#[test]
fn test_parse_negative_hexadecimal() {
    assert_eq!(ints("-0x1A -0XFF"), vec![-26, -255]);
}

#[test]
fn test_parse_negative_octal() {
    assert_eq!(ints("-0o123 -0O77"), vec![-83, -63]);
}

#[test]
fn test_parse_negative_binary() {
    assert_eq!(ints("-0b1010 -0B1111"), vec![-10, -15]);
}

#[test]
fn test_parse_float_trailing_dot() {
    assert_eq!(floats("1."), vec![1.0]);
}

#[test]
fn test_parse_float_with_digits() {
    assert_eq!(floats("1.23"), vec![1.23]);
}

#[test]
fn test_parse_float_scientific_notation() {
    assert_eq!(floats("1e7"), vec![1e7]);
}

#[test]
fn test_parse_float_scientific_notation_with_dot() {
    assert_eq!(floats("1.23e12"), vec![1.23e12]);
}

#[test]
fn test_parse_float_scientific_notation_negative_exponent() {
    assert_eq!(floats("1e-7 1.23e-12"), vec![1e-7, 1.23e-12]);
}

#[test]
fn test_parse_float_scientific_notation_positive_exponent() {
    assert_eq!(floats("1e+7 1.23e+12"), vec![1e7, 1.23e12]);
}

#[test]
fn test_parse_float_scientific_notation_capital_e() {
    assert_eq!(floats("1E7"), vec![1e7]);
}

#[test]
fn test_parse_rational_simple() {
    assert_eq!(rationals("1/3"), vec![(1, 3)]);
}

#[test]
fn test_parse_rational_mixed_positive() {
    assert_eq!(rationals("1+1/3"), vec![(4, 3)]);
}

#[test]
fn test_parse_rational_mixed_negative() {
    assert_eq!(rationals("1-1/3"), vec![(2, 3)]);
}

#[test]
fn test_parse_rational_signed() {
    assert_eq!(
        rationals("+1/3 -1/3 1/-3 1/+3 +1+1/3 -1+1/3"),
        vec![(1, 3), (-1, 3), (-1, 3), (1, 3), (4, 3), (-2, 3)]
    );
}

#[test]
fn punctuation_booleans_and_words() {
    let t = tokens("== != <= >= < > ! { } ( ) [ ] : ; -- true false dup");
    assert!(matches!(t[0], TokenType::EqualEqual));
    assert!(matches!(t[3], TokenType::GreaterEqual));
    assert!(matches!(t[15], TokenType::LongDash));
    assert!(matches!(t[16], TokenType::Boolean(true)));
    assert!(matches!(t[17], TokenType::Boolean(false)));
    assert!(matches!(&t[18], TokenType::Word(w) if w == "dup"));
    assert!(matches!(&tokens("0xZZ")[0], TokenType::Word(w) if w == "0xZZ"));
    assert!(matches!(&tokens("0x0x10")[0], TokenType::Integer(16)));
}

#[test]
fn tokens_are_written_as_their_words() {
    assert_eq!(Kind::Integer(-42).to_display_string(), "-42");
    assert_eq!(Kind::Boolean(true).to_display_string(), "#t");
    assert_eq!(Kind::Char('a').to_display_string(), "'a'");
    assert_eq!(Kind::String("hi there".to_string()).to_display_string(), "\"hi there\"");
    assert_eq!(Kind::Float("1.5".to_string()).to_display_string(), "1.5");
    assert_eq!(Kind::Float("2".to_string()).to_display_string(), "2.0");
    assert_eq!(Kind::SplitHead.to_display_string(), "split-head!");
    assert_eq!(Kind::LeftCurly.to_display_string(), "{");
    assert_eq!(Kind::EndOfInput.to_display_string(), "<end-of-input>");
    let t = Token::new(Kind::ToR, 1, 1, 0, 2, ">r".to_string());
    assert_eq!(t.to_display_string(), ">r");
    assert_eq!(format_char('\n'), "\n");
    assert_eq!(format_str("a\tb"), "a\tb");
}
