use three_addr::to_token;
use three_addr::tokenize;
use three_addr::ExpandError;
use three_addr::Token;

#[test]
fn tokenize_add_three_no_paren() {
    let input = String::from("1 + 2 + 3");
    let result = tokenize(&input).unwrap();

    let mut expected = Vec::new();
    expected.push(Token::Number(1));
    expected.push(Token::Plus);
    expected.push(Token::Number(2));
    expected.push(Token::Plus);
    expected.push(Token::Number(3));

    assert_eq!(expected, result);
}

#[test]
fn tokenize_multiply_three_no_paren() {
    let input = String::from("4 * 8 * 16");
    let result = tokenize(&input).unwrap();

    let mut expected = Vec::new();
    expected.push(Token::Number(4));
    expected.push(Token::Multiply);
    expected.push(Token::Number(8));
    expected.push(Token::Multiply);
    expected.push(Token::Number(16));

    assert_eq!(expected, result);
}

#[test]
fn tokenize_with_unknown_symbol() {
    let input = String::from("1 + FOO + 3");
    assert_eq!(Err(ExpandError::Lexical), tokenize(&input));
}

#[test]
fn token_plus_sign() {
    assert_eq!(Token::Plus, to_token("+").unwrap());
}

#[test]
fn token_multiply_star() {
    assert_eq!(Token::Multiply, to_token("*").unwrap());
}

#[test]
fn token_single_digit() {
    assert_eq!(Token::Number(5), to_token("5").unwrap());
}

#[test]
fn token_multi_digit() {
    assert_eq!(Token::Number(1357), to_token("1357").unwrap());
}

#[test]
fn token_unknown_symbol() {
    assert_eq!(Err(ExpandError::Lexical), to_token("foo"));
}

#[test]
fn token_empty_atom_is_lexical_error() {
    assert_eq!(Err(ExpandError::Lexical), to_token(""));
}

#[test]
fn token_overflowing_digits_are_lexical_error() {
    // One past i64::MAX, and a far larger string of digits.
    assert_eq!(Err(ExpandError::Lexical), to_token("9223372036854775808"));
    assert_eq!(
        Err(ExpandError::Lexical),
        to_token("99999999999999999999999999")
    );
}

#[test]
fn token_largest_value_accepted() {
    assert_eq!(
        Token::Number(i64::MAX),
        to_token("9223372036854775807").unwrap()
    );
}

#[test]
fn relexing_rendered_tokens_is_identity() {
    // Lexing, rendering the tokens back to text joined by single spaces, and
    // lexing again reproduces the token sequence, whatever whitespace and
    // leading zeros the original text had.
    let first = tokenize("007 \t*\n 42   + 9").unwrap();
    assert_eq!(
        vec![
            Token::Number(7),
            Token::Multiply,
            Token::Number(42),
            Token::Plus,
            Token::Number(9),
        ],
        first
    );
    let mut rendered = Vec::new();
    for t in &first {
        match t {
            Token::Plus => rendered.push(String::from("+")),
            Token::Multiply => rendered.push(String::from("*")),
            Token::Number(n) => rendered.push(n.to_string()),
        }
    }
    let joined = rendered.join(" ");
    assert_eq!("7 * 42 + 9", joined);
    assert_eq!(first, tokenize(&joined).unwrap());
}
