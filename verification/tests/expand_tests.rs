use three_addr::expand;
use three_addr::ExpandError;

#[test]
fn add_two_no_paren() {
    let input = String::from("1 + 2");
    let result = expand(input).unwrap();

    let mut expected = Vec::new();
    expected.push("a = 1 + 2");
    expected.push("a");

    assert_eq!(expected, result);
}

#[test]
fn add_three_no_paren() {
    let input = String::from("1 + 2 + 3");
    let result = expand(input).unwrap();

    let mut expected = Vec::new();
    expected.push("a = 1 + 2");
    expected.push("b = a + 3");
    expected.push("b");

    assert_eq!(expected, result);
}

#[test]
fn add_multiply_no_paren() {
    let input = String::from("6 * 7 + 1");
    let result = expand(input).unwrap();

    let mut expected = Vec::new();
    expected.push("a = 6 * 7");
    expected.push("b = a + 1");
    expected.push("b");

    assert_eq!(expected, result);
}

#[test]
fn add_many_no_paren() {
    let input = String::from("100 + 200 + 300 + 1 + 2 + 3 + 4 + 5 + 7 + 4 + 2 + 1");
    let result = expand(input).unwrap();

    let mut expected = Vec::new();
    expected.push("a = 100 + 200");
    expected.push("b = a + 300");
    expected.push("c = b + 1");
    expected.push("d = c + 2");
    expected.push("e = d + 3");
    expected.push("f = e + 4");
    expected.push("g = f + 5");
    expected.push("h = g + 7");
    expected.push("i = h + 4");
    expected.push("j = i + 2");
    expected.push("k = j + 1");
    expected.push("k");

    assert_eq!(expected, result);
}

#[test]
fn multiply_chain() {
    let result = expand(String::from("4 * 8 * 16")).unwrap();
    let expected = vec!["a = 4 * 8", "b = a * 16", "b"];
    assert_eq!(expected, result);
}

#[test]
fn leading_zeros_are_canonicalized() {
    let result = expand(String::from("007 + 2")).unwrap();
    let expected = vec!["a = 7 + 2", "a"];
    assert_eq!(expected, result);
}

#[test]
fn whitespace_runs_are_one_separator() {
    let result = expand(String::from("  1 \t +\n 2  ")).unwrap();
    let expected = vec!["a = 1 + 2", "a"];
    assert_eq!(expected, result);
}

#[test]
fn largest_literal_accepted() {
    let result = expand(String::from("9223372036854775807 + 0")).unwrap();
    let expected = vec!["a = 9223372036854775807 + 0", "a"];
    assert_eq!(expected, result);
}

#[test]
fn literal_past_i64_range_is_lexical_error() {
    assert_eq!(
        Err(ExpandError::Lexical),
        expand(String::from("9223372036854775808 + 1"))
    );
}

#[test]
fn operator_first_is_grammar_error() {
    assert_eq!(Err(ExpandError::Grammar), expand(String::from("+ 1 2")));
}

#[test]
fn adjacent_operands_are_grammar_error() {
    assert_eq!(Err(ExpandError::Grammar), expand(String::from("1 2 +")));
}

#[test]
fn adjacent_operators_are_grammar_error() {
    assert_eq!(Err(ExpandError::Grammar), expand(String::from("1 + + 2")));
}

#[test]
fn unknown_word_is_lexical_error() {
    assert_eq!(Err(ExpandError::Lexical), expand(String::from("1 FOO 2")));
}

#[test]
fn unknown_word_amid_sums_is_lexical_error() {
    assert_eq!(Err(ExpandError::Lexical), expand(String::from("1 + FOO + 3")));
}

#[test]
fn single_literal_is_grammar_error() {
    assert_eq!(Err(ExpandError::Grammar), expand(String::from("5")));
}

#[test]
fn empty_input_is_grammar_error() {
    assert_eq!(Err(ExpandError::Grammar), expand(String::from("")));
    assert_eq!(Err(ExpandError::Grammar), expand(String::from("   ")));
}

#[test]
fn trailing_operator_is_grammar_error() {
    assert_eq!(Err(ExpandError::Grammar), expand(String::from("1 +")));
}

#[test]
fn signed_or_decimal_literals_are_lexical_errors() {
    assert_eq!(Err(ExpandError::Lexical), expand(String::from("-1 + 2")));
    assert_eq!(Err(ExpandError::Lexical), expand(String::from("1.5 + 2")));
}

#[test]
fn alphabet_is_exhausted_after_twenty_six_instructions() {
    let mut input = String::from("1");
    for _ in 0..26 {
        input.push_str(" + 1");
    }
    let result = expand(input).unwrap();
    assert_eq!(27, result.len());
    assert_eq!("z = y + 1", result[25]);
    assert_eq!("z", result[26]);

    let mut too_long = String::from("1");
    for _ in 0..27 {
        too_long.push_str(" + 1");
    }
    assert_eq!(Err(ExpandError::Capacity), expand(too_long));
}

#[test]
fn variables_chain_left_to_right_in_order() {
    // Every line starts with a fresh letter and, from the second instruction
    // on, reuses the previous letter as its left operand; the final entry
    // names the last variable.
    let result = expand(String::from("9 * 9 + 9 * 9 + 9")).unwrap();
    let expected = vec!["a = 9 * 9", "b = a + 9", "c = b * 9", "d = c + 9", "d"];
    assert_eq!(expected, result);
}
