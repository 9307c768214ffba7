use mp::math_parser::{infix_to_postfix, math_parser_errors};

fn convert(text: &str) -> Result<String, math_parser_errors> {
    infix_to_postfix.parse(text)
}

fn converts(text: &str, postfix: &str) {
    assert_eq!(convert(text), Ok(postfix.to_string()), "{}", text);
}

fn fails(text: &str, error: math_parser_errors) {
    assert_eq!(convert(text), Err(error), "{}", text);
}

#[test]
fn grouped_expressions_convert_to_their_postfix_form() {
    converts("(1+2)", "1 2 +");
    converts("((1+2)*(3-4))", "1 2 + 3 4 - *");
    converts("(((8*21)+(89/14))^4)", "8 21 * 89 14 / + 4 ^");
    converts("((2.5/(10,5-1))^(3^2))", "2.5 10,5 1 - / 3 2 ^ ^");
    converts("7", "7");
}

#[test]
fn precedence_and_associativity_order_the_operators() {
    converts("1+2*3", "1 2 3 * +");
    converts("1*2+3", "1 2 * 3 +");
    converts("1-2-3", "1 2 - 3 -");
    converts("8/4/2", "8 4 / 2 /");
    converts("2^3^2", "2 3 2 ^ ^");
    converts("1+2^3*4", "1 2 3 ^ 4 * +");
    converts("(1+2)*3", "1 2 + 3 *");
    converts("2*(3+4)^2", "2 3 4 + 2 ^ *");
}

#[test]
fn signs_become_unary_operators() {
    converts("50 * -45", "50 45 m *");
    converts("-5", "5 m");
    converts("+5", "5 p");
    converts("-5+3", "5 m 3 +");
    converts("(-5)", "5 m");
    converts("2*(-3)", "2 3 m *");
    converts("2^-3", "2 3 m ^");
    converts("50*-45+1", "50 45 m * 1 +");
    // behind a digit or a closing parenthesis the operator stays binary
    converts("(2+1)-4", "2 1 + 4 -");
    converts("2+1-4", "2 1 + 4 -");
    // a sign must stand before a digit
    converts("(2+1)-(2+1)", "2 1 + 2 1 + -");
}

#[test]
fn an_operator_that_cannot_be_a_sign_is_invalid_notation() {
    fails("*5", math_parser_errors::invalid_notation);
    fails("2**3", math_parser_errors::invalid_notation);
    fails("928 / 2 +* 4", math_parser_errors::invalid_notation);
    fails("(2^/3", math_parser_errors::invalid_notation);
}

#[test]
fn mismatched_parentheses_are_told() {
    fails("(5 + 5", math_parser_errors::mismatched_parenthesis);
    fails("5 + 5)", math_parser_errors::mismatched_parenthesis);
    fails(")", math_parser_errors::mismatched_parenthesis);
    fails("(", math_parser_errors::mismatched_parenthesis);
    fails(")(", math_parser_errors::mismatched_parenthesis);
    fails("((1+2)", math_parser_errors::mismatched_parenthesis);
    fails("(1+2))", math_parser_errors::mismatched_parenthesis);
    fails("(1 +/ x", math_parser_errors::mismatched_parenthesis);
    // an operator in a sign's place is told before the parentheses are looked at
    fails("(1 +/ 2", math_parser_errors::invalid_notation);
    fails("sin!(1", math_parser_errors::mismatched_parenthesis);
}

#[test]
fn operators_in_a_row_are_invalid_notation() {
    fails("50 **/ (-45)", math_parser_errors::invalid_notation);
    fails("1+/2", math_parser_errors::invalid_notation);
    fails("1+-", math_parser_errors::invalid_notation);
    fails("(1*/2)", math_parser_errors::invalid_notation);
    fails("1+", math_parser_errors::invalid_notation);
    fails("1--a", math_parser_errors::invalid_notation);
    // a sign behind an operator is no such run
    converts("1+-2", "1 2 m +");
    converts("1--2", "1 2 m -");
}

#[test]
fn whitespace_changes_nothing() {
    let plain = convert("((8*21)+89/14)^4");
    for spaced in [
        " ((8*21)+89/14)^4",
        "((8*21)+89/14)^4 ",
        "( ( 8 * 21 ) + 89 / 14 ) ^ 4",
        "\t((8*21)\n+89/14)\r^4",
        "((8*2 1)+8 9/14)^4",
        "((8*21)\u{a0}+\u{2003}89/14)\u{3000}^4",
    ] {
        assert_eq!(convert(spaced), plain, "{:?}", spaced);
    }
    assert_eq!(convert(" ( 5 + 5"), convert("(5+5"));
    assert_eq!(convert("50 * * / ( - 45 )"), convert("50**/(-45)"));
    converts("", "");
    converts("   ", "");
}

#[test]
fn function_calls_travel_as_one_word() {
    converts("log!10,10 + sin!1", "10,10!gol 1!nis +");
    converts("sin!1", "1!nis");
    converts("((2048 / 4) - 12) * log!100,10", "2048 4 / 12 - 100,10!gol *");
    converts("log!-10,10 / 1", "10,10 m!gol 1 /");
    // letters beyond the Latin ones are letters too
    converts("\u{e9}!1", "1!\u{e9}");
    converts("\u{4eac}!2+1", "2!\u{4eac} 1 +");
}

#[test]
fn other_characters_are_passed_over() {
    converts("1 # 2", "12");
    converts("1 + $ 2", "1 2 +");
    converts("1 $ + 2", "12 p");
}

#[test]
fn every_error_has_its_message() {
    assert_eq!(math_parser_errors::mismatched_parenthesis.message(), "Mismatched parenthesis");
    assert_eq!(math_parser_errors::invalid_notation.message(), "Invalid notation");
    assert_eq!(math_parser_errors::invalid_function.message(), "Invalid function");
}
