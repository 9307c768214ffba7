use mp::math_parser::{
    demand, infix_to_postfix, math_parser, math_parser_errors, outcome, postfix_to_result, progress,
};

type Ftype = f32;

fn number(text: &str) -> Ftype {
    text.parse::<Ftype>().unwrap()
}

/// Does the arithmetic that an evaluation asks for.
fn solve(asked: &demand) -> outcome {
    let (first, second, result) = match asked {
        demand::call { name, first, second } => {
            let first = number(first);
            let second = match second {
                Some(text) => number(text),
                None => Ftype::NAN,
            };
            let result = match name.as_str() {
                "sin" => first.sin(),
                "cos" => first.cos(),
                "tan" => first.tan(),
                "log" => first.log(second),
                _ => unreachable!(),
            };
            (first, second, result)
        }
        demand::apply { operator, left, right } => {
            let first = match left {
                Some(text) => number(text),
                None => Ftype::NAN,
            };
            let second = number(right);
            let result = match operator {
                '+' => first + second,
                '-' => first - second,
                '*' => first * second,
                '/' => first / second,
                '^' => first.powf(second),
                'm' => -1.0 * second,
                'p' => 1.0 * second,
                _ => unreachable!(),
            };
            (first, second, result)
        }
    };
    outcome { first: first.to_string(), second: second.to_string(), result: result.to_string() }
}

fn run(mut state: progress) -> Result<(String, Vec<String>), math_parser_errors> {
    loop {
        match state {
            progress::finished(end) => return end,
            progress::suspended(evaluation) => {
                let answer = solve(evaluation.demand());
                state = evaluation.resume(answer);
            }
        }
    }
}

fn evaluate(postfix: &str) -> Result<String, math_parser_errors> {
    run(postfix_to_result.parse(postfix, false)).map(|end| end.0)
}

fn parse(notation: &str) -> Result<(Ftype, Vec<String>), math_parser_errors> {
    let (value, trace) = run(math_parser::parse(notation))?;
    match value.parse::<Ftype>() {
        Ok(out) => Ok((out, trace)),
        Err(_) => Err(math_parser_errors::invalid_notation),
    }
}

#[test]
fn infix_to_postfix_valid1() {
    let t = infix_to_postfix.parse("((8*21)+89/14)^4").unwrap();

    assert_eq!(t, "8 21 * 89 14 / + 4 ^");
}

#[test]
fn infix_to_postfix_valid2() {
    let t = infix_to_postfix.parse("50 * -45").unwrap();

    assert_eq!(t, "50 45 m *");
}

#[test]
#[should_panic]
fn infix_to_postfix_failed1() {
    infix_to_postfix.parse("50 **/ (-45)").unwrap();
}

#[test]
#[should_panic]
fn infix_to_postfix_failed2() {
    infix_to_postfix.parse("(5 + 5").unwrap();
}

#[test]
fn postfix_to_result_valid1() {
    let t = evaluate("8 21 * 89 14 / + 2 ^").unwrap();

    assert_eq!(t, "30400.414"); //f32 precision
}

#[test]
fn postfix_to_result_valid2() {
    let t = evaluate("50 45 m *").unwrap();

    assert_eq!(t, "-2250");
}

#[test]
#[should_panic]
fn postfix_to_result_failed1() {
    evaluate("50 45 + -").unwrap();
}

#[test]
#[should_panic]
fn postfix_to_result_failed2() {
    evaluate("+").unwrap();
}

#[test]
fn math_parser_valid1() {
    let t = parse("log!10,10 + sin!1").unwrap();

    assert_eq!(t.0, 1.841471);
}

#[test]
fn math_parser_valid2() {
    let t = parse("((2048 / 4) - 12) * log!100,10").unwrap(); //log of 100 on base 10

    assert_eq!(t.0, 1000.0);
}

#[test]
#[should_panic]
fn math_parser_failed1() {
    parse("log!-10,10 / 1").unwrap(); // no support for negative args in functions
}

#[test]
#[should_panic]
fn math_parser_failed2() {
    parse("928 / 2 +* 4").unwrap();
}

#[test]
fn function_call_is_kept_together() {
    let t = infix_to_postfix.parse("log!10,10 + sin!1").unwrap();
    assert_eq!(t, "10,10!gol 1!nis +");
}

#[test]
fn trace_lists_every_step_in_order() {
    let (value, trace) = parse("log!100,10 + 50 * -45").unwrap();
    assert_eq!(value, -2248.0);
    assert_eq!(
        trace,
        vec![
            "log 100 10 = 2".to_string(),
            "NaN m 45 = -45".to_string(),
            "50 * -45 = -2250".to_string(),
            "2 + -2250 = -2248".to_string(),
        ]
    );
    let (_, trace) = parse("sin!0 + 1.50").unwrap();
    assert_eq!(trace, vec!["sin 0 NaN = 0".to_string(), "0 + 1.5 = 1.5".to_string()]);
}

fn traced(postfix: &str) -> Result<(String, Vec<String>), math_parser_errors> {
    run(postfix_to_result.parse(postfix, true))
}

#[test]
fn each_operator_computes_its_operation() {
    assert_eq!(evaluate("10 4 +").unwrap(), "14");
    assert_eq!(evaluate("10 4 -").unwrap(), "6");
    assert_eq!(evaluate("10 4 *").unwrap(), "40");
    assert_eq!(evaluate("10 4 /").unwrap(), "2.5");
    assert_eq!(evaluate("2 10 /").unwrap(), "0.2");
    assert_eq!(evaluate("2 3 ^").unwrap(), "8");
    assert_eq!(evaluate("45 m").unwrap(), "-45");
    assert_eq!(evaluate("45 p").unwrap(), "45");
    assert_eq!(evaluate("1 0 /").unwrap(), "inf");
    assert_eq!(evaluate("0 0 /").unwrap(), "NaN");
    assert_eq!(evaluate("inf 1 +").unwrap(), "inf");
}

#[test]
fn each_function_computes_its_value() {
    assert_eq!(evaluate("0!nis").unwrap(), "0");
    assert_eq!(evaluate("0!soc").unwrap(), "1");
    assert_eq!(evaluate("0!nat").unwrap(), "0");
    assert_eq!(evaluate("100,10!gol").unwrap(), "2");
    assert_eq!(evaluate("8,2!gol").unwrap(), "3");
    // arguments beyond those that the function takes are passed over
    assert_eq!(evaluate("0,5!soc").unwrap(), "1");
    assert_eq!(evaluate("100,10,7!gol").unwrap(), "2");
}

#[test]
fn function_arity_is_enforced() {
    assert_eq!(parse("log!100,10").unwrap().0, 2.0);
    assert_eq!(parse("log!100").unwrap_err(), math_parser_errors::invalid_function);
    assert_eq!(evaluate("100!gol").unwrap_err(), math_parser_errors::invalid_function);
    assert_eq!(evaluate("100,!gol").unwrap_err(), math_parser_errors::invalid_notation);
}

#[test]
fn unknown_functions_are_invalid_functions() {
    assert_eq!(parse("foo!1").unwrap_err(), math_parser_errors::invalid_function);
    assert_eq!(evaluate("1!oof").unwrap_err(), math_parser_errors::invalid_function);
    assert_eq!(evaluate("1!2").unwrap_err(), math_parser_errors::invalid_function);
    assert_eq!(evaluate("1!NIS").unwrap_err(), math_parser_errors::invalid_function);
}

#[test]
fn arguments_must_be_numbers() {
    assert_eq!(evaluate("x!nis").unwrap_err(), math_parser_errors::invalid_notation);
    assert_eq!(evaluate("!nis").unwrap_err(), math_parser_errors::invalid_notation);
    assert_eq!(evaluate("1,x!gol").unwrap_err(), math_parser_errors::invalid_notation);
    assert_eq!(evaluate("m!gol").unwrap_err(), math_parser_errors::invalid_notation);
}

#[test]
fn the_value_stack_must_end_with_one_number() {
    assert_eq!(evaluate("5").unwrap(), "5");
    assert_eq!(evaluate("007").unwrap(), "007");
    assert_eq!(evaluate("").unwrap_err(), math_parser_errors::invalid_notation);
    assert_eq!(evaluate("   ").unwrap_err(), math_parser_errors::invalid_notation);
    assert_eq!(evaluate("1 2").unwrap_err(), math_parser_errors::invalid_notation);
    assert_eq!(evaluate("1 2 3 +").unwrap_err(), math_parser_errors::invalid_notation);
    assert_eq!(evaluate("1,2").unwrap_err(), math_parser_errors::invalid_notation);
}

#[test]
fn missing_operands_are_invalid_notation() {
    assert_eq!(evaluate("+").unwrap_err(), math_parser_errors::invalid_notation);
    assert_eq!(evaluate("1 +").unwrap_err(), math_parser_errors::invalid_notation);
    assert_eq!(evaluate("m").unwrap_err(), math_parser_errors::invalid_notation);
    assert_eq!(evaluate("50 45 + -").unwrap_err(), math_parser_errors::invalid_notation);
    assert_eq!(evaluate("1,2 3 +").unwrap_err(), math_parser_errors::invalid_notation);
    assert_eq!(evaluate("3 1,2 +").unwrap_err(), math_parser_errors::invalid_notation);
    assert_eq!(evaluate("1 (").unwrap_err(), math_parser_errors::invalid_notation);
}

#[test]
fn words_that_mean_nothing_are_passed_over() {
    assert_eq!(evaluate("1 abc 2 +").unwrap(), "3");
    assert_eq!(evaluate("1 2 + !").unwrap(), "3");
    assert_eq!(evaluate(") 4").unwrap(), "4");
}

#[test]
fn an_operator_is_known_by_its_first_character() {
    assert_eq!(evaluate("1 2 +x").unwrap(), "3");
    assert_eq!(evaluate("1 +2 +").unwrap(), "3");
    assert_eq!(evaluate("3 -2 *").unwrap(), "-6");
}

#[test]
fn whitespace_between_words_changes_nothing() {
    let plain = evaluate("50 45 m *");
    for spaced in [" 50 45 m *", "50 45 m * ", "50   45\tm\n*", "\u{a0}50 45 m\u{2003}*\r\n"] {
        assert_eq!(evaluate(spaced), plain, "{:?}", spaced);
    }
    assert_eq!(parse(" 50*-  45 ").unwrap().0, parse("50*-45").unwrap().0);
    assert_eq!(parse("( ( 2048 / 4 ) - 12 ) * log!100,10").unwrap().0, 1000.0);
}

#[test]
fn the_trace_has_a_line_for_every_step() {
    let (value, trace) = traced("8 21 * 89 14 / + 2 ^").unwrap();
    assert_eq!(value, "30400.414");
    assert_eq!(trace.len(), 4);
    assert_eq!(trace[0], "8 * 21 = 168");
    let (_, trace) = traced("10,10!gol 1!nis +").unwrap();
    assert_eq!(trace.len(), 3);
    assert_eq!(trace[0], "log 10 10 = 1");
    assert_eq!(trace[1], "sin 1 NaN = 0.84147096");
    assert_eq!(trace[2], "1 + 0.84147096 = 1.841471");
    let (_, trace) = traced("5").unwrap();
    assert!(trace.is_empty());
    let (_, trace) = traced("45 p").unwrap();
    assert_eq!(trace, vec!["NaN p 45 = 45".to_string()]);
}

#[test]
fn without_tracing_the_trace_stays_empty() {
    let (value, trace) = run(postfix_to_result.parse("8 21 * 89 14 / + 2 ^", false)).unwrap();
    assert_eq!(value, "30400.414");
    assert!(trace.is_empty());
    let (_, trace) = run(postfix_to_result.parse("10,10!gol 1!nis +", false)).unwrap();
    assert!(trace.is_empty());
}

#[test]
fn demands_come_in_the_order_of_evaluation() {
    let mut asked: Vec<String> = Vec::new();
    let mut state = postfix_to_result.parse("1 2 + 4,2!gol 3 m * -", false);
    let end = loop {
        match state {
            progress::finished(end) => break end,
            progress::suspended(evaluation) => {
                asked.push(match evaluation.demand() {
                    demand::call { name, first, second } => format!("{} {} {:?}", name, first, second),
                    demand::apply { operator, left, right } => format!("{} {:?} {}", operator, left, right),
                });
                let answer = solve(evaluation.demand());
                state = evaluation.resume(answer);
            }
        }
    };
    assert_eq!(end.unwrap().0, "9");
    assert_eq!(
        asked,
        vec![
            "log 4 Some(\"2\")".to_string(),
            "+ Some(\"1\") 2".to_string(),
            "m None 3".to_string(),
            "* Some(\"2\") -3".to_string(),
            "- Some(\"3\") -6".to_string(),
        ]
    );
}

#[test]
fn an_answer_that_is_no_number_ends_the_evaluation() {
    match postfix_to_result.parse("1 2 +", true) {
        progress::suspended(evaluation) => {
            let answer = outcome {
                first: "1".to_string(),
                second: "2".to_string(),
                result: "three".to_string(),
            };
            match evaluation.resume(answer) {
                progress::finished(end) => {
                    assert_eq!(end.unwrap_err(), math_parser_errors::invalid_notation)
                }
                progress::suspended(_) => panic!("the evaluation went on"),
            }
        }
        progress::finished(_) => panic!("nothing was asked"),
    }
}

#[test]
fn expressions_evaluate_end_to_end() {
    assert_eq!(parse("50 * -45").unwrap().0, -2250.0);
    assert_eq!(parse("((8*21)+89/14)^2").unwrap().0, 30400.414);
    assert_eq!(parse("1+2*3").unwrap().0, 7.0);
    assert_eq!(parse("(1+2)*3").unwrap().0, 9.0);
    assert_eq!(parse("2^3^2").unwrap().0, 512.0);
    assert_eq!(parse("-2^2").unwrap().0, 4.0);
    assert_eq!(parse("1.5+1.5").unwrap().0, 3.0);
    assert_eq!(parse("(5 + 5").unwrap_err(), math_parser_errors::mismatched_parenthesis);
    assert_eq!(parse("50 **/ (-45)").unwrap_err(), math_parser_errors::invalid_notation);
    assert_eq!(parse("928 / 2 +* 4").unwrap_err(), math_parser_errors::invalid_notation);
    assert_eq!(parse("").unwrap_err(), math_parser_errors::invalid_notation);
}
