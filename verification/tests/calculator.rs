use rust_calculator::error::{CalculatorError, SolveReason};
use rust_calculator::parser::parse;
use rust_calculator::solver::MAX_NESTING;
use rust_calculator::types::{Float, Number, Operator};
use rust_calculator::Calculator;

#[test]
fn can_solve_calculations() {
    let mut calculator = Calculator::new();
    assert!(matches!(
        calculator.exec("1+1"),
        Ok(Some(Number::Integer(2)))
    ));
}

#[test]
fn can_use_variables() {
    let mut calculator = Calculator::new();
    assert!(matches!(calculator.exec("a = 1+1"), Ok(None)));

    assert!(matches!(calculator.exec("a"), Ok(Some(Number::Integer(2)))));
}

#[test]
fn crashes_on_infinite_loops() {
    let mut calculator = Calculator::new();
    assert!(matches!(calculator.exec("a = a + 1"), Ok(None)));

    assert!(matches!(
        calculator.exec("a"),
        Err(CalculatorError::SolveError(_))
    ));
}

#[test]
fn crashes_on_undefined_variables() {
    let mut calculator = Calculator::new();
    assert!(
        matches!(calculator.exec("b + 1"), Err(CalculatorError::UndefinedVariable(var)) if var == "b")
    );
}

fn value(calculator: &mut Calculator, line: &str) -> Number {
    calculator.exec(line).unwrap().unwrap()
}

fn failure(calculator: &mut Calculator, line: &str) -> CalculatorError {
    calculator.exec(line).unwrap_err()
}

fn reduce(term: &Float) -> f32 {
    match term {
        Float::Literal(text) => text.parse().unwrap(),
        Float::FromInteger(i) => *i as f32,
        Float::Binary(op, left, right) => {
            let (a, b) = (reduce(left), reduce(right));
            match op {
                Operator::Add => a + b,
                Operator::Subtract => a - b,
                Operator::Multiply => a * b,
                Operator::Div => a / b,
            }
        }
    }
}

fn float(calculator: &mut Calculator, line: &str) -> f32 {
    match value(calculator, line) {
        Number::Float(term) => reduce(&term),
        Number::Integer(i) => panic!("{} is an integer", i),
    }
}

#[test]
fn integer_arithmetic_is_exact_within_thirty_two_bits() {
    let mut calculator = Calculator::new();
    let samples = [0, 1, -1, 2, 7, -13, 100, 46340, -46341, 65535, i32::MAX, i32::MIN];
    for a in samples {
        for b in samples {
            for (symbol, exact) in [
                ('+', a as i64 + b as i64),
                ('-', a as i64 - b as i64),
                ('*', a as i64 * b as i64),
            ] {
                let line = format!("{} {} {}", a, symbol, b);
                let expected = Number::Integer(exact as i32);
                assert_eq!(value(&mut calculator, &line), expected, "{}", line);
                if i32::try_from(exact).is_ok() {
                    assert_eq!(value(&mut calculator, &line), Number::Integer(exact as i32));
                }
                if symbol != '-' {
                    let tight = format!("{}{}{}", a, symbol, b);
                    assert_eq!(value(&mut calculator, &tight), expected, "{}", tight);
                }
            }
        }
    }
}

#[test]
fn integer_overflow_wraps() {
    let mut calculator = Calculator::new();
    assert_eq!(value(&mut calculator, "2147483647 + 1"), Number::Integer(i32::MIN));
    assert_eq!(value(&mut calculator, "-2147483648 - 1"), Number::Integer(i32::MAX));
    assert_eq!(value(&mut calculator, "65536 * 65536"), Number::Integer(0));
    assert_eq!(value(&mut calculator, "46341 * 46341"), Number::Integer(-2147479015));
}

#[test]
fn multiplication_binds_tighter_than_addition() {
    let mut calculator = Calculator::new();
    assert_eq!(value(&mut calculator, "2+3*4"), Number::Integer(14));
    assert_eq!(value(&mut calculator, "(2+3)*4"), Number::Integer(20));
    assert_eq!(value(&mut calculator, "2*3+4"), Number::Integer(10));
    assert_eq!(value(&mut calculator, "2*3+4*5"), Number::Integer(26));
    assert_eq!(value(&mut calculator, "1+2*3+4*5+6"), Number::Integer(33));
    assert_eq!(value(&mut calculator, "20 / 2 / 5"), Number::Integer(2));
    assert_eq!(value(&mut calculator, "10 - 4 - 3"), Number::Integer(3));
    assert_eq!(value(&mut calculator, "2 * (3 + (4 - 1)) * 2"), Number::Integer(24));
}

#[test]
fn operators_of_one_precedence_go_left_to_right() {
    let mut calculator = Calculator::new();
    assert_eq!(value(&mut calculator, "10 - 2*3 - 4"), Number::Integer(0));
    assert_eq!(value(&mut calculator, "10 - 2*3 + 4"), Number::Integer(8));
    assert_eq!(value(&mut calculator, "1 + 2*3 - 4"), Number::Integer(3));
    assert_eq!(value(&mut calculator, "100 / 5 * 2 / 4"), Number::Integer(10));
    assert_eq!(value(&mut calculator, "1 - 2 + 3 - 4 * 5 / 2 + 6"), Number::Integer(-2));
    assert_eq!(value(&mut calculator, "2 * 3 - 4 * 5 - 6 / 3 * 2 + 1"), Number::Integer(-17));
}

#[test]
fn integer_division_rounds_toward_zero() {
    let mut calculator = Calculator::new();
    assert_eq!(value(&mut calculator, "7 / 2"), Number::Integer(3));
    assert_eq!(value(&mut calculator, "-7 / 2"), Number::Integer(-3));
    assert_eq!(value(&mut calculator, "7 / -2"), Number::Integer(-3));
    assert_eq!(value(&mut calculator, "-7 / -2"), Number::Integer(3));
    assert_eq!(value(&mut calculator, "0 / 5"), Number::Integer(0));
    assert_eq!(value(&mut calculator, "-2147483648 / 2"), Number::Integer(-1073741824));
    assert_eq!(value(&mut calculator, "-2147483648 / 1"), Number::Integer(i32::MIN));
}

#[test]
fn integer_division_without_a_result_fails() {
    let mut calculator = Calculator::new();
    assert_eq!(
        failure(&mut calculator, "1 / 0"),
        CalculatorError::SolveError(SolveReason::DivisionUndefined)
    );
    assert_eq!(
        failure(&mut calculator, "-2147483648 / -1"),
        CalculatorError::SolveError(SolveReason::DivisionUndefined)
    );
    assert_eq!(
        failure(&mut calculator, "2 + 3 / (1 - 1)"),
        CalculatorError::SolveError(SolveReason::DivisionUndefined)
    );
}

#[test]
fn mixed_arithmetic_promotes_to_float() {
    let mut calculator = Calculator::new();
    assert_eq!(
        value(&mut calculator, "1+1.5"),
        Number::Float(Float::Binary(
            Operator::Add,
            Box::new(Float::FromInteger(1)),
            Box::new(Float::Literal("1.5".to_string())),
        ))
    );
    assert_eq!(float(&mut calculator, "1+1.5"), 2.5);
    assert_eq!(float(&mut calculator, "1.5+1"), 2.5);
    assert_eq!(float(&mut calculator, "1.5 * 2"), 3.0);
    assert_eq!(float(&mut calculator, "0.5 + 0.25"), 0.75);
}

#[test]
fn mixed_arithmetic_keeps_the_order_of_its_operands() {
    let mut calculator = Calculator::new();
    assert_eq!(float(&mut calculator, "1 - 1.5"), -0.5);
    assert_eq!(float(&mut calculator, "1.5 - 1"), 0.5);
    assert_eq!(float(&mut calculator, "3 / 1.5"), 2.0);
    assert_eq!(float(&mut calculator, "1.5 / 3"), 0.5);
}

#[test]
fn a_single_decimal_literal_is_its_own_value() {
    let mut calculator = Calculator::new();
    assert_eq!(
        value(&mut calculator, "2.25"),
        Number::Float(Float::Literal("2.25".to_string()))
    );
    assert_eq!(float(&mut calculator, "-.5"), -0.5);
    assert_eq!(float(&mut calculator, "5."), 5.0);
}

#[test]
fn integers_inside_a_float_expression_stay_integers_until_they_meet_a_float() {
    let mut calculator = Calculator::new();
    assert_eq!(float(&mut calculator, "(7 / 2) * 1.5"), 4.5);
    assert_eq!(float(&mut calculator, "7 / 2 * 1.5"), 4.5);
    assert_eq!(float(&mut calculator, "1.5 * (7 / 2)"), 4.5);
    assert_eq!(float(&mut calculator, "2 + 3 * 0.5"), 3.5);
}

#[test]
fn float_division_by_zero_is_left_to_the_machine() {
    let mut calculator = Calculator::new();
    assert_eq!(float(&mut calculator, "1.0 / 0"), f32::INFINITY);
    assert_eq!(float(&mut calculator, "-1 / 0.0"), f32::NEG_INFINITY);
    assert!(float(&mut calculator, "0.0 / 0").is_nan());
}

#[test]
fn reassignment_overwrites() {
    let mut calculator = Calculator::new();
    assert_eq!(calculator.exec("a = 1"), Ok(None));
    assert_eq!(calculator.exec("a = 2"), Ok(None));
    assert_eq!(calculator.exec("a"), Ok(Some(Number::Integer(2))));
}

#[test]
fn mutual_cycles_are_detected() {
    let mut calculator = Calculator::new();
    assert_eq!(calculator.exec("a = b"), Ok(None));
    assert_eq!(calculator.exec("b = a"), Ok(None));
    assert_eq!(
        calculator.exec("a"),
        Err(CalculatorError::SolveError(SolveReason::VariableCycle))
    );
    assert_eq!(
        calculator.exec("b + 1"),
        Err(CalculatorError::SolveError(SolveReason::VariableCycle))
    );
}

#[test]
fn a_cycle_is_found_wherever_the_name_returns() {
    let mut calculator = Calculator::new();
    assert_eq!(calculator.exec("a = 1 + (2 * b)"), Ok(None));
    assert_eq!(calculator.exec("b = c"), Ok(None));
    assert_eq!(calculator.exec("c = 3 - a"), Ok(None));
    for line in ["a", "b", "c", "(c)", "1 + a"] {
        assert_eq!(
            calculator.exec(line),
            Err(CalculatorError::SolveError(SolveReason::VariableCycle)),
            "{}",
            line
        );
    }
    assert_eq!(calculator.exec("c = 3"), Ok(None));
    assert_eq!(calculator.exec("a"), Ok(Some(Number::Integer(7))));
}

#[test]
fn a_name_may_be_used_twice_in_one_line() {
    let mut calculator = Calculator::new();
    assert_eq!(calculator.exec("a = 3"), Ok(None));
    assert_eq!(calculator.exec("b = a + a"), Ok(None));
    assert_eq!(calculator.exec("a * a + b * b"), Ok(Some(Number::Integer(45))));
    assert_eq!(calculator.exec("(a) + (a + (a))"), Ok(Some(Number::Integer(9))));
}

#[test]
fn a_failed_evaluation_leaves_later_ones_unaffected() {
    let mut calculator = Calculator::new();
    assert_eq!(calculator.exec("a = a + 1"), Ok(None));
    assert_eq!(calculator.exec("b = 2"), Ok(None));
    assert!(calculator.exec("a").is_err());
    assert!(calculator.exec("a").is_err());
    assert_eq!(calculator.exec("b"), Ok(Some(Number::Integer(2))));
    assert_eq!(calculator.exec("a = 5"), Ok(None));
    assert_eq!(calculator.exec("a"), Ok(Some(Number::Integer(5))));
}

#[test]
fn names_are_evaluated_where_they_are_used() {
    let mut calculator = Calculator::new();
    assert_eq!(calculator.exec("a = b + 1"), Ok(None));
    assert_eq!(
        calculator.exec("a"),
        Err(CalculatorError::UndefinedVariable("b".to_string()))
    );
    assert_eq!(calculator.exec("b = 1"), Ok(None));
    assert_eq!(calculator.exec("a"), Ok(Some(Number::Integer(2))));
    assert_eq!(calculator.exec("b = 5"), Ok(None));
    assert_eq!(calculator.exec("a"), Ok(Some(Number::Integer(6))));
    assert_eq!(calculator.exec("a * b"), Ok(Some(Number::Integer(30))));
}

#[test]
fn names_are_case_sensitive() {
    let mut calculator = Calculator::new();
    assert_eq!(calculator.exec("a = 1"), Ok(None));
    assert_eq!(
        calculator.exec("A"),
        Err(CalculatorError::UndefinedVariable("A".to_string()))
    );
    assert_eq!(calculator.exec("A = 2"), Ok(None));
    assert_eq!(calculator.exec("a + A"), Ok(Some(Number::Integer(3))));
}

#[test]
fn an_assignment_is_stored_without_being_evaluated() {
    let mut calculator = Calculator::new();
    assert_eq!(calculator.exec("a = 1 / 0"), Ok(None));
    assert_eq!(calculator.exec("b = nothing"), Ok(None));
    assert_eq!(
        calculator.exec("a"),
        Err(CalculatorError::SolveError(SolveReason::DivisionUndefined))
    );
    assert_eq!(
        calculator.exec("b"),
        Err(CalculatorError::UndefinedVariable("nothing".to_string()))
    );
    assert_eq!(
        calculator.definition("a").unwrap(),
        &parse("a = 1 / 0").unwrap()
    );
    assert_eq!(calculator.definition("c"), None);
}

#[test]
fn a_line_that_fails_leaves_the_assignments_untouched() {
    let mut calculator = Calculator::new();
    assert_eq!(calculator.exec("a = 1"), Ok(None));
    assert_eq!(calculator.exec("a = "), Err(CalculatorError::ExpectedNumberOrGroup));
    assert_eq!(calculator.exec("a = (2"), Err(CalculatorError::UnterminatedGroup));
    assert_eq!(calculator.exec("a = 2)"), Err(CalculatorError::UnexpectedGroupEnd));
    assert_eq!(calculator.exec("a = 1.2.3"), Err(CalculatorError::InvalidNumber));
    assert_eq!(calculator.exec("a = b = 2"), Err(CalculatorError::MisplacedAssignment));
    assert_eq!(calculator.exec("a"), Ok(Some(Number::Integer(1))));
}

#[test]
fn the_first_undefined_name_is_reported() {
    let mut calculator = Calculator::new();
    assert_eq!(
        calculator.exec("1 + x * y"),
        Err(CalculatorError::UndefinedVariable("x".to_string()))
    );
    assert_eq!(
        calculator.exec("(longer1 + 2)"),
        Err(CalculatorError::UndefinedVariable("longer1".to_string()))
    );
}

#[test]
fn a_line_may_end_with_a_line_break() {
    let mut calculator = Calculator::new();
    assert_eq!(calculator.exec("a = 4\n"), Ok(None));
    assert_eq!(calculator.exec("a * 2\r\n"), Ok(Some(Number::Integer(8))));
    assert_eq!(calculator.exec("\n"), Err(CalculatorError::ExpectedNumberOrGroup));
}

#[test]
fn variables_resolve_through_chains_up_to_the_limit() {
    let mut calculator = Calculator::new();
    assert_eq!(MAX_NESTING, 128);
    assert_eq!(calculator.exec("v0 = 1"), Ok(None));
    for i in 1..=MAX_NESTING {
        let line = format!("v{} = v{} + 1", i, i - 1);
        assert_eq!(calculator.exec(&line), Ok(None));
    }
    assert_eq!(
        calculator.exec(&format!("v{}", MAX_NESTING - 1)),
        Ok(Some(Number::Integer(MAX_NESTING as i32)))
    );
    assert_eq!(
        calculator.exec(&format!("v{}", MAX_NESTING)),
        Err(CalculatorError::SolveError(SolveReason::TooDeep))
    );
}

#[test]
fn a_new_calculator_knows_no_names() {
    let mut calculator = Calculator::default();
    assert_eq!(calculator.definition("a"), None);
    assert_eq!(
        calculator.exec("a"),
        Err(CalculatorError::UndefinedVariable("a".to_string()))
    );
}
