use rust_calculator::error::{CalculatorError, SolveReason};
use rust_calculator::types::{Float, Number, Operator};

fn literal(text: &str) -> Float {
    Float::Literal(text.to_string())
}

fn binary(op: Operator, left: Float, right: Float) -> Number {
    Number::Float(Float::Binary(op, Box::new(left), Box::new(right)))
}

#[test]
fn precedence_has_two_levels() {
    assert_eq!(Operator::Add.precedence(), 1);
    assert_eq!(Operator::Subtract.precedence(), 1);
    assert_eq!(Operator::Multiply.precedence(), 2);
    assert_eq!(Operator::Div.precedence(), 2);
}

#[test]
fn operators_apply_to_integers() {
    let integer = Number::Integer;
    assert_eq!(Operator::Add.apply(integer(2), integer(3)), integer(5));
    assert_eq!(Operator::Subtract.apply(integer(2), integer(3)), integer(-1));
    assert_eq!(Operator::Multiply.apply(integer(2), integer(3)), integer(6));
    assert_eq!(Operator::Div.apply(integer(7), integer(-2)), integer(-3));
    assert_eq!(Operator::Add.apply(integer(i32::MAX), integer(1)), integer(i32::MIN));
    assert_eq!(Operator::Subtract.apply(integer(i32::MIN), integer(1)), integer(i32::MAX));
    assert_eq!(Operator::Multiply.apply(integer(i32::MIN), integer(-1)), integer(i32::MIN));
    assert_eq!(Operator::Multiply.apply(integer(123456), integer(654321)), integer(-824525248));
}

#[test]
fn the_operators_of_the_language_work_on_numbers() {
    let integer = Number::Integer;
    assert_eq!(integer(2) + integer(3), integer(5));
    assert_eq!(integer(2) - integer(3), integer(-1));
    assert_eq!(integer(2) * integer(3), integer(6));
    assert_eq!(integer(9) / integer(2), integer(4));
    assert_eq!(
        integer(1) + Number::Float(literal("1.5")),
        binary(Operator::Add, Float::FromInteger(1), literal("1.5"))
    );
}

#[test]
fn operators_build_float_terms_in_the_order_of_their_operands() {
    let integer = Number::Integer;
    let half = || Number::Float(literal(".5"));
    for op in [Operator::Add, Operator::Subtract, Operator::Multiply, Operator::Div] {
        assert_eq!(
            op.apply(integer(2), half()),
            binary(op, Float::FromInteger(2), literal(".5"))
        );
        assert_eq!(
            op.apply(half(), integer(2)),
            binary(op, literal(".5"), Float::FromInteger(2))
        );
        assert_eq!(op.apply(half(), half()), binary(op, literal(".5"), literal(".5")));
    }
    let nested = Operator::Multiply.apply(Operator::Add.apply(half(), integer(1)), integer(0));
    assert_eq!(
        nested,
        binary(
            Operator::Multiply,
            Float::Binary(
                Operator::Add,
                Box::new(literal(".5")),
                Box::new(Float::FromInteger(1))
            ),
            Float::FromInteger(0)
        )
    );
}

#[test]
fn only_two_integers_can_lack_a_quotient() {
    let integer = Number::Integer;
    let half = Number::Float(literal(".5"));
    assert!(!Operator::Div.applies_to(&integer(1), &integer(0)));
    assert!(!Operator::Div.applies_to(&integer(i32::MIN), &integer(-1)));
    assert!(Operator::Div.applies_to(&integer(i32::MIN), &integer(1)));
    assert!(Operator::Div.applies_to(&integer(i32::MAX), &integer(-1)));
    assert!(Operator::Div.applies_to(&integer(0), &integer(3)));
    assert!(Operator::Div.applies_to(&half, &integer(0)));
    assert!(Operator::Div.applies_to(&integer(0), &half));
    for op in [Operator::Add, Operator::Subtract, Operator::Multiply] {
        assert!(op.applies_to(&integer(1), &integer(0)));
        assert!(op.applies_to(&integer(i32::MIN), &integer(-1)));
    }
}

#[test]
fn a_number_becomes_a_float_term() {
    assert_eq!(Number::Integer(-4).into_float(), Float::FromInteger(-4));
    assert_eq!(Number::Float(literal("2.5")).into_float(), literal("2.5"));
}

#[test]
fn a_copy_of_a_number_equals_it() {
    let number = binary(
        Operator::Div,
        Float::Binary(
            Operator::Subtract,
            Box::new(literal("1.5")),
            Box::new(Float::FromInteger(7)),
        ),
        literal("-.25"),
    );
    assert_eq!(number.clone(), number);
    assert_eq!(Number::Integer(3).clone(), Number::Integer(3));
}

#[test]
fn every_error_has_its_message() {
    let undefined = CalculatorError::UndefinedVariable("rate".to_string());
    assert_eq!(undefined.message(), "unable to find variable with name rate");
    assert_eq!(
        CalculatorError::ExpectedNumberOrGroup.message(),
        "Expected a number but got something else"
    );
    assert_eq!(CalculatorError::InvalidNumber.message(), "Invalid number");
    assert_eq!(
        CalculatorError::UnterminatedGroup.message(),
        "Expected a closing parenthesis"
    );
    assert_eq!(
        CalculatorError::UnexpectedGroupEnd.message(),
        "Unexpected closing parenthesis"
    );
    assert_eq!(
        CalculatorError::MisplacedAssignment.message(),
        "Unexpected assignment"
    );
    assert_eq!(
        CalculatorError::NestingTooDeep.message(),
        "The groups are nested too deeply"
    );
}

#[test]
fn every_reason_has_its_message() {
    let reasons = [
        (SolveReason::ExpectedValue, "Expected a value"),
        (
            SolveReason::ExpectedTokenAfterAssignment,
            "Expected token after assignment",
        ),
        (
            SolveReason::ExpectedValueAfterOperator,
            "Expected value after operator",
        ),
        (
            SolveReason::VariableCycle,
            "A used variable was already used as part of the calculation",
        ),
        (SolveReason::DivisionUndefined, "Division by zero"),
        (SolveReason::TooDeep, "The calculation is nested too deeply"),
    ];
    for (reason, text) in reasons {
        assert_eq!(reason.message(), text);
        assert_eq!(CalculatorError::SolveError(reason).message(), text);
    }
}
