use rust_calculator::error::CalculatorError;
use rust_calculator::literal::write_integer;
use rust_calculator::parser::parse;
use rust_calculator::token::Token;
use rust_calculator::types::Number;
use rust_calculator::Calculator;

const SAMPLES: [i32; 14] = [
    0,
    1,
    -1,
    9,
    10,
    -10,
    99,
    100,
    12345,
    -987654321,
    1000000000,
    i32::MAX,
    i32::MIN,
    i32::MIN + 1,
];

#[test]
fn integers_are_written_in_decimal() {
    assert_eq!(write_integer(0), "0");
    assert_eq!(write_integer(7), "7");
    assert_eq!(write_integer(-7), "-7");
    assert_eq!(write_integer(1200), "1200");
    assert_eq!(write_integer(i32::MAX), "2147483647");
    assert_eq!(write_integer(i32::MIN), "-2147483648");
    for value in SAMPLES {
        assert_eq!(write_integer(value), value.to_string());
    }
}

#[test]
fn a_written_integer_is_read_back() {
    for value in SAMPLES {
        assert_eq!(
            parse(&write_integer(value)).unwrap(),
            vec![Token::Value(Number::Integer(value))]
        );
    }
}

#[test]
fn written_integers_are_calculated_with() {
    let mut calculator = Calculator::new();
    for a in SAMPLES {
        for b in SAMPLES {
            let sum = format!("{} + {}", write_integer(a), write_integer(b));
            assert_eq!(
                calculator.exec(&sum),
                Ok(Some(Number::Integer(a.wrapping_add(b))))
            );
            let difference = format!("{} - {}", write_integer(a), write_integer(b));
            assert_eq!(
                calculator.exec(&difference),
                Ok(Some(Number::Integer(a.wrapping_sub(b))))
            );
            let product = format!("{} * {}", write_integer(a), write_integer(b));
            assert_eq!(
                calculator.exec(&product),
                Ok(Some(Number::Integer(a.wrapping_mul(b))))
            );
            let tight = format!("{}-{}", write_integer(a), write_integer(b));
            assert_eq!(calculator.exec(&tight), Err(CalculatorError::InvalidNumber));
        }
    }
}

#[test]
fn a_line_that_parses_never_lacks_a_token() {
    let mut calculator = Calculator::new();
    let lines = [
        "a = b * (c + 1)",
        "b = 2 - d",
        "c = (a)",
        "d = 1 / 0",
        "e = ((1 + 2) * 3.5) / e",
        "a",
        "b",
        "c",
        "d",
        "e",
        "1 + 2 * (3 - 4) / 5",
        "(((1)))",
        "x + 1",
        "1 2 3",
        "a = 1",
        "a * 2 $ 4",
    ];
    for line in lines {
        match calculator.exec(line) {
            Err(CalculatorError::SolveError(reason)) => {
                let text = reason.message();
                assert!(
                    text == "A used variable was already used as part of the calculation"
                        || text == "Division by zero",
                    "{}: {}",
                    line,
                    text
                );
            }
            Err(CalculatorError::UndefinedVariable(_)) | Ok(_) => {}
            Err(other) => panic!("{}: {:?}", line, other),
        }
    }
}
