use rust_calculator::error::{CalculatorError, SolveReason};
use rust_calculator::solver::Solver;
use rust_calculator::token::Token;
use rust_calculator::types::{Number, Operator};
use rust_calculator::Calculator;

fn integer(i: i32) -> Token {
    Token::Value(Number::Integer(i))
}

fn op(operator: Operator) -> Token {
    Token::Operator(operator)
}

fn name(text: &str) -> Token {
    Token::Identifier(text.to_string())
}

fn solve(calculator: &Calculator, tokens: Vec<Token>) -> Result<Number, CalculatorError> {
    Solver::new(calculator, tokens).solve()
}

fn reason(reason: SolveReason) -> Result<Number, CalculatorError> {
    Err(CalculatorError::SolveError(reason))
}

#[test]
fn a_single_value_is_its_own_result() {
    let calculator = Calculator::new();
    assert_eq!(solve(&calculator, vec![integer(42)]), Ok(Number::Integer(42)));
    assert_eq!(
        solve(&calculator, vec![Token::Group(vec![Token::Group(vec![integer(-3)])])]),
        Ok(Number::Integer(-3))
    );
}

#[test]
fn missing_tokens_are_solve_errors() {
    let calculator = Calculator::new();
    assert_eq!(solve(&calculator, vec![]), reason(SolveReason::ExpectedValue));
    assert_eq!(
        solve(&calculator, vec![Token::Group(vec![])]),
        reason(SolveReason::ExpectedValue)
    );
    assert_eq!(
        solve(&calculator, vec![integer(1), op(Operator::Add)]),
        reason(SolveReason::ExpectedValueAfterOperator)
    );
    assert_eq!(
        solve(&calculator, vec![integer(1), op(Operator::Add), integer(2), op(Operator::Multiply)]),
        reason(SolveReason::ExpectedValueAfterOperator)
    );
    assert_eq!(
        solve(&calculator, vec![name("a"), Token::Assignment]),
        reason(SolveReason::ExpectedTokenAfterAssignment)
    );
}

#[test]
fn an_operator_is_no_operand() {
    let calculator = Calculator::new();
    assert_eq!(
        solve(&calculator, vec![op(Operator::Add)]),
        reason(SolveReason::ExpectedValue)
    );
    assert_eq!(
        solve(&calculator, vec![Token::Assignment, integer(1)]),
        reason(SolveReason::ExpectedValue)
    );
    assert_eq!(
        solve(&calculator, vec![integer(1), op(Operator::Add), op(Operator::Add), integer(2)]),
        reason(SolveReason::ExpectedValue)
    );
}

#[test]
fn a_leading_assignment_is_passed_over() {
    let calculator = Calculator::new();
    assert_eq!(
        solve(
            &calculator,
            vec![name("a"), Token::Assignment, integer(2), op(Operator::Multiply), integer(3)]
        ),
        Ok(Number::Integer(6))
    );
    assert_eq!(
        solve(&calculator, vec![integer(1), Token::Assignment, integer(2)]),
        Ok(Number::Integer(1))
    );
}

#[test]
fn evaluation_stops_at_the_first_token_that_is_no_operator() {
    let calculator = Calculator::new();
    assert_eq!(
        solve(&calculator, vec![integer(1), integer(2), op(Operator::Add), integer(3)]),
        Ok(Number::Integer(1))
    );
    assert_eq!(
        solve(
            &calculator,
            vec![
                integer(1),
                op(Operator::Add),
                integer(2),
                integer(3),
                op(Operator::Add),
                integer(4)
            ]
        ),
        Ok(Number::Integer(3))
    );
}

#[test]
fn a_solver_reads_the_assignments_of_its_calculator() {
    let mut calculator = Calculator::new();
    assert_eq!(calculator.exec("a = 2 * 5"), Ok(None));
    assert_eq!(
        solve(&calculator, vec![name("a"), op(Operator::Subtract), integer(1)]),
        Ok(Number::Integer(9))
    );
    assert_eq!(
        solve(&calculator, vec![name("b")]),
        Err(CalculatorError::UndefinedVariable("b".to_string()))
    );
    let solver = Solver::new(&calculator, vec![name("a")]);
    assert_eq!(solver.solve(), Ok(Number::Integer(10)));
    assert_eq!(solver.solve(), Ok(Number::Integer(10)));
}

#[test]
fn groups_are_followed_up_to_the_limit() {
    let calculator = Calculator::new();
    let nested = |levels: usize| {
        let mut token = integer(1);
        for _ in 0..levels {
            token = Token::Group(vec![token]);
        }
        vec![token]
    };
    assert_eq!(solve(&calculator, nested(128)), Ok(Number::Integer(1)));
    assert_eq!(solve(&calculator, nested(129)), reason(SolveReason::TooDeep));
}
