//! What can go wrong while a line is read or evaluated.

use vstd::prelude::*;
use vstd::string::StringExecFns;

verus! {

/// Why an evaluation failed.
#[derive(Debug, Clone, Copy, PartialEq, Eq, Structural)]
pub enum SolveReason {
    /// There is no token to evaluate.
    ExpectedValue,
    /// Nothing follows `name =`.
    ExpectedTokenAfterAssignment,
    /// An operator lacks its right operand.
    ExpectedValueAfterOperator,
    /// A variable is defined, directly or through others, by itself.
    VariableCycle,
    /// An integer was divided by zero, or the least integer by -1.
    DivisionUndefined,
    /// Groups and variables are nested deeper than the evaluator follows.
    TooDeep,
}

/// An error of the calculator.
#[derive(Debug, PartialEq)]
pub enum CalculatorError {
    /// Something else stands where a number, a name or a group must.
    ExpectedNumberOrGroup,
    /// A numeric literal is not an integer of 32 bits or a decimal number.
    InvalidNumber,
    /// The input ends inside a group.
    UnterminatedGroup,
    /// A `)` closes a group that was never opened.
    UnexpectedGroupEnd,
    /// A `=` stands elsewhere than right after the name that starts a line.
    MisplacedAssignment,
    /// Groups are nested deeper than the parser follows.
    NestingTooDeep,
    /// No assignment has given the variable a definition.
    UndefinedVariable(String),
    /// The tokens cannot be evaluated.
    SolveError(SolveReason),
}

/// The mathematical model of a [`CalculatorError`].
pub enum ErrorView {
    ExpectedNumberOrGroup,
    InvalidNumber,
    UnterminatedGroup,
    UnexpectedGroupEnd,
    MisplacedAssignment,
    NestingTooDeep,
    UndefinedVariable(Seq<char>),
    SolveError(SolveReason),
}

/// The text that describes a reason.
pub open spec fn reason_text(reason: SolveReason) -> Seq<char> {
    match reason {
        SolveReason::ExpectedValue => "Expected a value"@,
        SolveReason::ExpectedTokenAfterAssignment => "Expected token after assignment"@,
        SolveReason::ExpectedValueAfterOperator => "Expected value after operator"@,
        SolveReason::VariableCycle => "A used variable was already used as part of the calculation"@,
        SolveReason::DivisionUndefined => "Division by zero"@,
        SolveReason::TooDeep => "The calculation is nested too deeply"@,
    }
}

/// The text that describes an error.
pub open spec fn error_text(error: ErrorView) -> Seq<char> {
    match error {
        ErrorView::ExpectedNumberOrGroup => "Expected a number but got something else"@,
        ErrorView::InvalidNumber => "Invalid number"@,
        ErrorView::UnterminatedGroup => "Expected a closing parenthesis"@,
        ErrorView::UnexpectedGroupEnd => "Unexpected closing parenthesis"@,
        ErrorView::MisplacedAssignment => "Unexpected assignment"@,
        ErrorView::NestingTooDeep => "The groups are nested too deeply"@,
        ErrorView::UndefinedVariable(name) => "unable to find variable with name "@ + name,
        ErrorView::SolveError(reason) => reason_text(reason),
    }
}

impl SolveReason {
    /// The text that describes the reason.
    pub fn message(&self) -> (text: &'static str)
        ensures
            text@ == reason_text(*self),
    {
        match self {
            SolveReason::ExpectedValue => "Expected a value",
            SolveReason::ExpectedTokenAfterAssignment => "Expected token after assignment",
            SolveReason::ExpectedValueAfterOperator => "Expected value after operator",
            SolveReason::VariableCycle => "A used variable was already used as part of the calculation",
            SolveReason::DivisionUndefined => "Division by zero",
            SolveReason::TooDeep => "The calculation is nested too deeply",
        }
    }
}

impl CalculatorError {
    pub open spec fn view(&self) -> ErrorView {
        match self {
            CalculatorError::ExpectedNumberOrGroup => ErrorView::ExpectedNumberOrGroup,
            CalculatorError::InvalidNumber => ErrorView::InvalidNumber,
            CalculatorError::UnterminatedGroup => ErrorView::UnterminatedGroup,
            CalculatorError::UnexpectedGroupEnd => ErrorView::UnexpectedGroupEnd,
            CalculatorError::MisplacedAssignment => ErrorView::MisplacedAssignment,
            CalculatorError::NestingTooDeep => ErrorView::NestingTooDeep,
            CalculatorError::UndefinedVariable(name) => ErrorView::UndefinedVariable(name@),
            CalculatorError::SolveError(reason) => ErrorView::SolveError(*reason),
        }
    }

    /// The text that describes the error, as it is shown to the user.
    pub fn message(&self) -> (text: String)
        ensures
            text@ == error_text(self@),
    {
        match self {
            CalculatorError::ExpectedNumberOrGroup => String::from_str(
                "Expected a number but got something else",
            ),
            CalculatorError::InvalidNumber => String::from_str("Invalid number"),
            CalculatorError::UnterminatedGroup => String::from_str("Expected a closing parenthesis"),
            CalculatorError::UnexpectedGroupEnd => String::from_str(
                "Unexpected closing parenthesis",
            ),
            CalculatorError::MisplacedAssignment => String::from_str("Unexpected assignment"),
            CalculatorError::NestingTooDeep => String::from_str("The groups are nested too deeply"),
            CalculatorError::UndefinedVariable(name) => String::from_str(
                "unable to find variable with name ",
            ).concat(name.as_str()),
            CalculatorError::SolveError(reason) => String::from_str(reason.message()),
        }
    }
}

} // verus!
