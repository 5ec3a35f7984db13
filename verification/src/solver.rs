//! The solver: from tokens to a number.
//!
//! A sequence of tokens is evaluated by precedence climbing. A group is one
//! operand, evaluated on its own; a name is one operand too, evaluated from
//! the tokens that its assignment stored, each time anew. The names under
//! evaluation are kept on a stack, and a name that is met while it is on the
//! stack ends the evaluation: a variable cannot be defined by itself.
//!
//! An operand in front of an operator that binds tighter is raised: it
//! becomes the left-hand side of a climb of its own, whose minimum
//! precedence is one more than that of the climb around it. A sequence is
//! climbed from the least precedence that an operator has, so operators of
//! one precedence are applied from left to right and `a - b * c - d` is
//! `(a - b * c) - d`.

use crate::error::{CalculatorError, ErrorView, SolveReason};
use crate::token::{operator_in, views, Token, TokenView};
use crate::Calculator;
use crate::types::{
    operation_defined, operation_result, precedence_of, Number, NumberView, Operator,
};
use vstd::prelude::*;

verus! {

/// How deep groups and variables may nest in an evaluation.
pub const MAX_NESTING: usize = 128;

/// The least precedence that an operator has: where a sequence is climbed
/// from.
pub const LEAST_PRECEDENCE: u8 = 1;

/// Whether the tokens start as an assignment does: a name, then `=`.
pub open spec fn is_assignment(tokens: Seq<TokenView>) -> bool {
    tokens.len() >= 2 && tokens[0] is Identifier && tokens[1] is Assignment
}

/// The operator applied to two operands, where it has a result.
pub open spec fn applied(op: Operator, lhs: NumberView, rhs: NumberView) -> Result<
    NumberView,
    ErrorView,
> {
    if operation_defined(op, lhs, rhs) {
        Ok(operation_result(op, lhs, rhs))
    } else {
        Err(ErrorView::SolveError(SolveReason::DivisionUndefined))
    }
}

/// The value of one operand: a literal is its own value, a group and a name
/// are evaluated one level deeper, the name from its definition in `env`
/// and with itself on the stack.
pub open spec fn operand_value(
    env: Map<Seq<char>, Seq<TokenView>>,
    stack: Seq<Seq<char>>,
    depth: nat,
    token: TokenView,
) -> Result<NumberView, ErrorView>
    decreases MAX_NESTING - depth, 0nat, 0nat, 0nat,
{
    match token {
        TokenView::Value(number) => Ok(number),
        TokenView::Group(tokens) => {
            if depth >= MAX_NESTING {
                Err(ErrorView::SolveError(SolveReason::TooDeep))
            } else {
                sequence_value(env, stack, depth + 1, tokens)
            }
        },
        TokenView::Identifier(name) => {
            if stack.contains(name) {
                Err(ErrorView::SolveError(SolveReason::VariableCycle))
            } else if !env.contains_key(name) {
                Err(ErrorView::UndefinedVariable(name))
            } else if depth >= MAX_NESTING {
                Err(ErrorView::SolveError(SolveReason::TooDeep))
            } else {
                sequence_value(env, stack.push(name), depth + 1, env[name])
            }
        },
        TokenView::Operator(_) | TokenView::Assignment => Err(
            ErrorView::SolveError(SolveReason::ExpectedValue),
        ),
    }
}

/// The value of a sequence of tokens. A leading `name =` is passed over.
pub open spec fn sequence_value(
    env: Map<Seq<char>, Seq<TokenView>>,
    stack: Seq<Seq<char>>,
    depth: nat,
    tokens: Seq<TokenView>,
) -> Result<NumberView, ErrorView>
    decreases MAX_NESTING - depth, 2nat, 0nat, 0nat,
{
    let first: int = if is_assignment(tokens) {
        2
    } else {
        0
    };
    if tokens.len() == 0 {
        Err(ErrorView::SolveError(SolveReason::ExpectedValue))
    } else if first >= tokens.len() {
        Err(ErrorView::SolveError(SolveReason::ExpectedTokenAfterAssignment))
    } else {
        match operand_value(env, stack, depth, tokens[first]) {
            Ok(lhs) => {
                let least = LEAST_PRECEDENCE as int;
                match climb(env, stack, depth, tokens, first + 1, lhs, least) {
                    Ok((value, _)) => Ok(value),
                    Err(error) => Err(error),
                }
            },
            Err(error) => Err(error),
        }
    }
}

/// Precedence climbing from `pos` on, with `lhs` as the value so far: as
/// long as an operator of at least the precedence `min` comes next, its
/// right operand is evaluated, raised over the operators of higher
/// precedence that follow, and combined with the value so far. Gives the
/// value and the position of the first token that was not used.
///
/// Each step ends behind its operator (`lemma_climb_ends_within`); the test
/// for it is there for the termination of this definition.
pub open spec fn climb(
    env: Map<Seq<char>, Seq<TokenView>>,
    stack: Seq<Seq<char>>,
    depth: nat,
    tokens: Seq<TokenView>,
    pos: int,
    lhs: NumberView,
    min: int,
) -> Result<(NumberView, int), ErrorView>
    decreases MAX_NESTING - depth, 1nat, tokens.len() - pos, 0nat,
{
    if 0 <= pos < tokens.len() && operator_in(tokens[pos]) is Some && precedence_of(
        operator_in(tokens[pos])->Some_0,
    ) >= min {
        let op = operator_in(tokens[pos])->Some_0;
        if pos + 1 >= tokens.len() {
            Err(ErrorView::SolveError(SolveReason::ExpectedValueAfterOperator))
        } else {
            match operand_value(env, stack, depth, tokens[pos + 1]) {
                Ok(operand) => match raise(env, stack, depth, tokens, pos + 2, operand, op, min) {
                    Ok((rhs, next)) => match applied(op, lhs, rhs) {
                        Ok(value) => {
                            if pos < next <= tokens.len() {
                                climb(env, stack, depth, tokens, next, value, min)
                            } else {
                                Ok((value, next))
                            }
                        },
                        Err(error) => Err(error),
                    },
                    Err(error) => Err(error),
                },
                Err(error) => Err(error),
            }
        }
    } else {
        Ok((lhs, pos))
    }
}

/// The right operand of `op`, raised: as long as an operator of higher
/// precedence than `op` comes next, the operand so far is the left-hand
/// side of a climb whose minimum is one more than `min`.
pub open spec fn raise(
    env: Map<Seq<char>, Seq<TokenView>>,
    stack: Seq<Seq<char>>,
    depth: nat,
    tokens: Seq<TokenView>,
    pos: int,
    rhs: NumberView,
    op: Operator,
    min: int,
) -> Result<(NumberView, int), ErrorView>
    decreases MAX_NESTING - depth, 1nat, tokens.len() - pos, 1nat,
{
    if 0 <= pos < tokens.len() && operator_in(tokens[pos]) is Some && precedence_of(
        operator_in(tokens[pos])->Some_0,
    ) > precedence_of(op) {
        match climb(env, stack, depth, tokens, pos, rhs, min + 1) {
            Ok((value, next)) => {
                if pos < next <= tokens.len() {
                    raise(env, stack, depth, tokens, next, value, op, min)
                } else {
                    Ok((value, next))
                }
            },
            Err(error) => Err(error),
        }
    } else {
        Ok((rhs, pos))
    }
}

/// The value of the tokens of a line in the environment.
pub open spec fn evaluate(env: Map<Seq<char>, Seq<TokenView>>, tokens: Seq<TokenView>) -> Result<
    NumberView,
    ErrorView,
> {
    sequence_value(env, Seq::empty(), 0, tokens)
}

/// The names on a stack, as texts.
pub open spec fn names(stack: Seq<String>) -> Seq<Seq<char>> {
    Seq::new(stack.len(), |i: int| stack[i]@)
}

/// Whether the outcome of an evaluation is the one that the model gives.
pub open spec fn solved_as(
    result: Result<Number, CalculatorError>,
    model: Result<NumberView, ErrorView>,
) -> bool {
    match model {
        Ok(value) => result is Ok && result->Ok_0@ == value,
        Err(error) => result is Err && result->Err_0@ == error,
    }
}

/// Whether the outcome of a climb is the one that the model gives.
pub open spec fn climbed_as(
    result: Result<(Number, usize), CalculatorError>,
    model: Result<(NumberView, int), ErrorView>,
) -> bool {
    match model {
        Ok((value, next)) => result is Ok && result->Ok_0.0@ == value && result->Ok_0.1 == next,
        Err(error) => result is Err && result->Err_0@ == error,
    }
}

/// Whether an operator of at least the precedence `min` stands at `pos`.
pub open spec fn operator_at(tokens: Seq<TokenView>, pos: int, min: int) -> bool {
    0 <= pos < tokens.len() && operator_in(tokens[pos]) is Some && precedence_of(
        operator_in(tokens[pos])->Some_0,
    ) >= min
}

/// A climb ends where it started or behind, within the tokens, and behind
/// the operator and its operand where it started at an operator that it
/// takes.
pub proof fn lemma_climb_ends_within(
    env: Map<Seq<char>, Seq<TokenView>>,
    stack: Seq<Seq<char>>,
    depth: nat,
    tokens: Seq<TokenView>,
    pos: int,
    lhs: NumberView,
    min: int,
)
    requires
        0 <= pos <= tokens.len(),
    ensures
        climb(env, stack, depth, tokens, pos, lhs, min) matches Ok((_, next)) ==> {
            &&& pos <= next <= tokens.len()
            &&& operator_at(tokens, pos, min) ==> pos + 2 <= next
        },
    decreases tokens.len() - pos, 0nat,
{
    if operator_at(tokens, pos, min) && pos + 1 < tokens.len() {
        let op = operator_in(tokens[pos])->Some_0;
        match operand_value(env, stack, depth, tokens[pos + 1]) {
            Ok(operand) => {
                lemma_raise_ends_within(env, stack, depth, tokens, pos + 2, operand, op, min);
                match raise(env, stack, depth, tokens, pos + 2, operand, op, min) {
                    Ok((rhs, next)) => match applied(op, lhs, rhs) {
                        Ok(value) => {
                            lemma_climb_ends_within(env, stack, depth, tokens, next, value, min);
                        },
                        Err(_) => {},
                    },
                    Err(_) => {},
                }
            },
            Err(_) => {},
        }
    }
}

/// Raising an operand ends where it started or behind, within the tokens.
pub proof fn lemma_raise_ends_within(
    env: Map<Seq<char>, Seq<TokenView>>,
    stack: Seq<Seq<char>>,
    depth: nat,
    tokens: Seq<TokenView>,
    pos: int,
    rhs: NumberView,
    op: Operator,
    min: int,
)
    requires
        0 <= pos <= tokens.len(),
        min <= precedence_of(op),
    ensures
        raise(env, stack, depth, tokens, pos, rhs, op, min) matches Ok((_, next)) ==> pos <= next
            <= tokens.len(),
    decreases tokens.len() - pos, 1nat,
{
    if operator_at(tokens, pos, precedence_of(op) + 1) {
        lemma_climb_ends_within(env, stack, depth, tokens, pos, rhs, min + 1);
        match climb(env, stack, depth, tokens, pos, rhs, min + 1) {
            Ok((value, next)) => {
                lemma_raise_ends_within(env, stack, depth, tokens, next, value, op, min);
            },
            Err(_) => {},
        }
    }
}

/// Whether the name is on the stack.
fn on_stack(stack: &Vec<String>, name: &String) -> (found: bool)
    ensures
        found == names(stack@).contains(name@),
{
    let mut i: usize = 0;
    while i < stack.len()
        invariant
            i <= stack.len(),
            forall|k: int| 0 <= k < i ==> names(stack@)[k] != name@,
        decreases stack.len() - i,
    {
        if stack[i] == *name {
            assert(names(stack@)[i as int] == name@);
            return true;
        }
        i += 1;
    }
    false
}

/// Evaluates tokens against the assignments of a calculator.
pub struct Solver<'a> {
    tokens: Vec<Token>,
    calculator: &'a Calculator,
}

impl<'a> Solver<'a> {
    /// The tokens to evaluate.
    pub closed spec fn tokens(&self) -> Seq<TokenView> {
        views(self.tokens@)
    }

    /// The environment in which they are evaluated.
    pub closed spec fn env(&self) -> Map<Seq<char>, Seq<TokenView>> {
        self.calculator@
    }

    /// A solver for the tokens, with the assignments of the calculator.
    pub fn new(calculator: &'a Calculator, tokens: Vec<Token>) -> (solver: Self)
        ensures
            solver.tokens() == views(tokens@),
            solver.env() == calculator@,
    {
        Self { tokens, calculator }
    }

    /// Evaluates one operand.
    fn solve_token(&self, token: &Token, stack: &mut Vec<String>, depth: usize) -> (result: Result<
        Number,
        CalculatorError,
    >)
        requires
            depth <= MAX_NESTING,
        ensures
            final(stack)@ == old(stack)@,
            solved_as(result, operand_value(self.env(), names(old(stack)@), depth as nat, token@)),
        decreases MAX_NESTING - depth, 0nat, 0nat,
    {
        match token {
            Token::Value(v) => Ok(v.clone()),
            Token::Group(tokens) => {
                proof {
                    Token::lemma_group_view(*tokens);
                }
                if depth >= MAX_NESTING {
                    return Err(CalculatorError::SolveError(SolveReason::TooDeep));
                }
                self.solve_token_list(tokens, stack, depth + 1)
            },
            Token::Identifier(ident) => {
                if on_stack(stack, ident) {
                    return Err(CalculatorError::SolveError(SolveReason::VariableCycle));
                }
                let tokens = match self.calculator.definition(ident.as_str()) {
                    Some(tokens) => tokens,
                    None => {
                        return Err(CalculatorError::UndefinedVariable(ident.clone()));
                    },
                };
                if depth >= MAX_NESTING {
                    return Err(CalculatorError::SolveError(SolveReason::TooDeep));
                }
                stack.push(ident.clone());
                assert(names(stack@) =~= names(old(stack)@).push(ident@));
                let solved = self.solve_token_list(tokens, stack, depth + 1);
                stack.pop();
                assert(stack@ =~= old(stack)@);
                solved
            },
            _ => Err(CalculatorError::SolveError(SolveReason::ExpectedValue)),
        }
    }

    /// Evaluates a sequence of tokens.
    fn solve_token_list(
        &self,
        tokens: &Vec<Token>,
        stack: &mut Vec<String>,
        depth: usize,
    ) -> (result: Result<Number, CalculatorError>)
        requires
            depth <= MAX_NESTING,
        ensures
            final(stack)@ == old(stack)@,
            solved_as(
                result,
                sequence_value(self.env(), names(old(stack)@), depth as nat, views(tokens@)),
            ),
        decreases MAX_NESTING - depth, 2nat, 0nat,
    {
        if tokens.len() == 0 {
            return Err(CalculatorError::SolveError(SolveReason::ExpectedValue));
        }
        let mut first: usize = 0;
        if tokens.len() >= 2 {
            if let Token::Identifier(_) = &tokens[0] {
                if let Token::Assignment = &tokens[1] {
                    first = 2;
                }
            }
        }
        if first >= tokens.len() {
            return Err(CalculatorError::SolveError(SolveReason::ExpectedTokenAfterAssignment));
        }
        let lhs = match self.solve_token(&tokens[first], stack, depth) {
            Ok(lhs) => lhs,
            Err(error) => {
                return Err(error);
            },
        };
        match self.solve_precendence(lhs, tokens, first + 1, LEAST_PRECEDENCE, stack, depth) {
            Ok((value, _)) => Ok(value),
            Err(error) => Err(error),
        }
    }

    /// Climbs from `pos` on with `lhs` as the value so far. Returns the
    /// value and the position of the first token that it did not use.
    fn solve_precendence(
        &self,
        lhs: Number,
        tokens: &Vec<Token>,
        pos: usize,
        min_precedence: u8,
        stack: &mut Vec<String>,
        depth: usize,
    ) -> (result: Result<(Number, usize), CalculatorError>)
        requires
            depth <= MAX_NESTING,
            pos <= tokens.len(),
            min_precedence <= 2,
        ensures
            final(stack)@ == old(stack)@,
            climbed_as(
                result,
                climb(
                    self.env(),
                    names(old(stack)@),
                    depth as nat,
                    views(tokens@),
                    pos as int,
                    lhs@,
                    min_precedence as int,
                ),
            ),
            result is Ok ==> pos <= result->Ok_0.1 <= tokens.len(),
            result is Ok && operator_at(views(tokens@), pos as int, min_precedence as int)
                ==> result->Ok_0.1 >= pos + 2,
        decreases MAX_NESTING - depth, 1nat, tokens.len() - pos,
    {
        let ghost env = self.env();
        let ghost active = names(stack@);
        let ghost model = views(tokens@);
        let ghost goal = climb(
            env,
            active,
            depth as nat,
            model,
            pos as int,
            lhs@,
            min_precedence as int,
        );
        let ghost first = lhs@;
        let mut value = lhs;
        let mut at: usize = pos;
        loop
            invariant
                depth <= MAX_NESTING,
                min_precedence <= 2,
                env == self.env(),
                model == views(tokens@),
                stack@ == old(stack)@,
                active == names(stack@),
                goal == climb(
                    env,
                    active,
                    depth as nat,
                    model,
                    pos as int,
                    first,
                    min_precedence as int,
                ),
                first == lhs@,
                pos <= at <= tokens.len(),
                at == pos || at >= pos + 2,
                at == pos || operator_at(model, pos as int, min_precedence as int),
                goal == climb(
                    env,
                    active,
                    depth as nat,
                    model,
                    at as int,
                    value@,
                    min_precedence as int,
                ),
            decreases tokens.len() - at,
        {
            if at >= tokens.len() {
                return Ok((value, at));
            }
            let op = match tokens[at].to_operator() {
                Some(op) => op,
                None => {
                    return Ok((value, at));
                },
            };
            if op.precedence() < min_precedence {
                return Ok((value, at));
            }
            if at + 1 >= tokens.len() {
                return Err(CalculatorError::SolveError(SolveReason::ExpectedValueAfterOperator));
            }
            let mut rhs = match self.solve_token(&tokens[at + 1], stack, depth) {
                Ok(rhs) => rhs,
                Err(error) => {
                    return Err(error);
                },
            };
            let mut next: usize = at + 2;
            let ghost raised = raise(
                env,
                active,
                depth as nat,
                model,
                next as int,
                rhs@,
                op,
                min_precedence as int,
            );
            loop
                invariant
                    depth <= MAX_NESTING,
                    min_precedence <= 2,
                    min_precedence <= precedence_of(op),
                    env == self.env(),
                    model == views(tokens@),
                    stack@ == old(stack)@,
                    active == names(stack@),
                    pos <= at,
                    at + 2 <= next <= tokens.len(),
                    raised is Err ==> goal == raised,
                    first == lhs@,
                    goal == climb(
                        env,
                        active,
                        depth as nat,
                        model,
                        pos as int,
                        first,
                        min_precedence as int,
                    ),
                    raised == raise(
                        env,
                        active,
                        depth as nat,
                        model,
                        next as int,
                        rhs@,
                        op,
                        min_precedence as int,
                    ),
                ensures
                    at + 2 <= next <= tokens.len(),
                    stack@ == old(stack)@,
                    raised == Ok::<(NumberView, int), ErrorView>((rhs@, next as int)),
                decreases tokens.len() - next,
            {
                if next >= tokens.len() {
                    break ;
                }
                let higher = match tokens[next].to_operator() {
                    Some(op2) => op2.precedence() > op.precedence(),
                    None => false,
                };
                if !higher {
                    break ;
                }
                match self.solve_precendence(rhs, tokens, next, min_precedence + 1, stack, depth) {
                    Ok((raised_rhs, after)) => {
                        rhs = raised_rhs;
                        next = after;
                    },
                    Err(error) => {
                        return Err(error);
                    },
                }
            }
            if !op.applies_to(&value, &rhs) {
                return Err(CalculatorError::SolveError(SolveReason::DivisionUndefined));
            }
            value = op.apply(value, rhs);
            at = next;
        }
    }

    /// Evaluates the tokens of the solver.
    pub fn solve(&self) -> (result: Result<Number, CalculatorError>)
        ensures
            solved_as(result, evaluate(self.env(), self.tokens())),
    {
        let mut stack: Vec<String> = Vec::new();
        assert(names(stack@) =~= Seq::empty());
        self.solve_token_list(&self.tokens, &mut stack, 0)
    }
}

} // verus!
