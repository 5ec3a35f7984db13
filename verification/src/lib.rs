//! A calculator for lines of arithmetic.
//!
//! A line is either an expression, which is evaluated, or an assignment
//! `name = expression`, which is stored under the name without being
//! evaluated. A name in an expression stands for what its assignment stored,
//! evaluated where the name is used.

pub mod ascii;
pub mod error;
pub mod laws;
pub mod literal;
pub mod parser;
pub mod shape;
pub mod solver;
pub mod token;
pub mod types;

use crate::error::{CalculatorError, ErrorView};
use crate::parser::{parse, parse_bytes};
use crate::shape::{
    holds_lines, lacks_a_token, lemma_execute_keeps_lines, lemma_parsed_lines_lack_no_token,
};
use crate::solver::{evaluate, is_assignment, Solver};
use crate::token::{views, Token, TokenView};
use crate::types::{Number, NumberView};
use vstd::hash_map::StringHashMap;
use vstd::prelude::*;
use vstd::string::StringSliceAdditionalSpecFns;

verus! {

/// What a line does in an environment: what it yields, and the environment
/// that it leaves. An assignment yields no value and stores the tokens of
/// the whole line under its name; any other line yields its value. A line
/// that fails leaves the environment as it was.
pub open spec fn execute(env: Map<Seq<char>, Seq<TokenView>>, line: Seq<u8>) -> (
    Result<Option<NumberView>, ErrorView>,
    Map<Seq<char>, Seq<TokenView>>,
) {
    match parse_bytes(line) {
        Err(error) => (Err(error), env),
        Ok(tokens) => {
            if is_assignment(tokens) {
                (Ok(None), env.insert(tokens[0]->Identifier_0, tokens))
            } else {
                match evaluate(env, tokens) {
                    Ok(value) => (Ok(Some(value)), env),
                    Err(error) => (Err(error), env),
                }
            }
        },
    }
}

/// Whether the outcome of a line is the one that the model gives.
pub open spec fn executed_as(
    result: Result<Option<Number>, CalculatorError>,
    model: Result<Option<NumberView>, ErrorView>,
) -> bool {
    match model {
        Ok(Some(value)) => result is Ok && result->Ok_0 is Some && result->Ok_0->Some_0@ == value,
        Ok(None) => result is Ok && result->Ok_0 is None,
        Err(error) => result is Err && result->Err_0@ == error,
    }
}

/// The calculator: the assignments made so far.
pub struct Calculator {
    assignments: StringHashMap<Vec<Token>>,
}

impl Calculator {
    /// The environment: for each assigned name, the tokens of the line that
    /// assigned it last.
    pub closed spec fn view(&self) -> Map<Seq<char>, Seq<TokenView>> {
        self.assignments@.map_values(|tokens: Vec<Token>| views(tokens@))
    }

    /// Create a new calculator
    pub fn new() -> (calculator: Self)
        ensures
            calculator@ == Map::<Seq<char>, Seq<TokenView>>::empty(),
            holds_lines(calculator@),
    {
        let calculator = Self { assignments: StringHashMap::new() };
        assert(calculator@ =~= Map::<Seq<char>, Seq<TokenView>>::empty());
        calculator
    }

    /// Calculates the result for the given expression, or stores it if it
    /// is an assignment, which yields no result.
    pub fn exec(&mut self, expression: &str) -> (result: Result<Option<Number>, CalculatorError>)
        ensures
            executed_as(result, execute(old(self)@, expression.spec_bytes()).0),
            final(self)@ == execute(old(self)@, expression.spec_bytes()).1,
            !(result matches Ok(None)) ==> final(self)@ == old(self)@,
            holds_lines(old(self)@) ==> holds_lines(final(self)@) && !lacks_a_token(
                execute(old(self)@, expression.spec_bytes()).0,
            ),
    {
        proof {
            if holds_lines(self@) {
                lemma_parsed_lines_lack_no_token(self@, expression.spec_bytes());
                lemma_execute_keeps_lines(self@, expression.spec_bytes());
            }
        }
        let tokens = match parse(expression) {
            Ok(tokens) => tokens,
            Err(error) => {
                return Err(error);
            },
        };
        if tokens.len() >= 2 {
            if let Token::Identifier(ident) = &tokens[0] {
                if let Token::Assignment = &tokens[1] {
                    let name = ident.clone();
                    let ghost stored = views(tokens@);
                    self.assignments.insert(name, tokens);
                    assert(self@ =~= old(self)@.insert(stored[0]->Identifier_0, stored));
                    return Ok(None);
                }
            }
        }
        match Solver::new(self, tokens).solve() {
            Ok(value) => Ok(Some(value)),
            Err(error) => Err(error),
        }
    }

    /// The tokens stored under the name, if it was assigned.
    pub fn definition(&self, name: &str) -> (tokens: Option<&Vec<Token>>)
        ensures
            match tokens {
                Some(tokens) => self@.contains_key(name@) && views(tokens@) == self@[name@],
                None => !self@.contains_key(name@),
            },
    {
        self.assignments.get(name)
    }
}

impl Default for Calculator {
    fn default() -> (calculator: Self)
        ensures
            calculator@ == Map::<Seq<char>, Seq<TokenView>>::empty(),
            holds_lines(calculator@),
    {
        Calculator::new()
    }
}

} // verus!
