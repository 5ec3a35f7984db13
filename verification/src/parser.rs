//! The parser: from the bytes of a line to its tokens.
//!
//! It is a state machine that reads one byte at a time. Where a value is
//! expected, a digit, `.` or `-` starts a number and a letter starts a name,
//! so a `-` there is the sign of a literal and never an operator. A number
//! runs on over digits, `.` and `-`, a name over letters and digits. After a
//! value come an operator, the `)` that ends a group, or the `=` of an
//! assignment; any other byte there is passed over.

use crate::ascii::{
    CARRIAGE_RETURN, CLOSE_PAREN, DIGIT_NINE, DIGIT_ZERO, DOT, EQUALS, LINE_FEED, LOWER_A, LOWER_Z,
    MINUS, OPEN_PAREN, PLUS, SLASH, SPACE, STAR, UPPER_A, UPPER_Z,
};
use crate::error::{CalculatorError, ErrorView};
use crate::literal::{ascii_text, is_digit_byte, number_literal, parse_number, text_of};
use crate::token::{push_token, views, Token, TokenView};
use crate::types::Operator;
use vstd::prelude::*;
use vstd::string::StringSliceAdditionalSpecFns;

verus! {

/// How deep groups may nest.
pub const MAX_DEPTH: usize = 128;

/// Where the parser stands.
#[derive(Debug, Clone, Copy, PartialEq, Eq, Structural)]
pub enum State {
    /// At the start of a sequence.
    Idle,
    /// Inside a number that started at the given position.
    Number(usize),
    /// Inside a name that started at the given position.
    Identifier(usize),
    /// Right after an operator.
    FromOperator,
    /// Right after a number or a group.
    FromNumber,
    /// Right after a name.
    FromIdentifier,
    /// Right after the `=` of an assignment.
    FromAssignment,
}

pub open spec fn is_numeric_byte(c: u8) -> bool {
    is_digit_byte(c) || c == DOT || c == MINUS
}

pub open spec fn is_alpha_byte(c: u8) -> bool {
    LOWER_A <= c <= LOWER_Z || UPPER_A <= c <= UPPER_Z
}

pub open spec fn is_whitespace_byte(c: u8) -> bool {
    c == SPACE || c == CARRIAGE_RETURN || c == LINE_FEED
}

/// The operator that the byte denotes, if it denotes one.
pub open spec fn operator_of(c: u8) -> Option<Operator> {
    if c == PLUS {
        Some(Operator::Add)
    } else if c == STAR {
        Some(Operator::Multiply)
    } else if c == SLASH {
        Some(Operator::Div)
    } else if c == MINUS {
        Some(Operator::Subtract)
    } else {
        None
    }
}

/// Whether the byte can stand in a number: a digit, `.` or `-`.
pub fn is_numeric(c: u8) -> (numeric: bool)
    ensures
        numeric == is_numeric_byte(c),
{
    (DIGIT_ZERO <= c && c <= DIGIT_NINE) || c == DOT || c == MINUS
}

/// Whether the byte is a letter.
pub fn is_alpha(c: u8) -> (alpha: bool)
    ensures
        alpha == is_alpha_byte(c),
{
    (LOWER_A <= c && c <= LOWER_Z) || (UPPER_A <= c && c <= UPPER_Z)
}

/// Whether the byte is a space, a carriage return or a line feed.
pub fn is_whitespace(c: u8) -> (whitespace: bool)
    ensures
        whitespace == is_whitespace_byte(c),
{
    c == SPACE || c == CARRIAGE_RETURN || c == LINE_FEED
}

/// The operator that the byte denotes, if it denotes one.
pub fn get_operator(c: u8) -> (op: Option<Operator>)
    ensures
        op == operator_of(c),
{
    if c == PLUS {
        Some(Operator::Add)
    } else if c == STAR {
        Some(Operator::Multiply)
    } else if c == SLASH {
        Some(Operator::Div)
    } else if c == MINUS {
        Some(Operator::Subtract)
    } else {
        None
    }
}

/// Whether a value is expected in the state.
pub open spec fn expects_value(state: State) -> bool {
    state is Idle || state is FromOperator || state is FromAssignment
}

/// Whether an assignment may follow the tokens read so far: at the top
/// level, right after the one name that starts the line.
pub open spec fn may_assign(depth: nat, tokens: Seq<TokenView>) -> bool {
    depth == 0 && tokens.len() == 1 && tokens[0] is Identifier
}

/// What the end of a sequence yields at the position: inside a group the
/// input ended too early.
pub open spec fn finish(pos: int, depth: nat, tokens: Seq<TokenView>) -> Result<
    (int, Seq<TokenView>),
    ErrorView,
> {
    if depth > 0 {
        Err(ErrorView::UnterminatedGroup)
    } else {
        Ok((pos, tokens))
    }
}

/// The run of the state machine over `s` from `pos` on, in the given state
/// and at the given depth of groups, after `tokens` have been read: the
/// position behind the sequence that ends first and the tokens of that
/// sequence, or the first error.
///
/// A group always ends behind its `(` (`lemma_scan_ends_within`); the test
/// for it is there for the termination of this definition.
pub open spec fn scan(s: Seq<u8>, pos: int, state: State, depth: nat, tokens: Seq<TokenView>)
    -> Result<(int, Seq<TokenView>), ErrorView>
    decreases s.len() - pos, (if state is Number || state is Identifier { 1nat } else { 0nat }),
{
    if pos >= s.len() {
        match state {
            State::Idle | State::FromOperator | State::FromAssignment => Err(
                ErrorView::ExpectedNumberOrGroup,
            ),
            State::Number(start) => match number_literal(s.subrange(start as int, pos)) {
                Some(number) => finish(pos, depth, tokens.push(TokenView::Value(number))),
                None => Err(ErrorView::InvalidNumber),
            },
            State::Identifier(start) => finish(
                pos,
                depth,
                tokens.push(TokenView::Identifier(ascii_text(s.subrange(start as int, pos)))),
            ),
            State::FromNumber | State::FromIdentifier => finish(pos, depth, tokens),
        }
    } else {
        let c = s[pos];
        match state {
            State::Idle | State::FromOperator | State::FromAssignment => {
                if is_numeric_byte(c) {
                    scan(s, pos + 1, State::Number(pos as usize), depth, tokens)
                } else if is_alpha_byte(c) {
                    scan(s, pos + 1, State::Identifier(pos as usize), depth, tokens)
                } else if is_whitespace_byte(c) {
                    scan(s, pos + 1, state, depth, tokens)
                } else if c == OPEN_PAREN {
                    if depth >= MAX_DEPTH {
                        Err(ErrorView::NestingTooDeep)
                    } else {
                        match scan(s, pos + 1, State::Idle, depth + 1, Seq::empty()) {
                            Ok((end, group)) => {
                                if pos < end <= s.len() {
                                    scan(
                                        s,
                                        end,
                                        State::FromNumber,
                                        depth,
                                        tokens.push(TokenView::Group(group)),
                                    )
                                } else {
                                    Err(ErrorView::UnterminatedGroup)
                                }
                            },
                            Err(error) => Err(error),
                        }
                    }
                } else {
                    Err(ErrorView::ExpectedNumberOrGroup)
                }
            },
            State::Number(start) => {
                if is_numeric_byte(c) {
                    scan(s, pos + 1, state, depth, tokens)
                } else {
                    match number_literal(s.subrange(start as int, pos)) {
                        Some(number) => scan(
                            s,
                            pos,
                            State::FromNumber,
                            depth,
                            tokens.push(TokenView::Value(number)),
                        ),
                        None => Err(ErrorView::InvalidNumber),
                    }
                }
            },
            State::Identifier(start) => {
                if is_alpha_byte(c) || is_digit_byte(c) {
                    scan(s, pos + 1, state, depth, tokens)
                } else {
                    scan(
                        s,
                        pos,
                        State::FromIdentifier,
                        depth,
                        tokens.push(
                            TokenView::Identifier(ascii_text(s.subrange(start as int, pos))),
                        ),
                    )
                }
            },
            State::FromNumber | State::FromIdentifier => {
                if operator_of(c) is Some {
                    scan(
                        s,
                        pos + 1,
                        State::FromOperator,
                        depth,
                        tokens.push(TokenView::Operator(operator_of(c)->Some_0)),
                    )
                } else if c == CLOSE_PAREN {
                    if depth > 0 {
                        Ok((pos + 1, tokens))
                    } else {
                        Err(ErrorView::UnexpectedGroupEnd)
                    }
                } else if c == EQUALS {
                    if may_assign(depth, tokens) {
                        scan(
                            s,
                            pos + 1,
                            State::FromAssignment,
                            depth,
                            tokens.push(TokenView::Assignment),
                        )
                    } else {
                        Err(ErrorView::MisplacedAssignment)
                    }
                } else {
                    scan(s, pos + 1, state, depth, tokens)
                }
            },
        }
    }
}

/// The tokens of a line, or the first error in it.
pub open spec fn parse_bytes(s: Seq<u8>) -> Result<Seq<TokenView>, ErrorView> {
    match scan(s, 0, State::Idle, 0, Seq::empty()) {
        Ok((_, tokens)) => Ok(tokens),
        Err(error) => Err(error),
    }
}

/// Whether the outcome of a run is the one that the model gives.
pub open spec fn scanned_as(
    result: Result<(usize, Vec<Token>), CalculatorError>,
    model: Result<(int, Seq<TokenView>), ErrorView>,
) -> bool {
    match model {
        Ok((end, tokens)) => result is Ok && result->Ok_0.0 == end && views(result->Ok_0.1@)
            == tokens,
        Err(error) => result is Err && result->Err_0@ == error,
    }
}

/// Whether the outcome of parsing is the one that the model gives.
pub open spec fn parsed_as(
    result: Result<Vec<Token>, CalculatorError>,
    model: Result<Seq<TokenView>, ErrorView>,
) -> bool {
    match model {
        Ok(tokens) => result is Ok && views(result->Ok_0@) == tokens,
        Err(error) => result is Err && result->Err_0@ == error,
    }
}

/// Reads one sequence of tokens from `bytes[from..]`: the whole line at
/// depth 0, else a group up to and including its `)`. Returns the position
/// behind the sequence, and its tokens.
fn parse_inner(bytes: &[u8], from: usize, depth: usize) -> (result: Result<
    (usize, Vec<Token>),
    CalculatorError,
>)
    requires
        from <= bytes.len(),
        depth <= MAX_DEPTH,
    ensures
        scanned_as(result, scan(bytes@, from as int, State::Idle, depth as nat, Seq::empty())),
        result is Ok ==> from <= result->Ok_0.0 <= bytes.len(),
    decreases bytes.len() - from,
{
    let ghost goal = scan(bytes@, from as int, State::Idle, depth as nat, Seq::empty());
    let mut state = State::Idle;
    let mut tokens: Vec<Token> = Vec::new();
    let mut pos: usize = from;
    assert(views(tokens@) =~= Seq::empty());
    loop
        invariant
            from <= pos <= bytes.len(),
            depth <= MAX_DEPTH,
            goal == scan(bytes@, from as int, State::Idle, depth as nat, Seq::empty()),
            goal == scan(bytes@, pos as int, state, depth as nat, views(tokens@)),
            state matches State::Number(start) ==> from <= start <= pos,
            state matches State::Identifier(start) ==> from <= start <= pos,
        decreases
                bytes.len() - pos,
                (if state is Number || state is Identifier {
                    1nat
                } else {
                    0nat
                }),
    {
        if pos >= bytes.len() {
            match state {
                State::Idle | State::FromOperator | State::FromAssignment => {
                    return Err(CalculatorError::ExpectedNumberOrGroup);
                },
                State::Number(start) => {
                    match parse_number(bytes, start, pos) {
                        Ok(number) => {
                            push_token(&mut tokens, Token::Value(number));
                        },
                        Err(error) => {
                            return Err(error);
                        },
                    }
                },
                State::Identifier(start) => {
                    push_token(&mut tokens, Token::Identifier(text_of(bytes, start, pos)));
                },
                State::FromNumber | State::FromIdentifier => {},
            }
            if depth > 0 {
                return Err(CalculatorError::UnterminatedGroup);
            }
            return Ok((pos, tokens));
        }
        let c = bytes[pos];
        match state {
            State::Idle | State::FromOperator | State::FromAssignment => {
                if is_numeric(c) {
                    state = State::Number(pos);
                } else if is_alpha(c) {
                    state = State::Identifier(pos);
                } else if !is_whitespace(c) {
                    if c != OPEN_PAREN {
                        return Err(CalculatorError::ExpectedNumberOrGroup);
                    }
                    if depth >= MAX_DEPTH {
                        return Err(CalculatorError::NestingTooDeep);
                    }
                    match parse_inner(bytes, pos + 1, depth + 1) {
                        Ok((end, group)) => {
                            proof {
                                Token::lemma_group_view(group);
                            }
                            push_token(&mut tokens, Token::Group(group));
                            state = State::FromNumber;
                            pos = end;
                            continue ;
                        },
                        Err(error) => {
                            return Err(error);
                        },
                    }
                }
            },
            State::Number(start) => {
                if !is_numeric(c) {
                    match parse_number(bytes, start, pos) {
                        Ok(number) => {
                            push_token(&mut tokens, Token::Value(number));
                            state = State::FromNumber;
                            continue ;
                        },
                        Err(error) => {
                            return Err(error);
                        },
                    }
                }
            },
            State::Identifier(start) => {
                if !is_alpha(c) && !(DIGIT_ZERO <= c && c <= DIGIT_NINE) {
                    push_token(&mut tokens, Token::Identifier(text_of(bytes, start, pos)));
                    state = State::FromIdentifier;
                    continue ;
                }
            },
            State::FromNumber | State::FromIdentifier => {
                if let Some(op) = get_operator(c) {
                    push_token(&mut tokens, Token::Operator(op));
                    state = State::FromOperator;
                } else if c == CLOSE_PAREN {
                    if depth == 0 {
                        return Err(CalculatorError::UnexpectedGroupEnd);
                    }
                    return Ok((pos + 1, tokens));
                } else if c == EQUALS {
                    if !(depth == 0 && tokens.len() == 1 && is_identifier(&tokens[0])) {
                        return Err(CalculatorError::MisplacedAssignment);
                    }
                    push_token(&mut tokens, Token::Assignment);
                    state = State::FromAssignment;
                }
            },
        }
        pos += 1;
    }
}

/// Whether the token is a name.
fn is_identifier(token: &Token) -> (named: bool)
    ensures
        named == (token@ is Identifier),
{
    match token {
        Token::Identifier(_) => true,
        _ => false,
    }
}

/// A sequence ends where it started or behind, and within the input.
pub proof fn lemma_scan_ends_within(
    s: Seq<u8>,
    pos: int,
    state: State,
    depth: nat,
    tokens: Seq<TokenView>,
)
    requires
        0 <= pos <= s.len(),
    ensures
        scan(s, pos, state, depth, tokens) matches Ok((end, _)) ==> pos <= end <= s.len(),
    decreases s.len() - pos, (if state is Number || state is Identifier { 1nat } else { 0nat }),
{
    if pos < s.len() {
        let c = s[pos];
        match state {
            State::Idle | State::FromOperator | State::FromAssignment => {
                if is_numeric_byte(c) {
                    lemma_scan_ends_within(s, pos + 1, State::Number(pos as usize), depth, tokens);
                } else if is_alpha_byte(c) {
                    let next = State::Identifier(pos as usize);
                    lemma_scan_ends_within(s, pos + 1, next, depth, tokens);
                } else if is_whitespace_byte(c) {
                    lemma_scan_ends_within(s, pos + 1, state, depth, tokens);
                } else if c == OPEN_PAREN && depth < MAX_DEPTH {
                    lemma_scan_ends_within(s, pos + 1, State::Idle, depth + 1, Seq::empty());
                    match scan(s, pos + 1, State::Idle, depth + 1, Seq::empty()) {
                        Ok((end, group)) => {
                            lemma_scan_ends_within(
                                s,
                                end,
                                State::FromNumber,
                                depth,
                                tokens.push(TokenView::Group(group)),
                            );
                        },
                        Err(_) => {},
                    }
                }
            },
            State::Number(start) => {
                if is_numeric_byte(c) {
                    lemma_scan_ends_within(s, pos + 1, state, depth, tokens);
                } else {
                    match number_literal(s.subrange(start as int, pos)) {
                        Some(number) => {
                            lemma_scan_ends_within(
                                s,
                                pos,
                                State::FromNumber,
                                depth,
                                tokens.push(TokenView::Value(number)),
                            );
                        },
                        None => {},
                    }
                }
            },
            State::Identifier(start) => {
                if is_alpha_byte(c) || is_digit_byte(c) {
                    lemma_scan_ends_within(s, pos + 1, state, depth, tokens);
                } else {
                    lemma_scan_ends_within(
                        s,
                        pos,
                        State::FromIdentifier,
                        depth,
                        tokens.push(
                            TokenView::Identifier(ascii_text(s.subrange(start as int, pos))),
                        ),
                    );
                }
            },
            State::FromNumber | State::FromIdentifier => {
                if operator_of(c) is Some {
                    lemma_scan_ends_within(
                        s,
                        pos + 1,
                        State::FromOperator,
                        depth,
                        tokens.push(TokenView::Operator(operator_of(c)->Some_0)),
                    );
                } else if c == CLOSE_PAREN {
                } else if c == EQUALS {
                    if may_assign(depth, tokens) {
                        lemma_scan_ends_within(
                            s,
                            pos + 1,
                            State::FromAssignment,
                            depth,
                            tokens.push(TokenView::Assignment),
                        );
                    }
                } else {
                    lemma_scan_ends_within(s, pos + 1, state, depth, tokens);
                }
            },
        }
    }
}

/// Parses a line into its tokens.
pub fn parse(s: &str) -> (result: Result<Vec<Token>, CalculatorError>)
    ensures
        parsed_as(result, parse_bytes(s.spec_bytes())),
{
    match parse_inner(s.as_bytes(), 0, 0) {
        Ok((_, tokens)) => Ok(tokens),
        Err(error) => Err(error),
    }
}

} // verus!
