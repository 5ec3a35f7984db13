//! The shape of a parsed line: operands with one operator between each two,
//! behind an optional `name =` at the top level and nowhere else.

use crate::ascii::{CLOSE_PAREN, EQUALS, OPEN_PAREN};
use crate::error::ErrorView;
use crate::execute;
use crate::literal::{ascii_text, is_digit_byte, number_literal};
use crate::parser::{
    is_alpha_byte, is_numeric_byte, is_whitespace_byte, lemma_scan_ends_within, may_assign,
    operator_of, parse_bytes, scan, State, MAX_DEPTH,
};
use crate::solver::{
    applied, climb, is_assignment, operand_value, operator_at, raise, sequence_value, MAX_NESTING,
};
use crate::token::{operator_in, TokenView};
use crate::types::{precedence_of, NumberView, Operator};
use vstd::prelude::*;

verus! {

/// Whether operands and operators take turns in the tokens, an operand
/// first: a value, a name, or a group that holds an expression.
pub open spec fn alternates(tokens: Seq<TokenView>) -> bool
    decreases tokens,
{
    forall|i: int|
        0 <= i < tokens.len() ==> if i % 2 == 1 {
            tokens[i] is Operator
        } else {
            match #[trigger] tokens[i] {
                TokenView::Value(_) | TokenView::Identifier(_) => true,
                TokenView::Group(inner) => alternates(inner) && inner.len() % 2 == 1,
                _ => false,
            }
        }
}

/// Whether the tokens are an expression: operands and operators in turn,
/// from an operand to an operand.
pub open spec fn is_expression(tokens: Seq<TokenView>) -> bool {
    alternates(tokens) && tokens.len() % 2 == 1
}

/// The tokens behind the `name =` of an assignment; all of them otherwise.
pub open spec fn body_of(tokens: Seq<TokenView>) -> Seq<TokenView> {
    if is_assignment(tokens) {
        tokens.subrange(2, tokens.len() as int)
    } else {
        tokens
    }
}

/// Whether the tokens are a line: an expression, or `name =` and one.
pub open spec fn is_line(tokens: Seq<TokenView>) -> bool {
    is_expression(body_of(tokens))
}

/// Whether the parser can have read the tokens when it stands in the state
/// at the depth: what is behind a leading `name =` alternates and ends in
/// an operand exactly where the state is one behind a value, and only the
/// top level has such a lead.
pub open spec fn in_progress(state: State, depth: nat, tokens: Seq<TokenView>) -> bool {
    &&& alternates(body_of(tokens))
    &&& depth > 0 ==> !is_assignment(tokens)
    &&& body_of(tokens).len() % 2 == if state is FromNumber || state is FromIdentifier {
        1int
    } else {
        0int
    }
    &&& state is FromAssignment ==> tokens.len() == 2
    &&& tokens.len() == 1 ==> !(tokens[0] is Assignment)
}

/// One more token behind tokens in progress.
proof fn lemma_push(state: State, next: State, depth: nat, tokens: Seq<TokenView>, token: TokenView)
    requires
        in_progress(state, depth, tokens),
        !(state is FromNumber || state is FromIdentifier) ==> (next is FromNumber
            || next is FromIdentifier) && alternates(seq![token]),
        (state is FromNumber || state is FromIdentifier) ==> {
            ||| next is FromOperator && token is Operator
            ||| next is FromAssignment && token is Assignment && may_assign(depth, tokens)
        },
    ensures
        in_progress(next, depth, tokens.push(token)),
{
    let pushed = tokens.push(token);
    let body = body_of(tokens);
    if next is FromAssignment {
        assert(is_assignment(pushed));
        assert(body_of(pushed) =~= Seq::<TokenView>::empty());
    } else {
        assert(is_assignment(pushed) == is_assignment(tokens)) by {
            if tokens.len() >= 2 {
                assert(pushed[0] == tokens[0] && pushed[1] == tokens[1]);
            } else if tokens.len() == 1 {
                assert(pushed[1] == token);
                assert(alternates(seq![token]) ==> seq![token][0] == token && !(token
                    is Assignment));
            }
        }
        assert(body_of(pushed) =~= body.push(token));
        assert forall|i: int| 0 <= i < body.push(token).len() implies if i % 2 == 1 {
            body.push(token)[i] is Operator
        } else {
            match #[trigger] body.push(token)[i] {
                TokenView::Value(_) | TokenView::Identifier(_) => true,
                TokenView::Group(inner) => alternates(inner) && inner.len() % 2 == 1,
                _ => false,
            }
        } by {
            if i < body.len() {
                assert(body.push(token)[i] == body[i]);
            } else {
                assert(body.push(token)[i] == token);
                assert(seq![token][0] == token);
            }
        }
        if pushed.len() == 1 {
            assert(pushed[0] == token);
            assert(seq![token][0] == token);
        }
    }
}

/// What the parser reads is a line: at the top level an expression behind
/// an optional `name =`, in a group an expression.
pub proof fn lemma_scan_yields_a_line(
    s: Seq<u8>,
    pos: int,
    state: State,
    depth: nat,
    tokens: Seq<TokenView>,
)
    requires
        0 <= pos <= s.len(),
        in_progress(state, depth, tokens),
    ensures
        scan(s, pos, state, depth, tokens) matches Ok((_, read)) ==> is_line(read) && (depth > 0
            ==> is_expression(read)),
    decreases s.len() - pos, (if state is Number || state is Identifier { 1nat } else { 0nat }),
{
    if pos >= s.len() {
        match state {
            State::Number(start) => {
                match number_literal(s.subrange(start as int, pos)) {
                    Some(number) => {
                        let token = TokenView::Value(number);
                        assert(seq![token][0] == token);
                        lemma_push(state, State::FromNumber, depth, tokens, token);
                    },
                    None => {},
                }
            },
            State::Identifier(start) => {
                let token = TokenView::Identifier(ascii_text(s.subrange(start as int, pos)));
                assert(seq![token][0] == token);
                lemma_push(state, State::FromIdentifier, depth, tokens, token);
            },
            _ => {},
        }
    } else {
        let c = s[pos];
        match state {
            State::Idle | State::FromOperator | State::FromAssignment => {
                if is_numeric_byte(c) {
                    let next = State::Number(pos as usize);
                    lemma_scan_yields_a_line(s, pos + 1, next, depth, tokens);
                } else if is_alpha_byte(c) {
                    lemma_scan_yields_a_line(
                        s,
                        pos + 1,
                        State::Identifier(pos as usize),
                        depth,
                        tokens,
                    );
                } else if is_whitespace_byte(c) {
                    lemma_scan_yields_a_line(s, pos + 1, state, depth, tokens);
                } else if c == OPEN_PAREN && depth < MAX_DEPTH {
                    let none = Seq::<TokenView>::empty();
                    assert(body_of(none) =~= none);
                    lemma_scan_yields_a_line(s, pos + 1, State::Idle, depth + 1, none);
                    lemma_scan_ends_within(s, pos + 1, State::Idle, depth + 1, none);
                    match scan(s, pos + 1, State::Idle, depth + 1, none) {
                        Ok((end, group)) => {
                            let token = TokenView::Group(group);
                            assert(seq![token][0] == token);
                            lemma_push(state, State::FromNumber, depth, tokens, token);
                            lemma_scan_yields_a_line(
                                s,
                                end,
                                State::FromNumber,
                                depth,
                                tokens.push(token),
                            );
                        },
                        Err(_) => {},
                    }
                }
            },
            State::Number(start) => {
                if is_numeric_byte(c) {
                    lemma_scan_yields_a_line(s, pos + 1, state, depth, tokens);
                } else {
                    match number_literal(s.subrange(start as int, pos)) {
                        Some(number) => {
                            let token = TokenView::Value(number);
                            assert(seq![token][0] == token);
                            lemma_push(state, State::FromNumber, depth, tokens, token);
                            lemma_scan_yields_a_line(
                                s,
                                pos,
                                State::FromNumber,
                                depth,
                                tokens.push(token),
                            );
                        },
                        None => {},
                    }
                }
            },
            State::Identifier(start) => {
                if is_alpha_byte(c) || is_digit_byte(c) {
                    lemma_scan_yields_a_line(s, pos + 1, state, depth, tokens);
                } else {
                    let token = TokenView::Identifier(ascii_text(s.subrange(start as int, pos)));
                    assert(seq![token][0] == token);
                    lemma_push(state, State::FromIdentifier, depth, tokens, token);
                    lemma_scan_yields_a_line(
                        s,
                        pos,
                        State::FromIdentifier,
                        depth,
                        tokens.push(token),
                    );
                }
            },
            State::FromNumber | State::FromIdentifier => {
                if operator_of(c) is Some {
                    let token = TokenView::Operator(operator_of(c)->Some_0);
                    lemma_push(state, State::FromOperator, depth, tokens, token);
                    lemma_scan_yields_a_line(
                        s,
                        pos + 1,
                        State::FromOperator,
                        depth,
                        tokens.push(token),
                    );
                } else if c == CLOSE_PAREN {
                } else if c == EQUALS {
                    if may_assign(depth, tokens) {
                        let token = TokenView::Assignment;
                        lemma_push(state, State::FromAssignment, depth, tokens, token);
                        lemma_scan_yields_a_line(
                            s,
                            pos + 1,
                            State::FromAssignment,
                            depth,
                            tokens.push(TokenView::Assignment),
                        );
                    }
                } else {
                    lemma_scan_yields_a_line(s, pos + 1, state, depth, tokens);
                }
            },
        }
    }
}

/// Every line that parses is an expression, or `name =` and an expression:
/// the `=` of an assignment stands second at the top level and nowhere
/// else, no group is empty, and every operator stands between two operands.
pub proof fn lemma_parsed_lines_are_lines(line: Seq<u8>)
    ensures
        parse_bytes(line) matches Ok(tokens) ==> is_line(tokens),
{
    let none = Seq::<TokenView>::empty();
    assert(body_of(none) =~= none);
    lemma_scan_yields_a_line(line, 0, State::Idle, 0, none);
}

/// Whether every name of the environment stands for a line.
pub open spec fn holds_lines(env: Map<Seq<char>, Seq<TokenView>>) -> bool {
    forall|name: Seq<char>| #[trigger] env.contains_key(name) ==> is_line(env[name])
}

/// Whether an evaluation ended for want of a token: the tokens were no
/// expression.
pub open spec fn lacks_a_token<T>(result: Result<T, ErrorView>) -> bool {
    result matches Err(ErrorView::SolveError(reason)) && (reason is ExpectedValue
        || reason is ExpectedTokenAfterAssignment || reason is ExpectedValueAfterOperator)
}

/// Whether the token can be an operand.
pub open spec fn is_operand(token: TokenView) -> bool {
    match token {
        TokenView::Value(_) | TokenView::Identifier(_) => true,
        TokenView::Group(inner) => is_expression(inner),
        _ => false,
    }
}

/// Whether `pos` is the place of an operator, or the end, in tokens whose
/// expression starts at `first`.
pub open spec fn at_operator(tokens: Seq<TokenView>, first: int, pos: int) -> bool {
    &&& 0 <= first < pos <= tokens.len()
    &&& is_expression(tokens.subrange(first, tokens.len() as int))
    &&& (pos - first) % 2 == 1
}

/// In an expression that starts at `first`, an operand stands at every
/// even distance from `first`.
proof fn lemma_operand_at(tokens: Seq<TokenView>, first: int, pos: int)
    requires
        0 <= first <= pos < tokens.len(),
        is_expression(tokens.subrange(first, tokens.len() as int)),
        (pos - first) % 2 == 0,
    ensures
        is_operand(tokens[pos]),
{
    let body = tokens.subrange(first, tokens.len() as int);
    assert(body[pos - first] == tokens[pos]);
}

/// An operand of a line has a value unless a variable or a division fails
/// or the nesting is too deep: it never lacks a token.
pub proof fn lemma_operand_lacks_no_token(
    env: Map<Seq<char>, Seq<TokenView>>,
    stack: Seq<Seq<char>>,
    depth: nat,
    token: TokenView,
)
    requires
        holds_lines(env),
        is_operand(token),
    ensures
        !lacks_a_token(operand_value(env, stack, depth, token)),
    decreases MAX_NESTING - depth, 0nat, 0nat, 0nat,
{
    match token {
        TokenView::Group(tokens) => {
            if depth < MAX_NESTING {
                assert(body_of(tokens) == tokens) by {
                    if tokens.len() >= 2 {
                        assert(tokens[1] is Operator);
                    }
                }
                lemma_line_lacks_no_token(env, stack, depth + 1, tokens);
            }
        },
        TokenView::Identifier(name) => {
            if !stack.contains(name) && env.contains_key(name) && depth < MAX_NESTING {
                lemma_line_lacks_no_token(env, stack.push(name), depth + 1, env[name]);
            }
        },
        _ => {},
    }
}

/// A line has a value unless a variable or a division fails or the nesting
/// is too deep: it never lacks a token.
pub proof fn lemma_line_lacks_no_token(
    env: Map<Seq<char>, Seq<TokenView>>,
    stack: Seq<Seq<char>>,
    depth: nat,
    tokens: Seq<TokenView>,
)
    requires
        holds_lines(env),
        is_line(tokens),
    ensures
        !lacks_a_token(sequence_value(env, stack, depth, tokens)),
    decreases MAX_NESTING - depth, 2nat, 0nat, 0nat,
{
    let first: int = if is_assignment(tokens) {
        2
    } else {
        0
    };
    assert(body_of(tokens) == tokens.subrange(first, tokens.len() as int)) by {
        assert(tokens.subrange(0, tokens.len() as int) =~= tokens);
    }
    lemma_operand_at(tokens, first, first);
    lemma_operand_lacks_no_token(env, stack, depth, tokens[first]);
    match operand_value(env, stack, depth, tokens[first]) {
        Ok(lhs) => {
            lemma_climb_lacks_no_token(env, stack, depth, tokens, first, first + 1, lhs, 1);
        },
        Err(_) => {},
    }
}

/// A climb through an expression never lacks a token, and ends at the
/// place of an operator or at the end.
pub proof fn lemma_climb_lacks_no_token(
    env: Map<Seq<char>, Seq<TokenView>>,
    stack: Seq<Seq<char>>,
    depth: nat,
    tokens: Seq<TokenView>,
    first: int,
    pos: int,
    lhs: NumberView,
    min: int,
)
    requires
        holds_lines(env),
        at_operator(tokens, first, pos),
    ensures
        !lacks_a_token(climb(env, stack, depth, tokens, pos, lhs, min)),
        climb(env, stack, depth, tokens, pos, lhs, min) matches Ok((_, next)) ==> at_operator(
            tokens,
            first,
            next,
        ) && pos <= next,
    decreases MAX_NESTING - depth, 1nat, tokens.len() - pos, 0nat,
{
    if operator_at(tokens, pos, min) {
        let op = operator_in(tokens[pos])->Some_0;
        lemma_operand_at(tokens, first, pos + 1);
        lemma_operand_lacks_no_token(env, stack, depth, tokens[pos + 1]);
        match operand_value(env, stack, depth, tokens[pos + 1]) {
            Ok(operand) => {
                let after = pos + 2;
                lemma_raise_lacks_no_token(env, stack, depth, tokens, first, after, operand, op, min);
                match raise(env, stack, depth, tokens, pos + 2, operand, op, min) {
                    Ok((rhs, next)) => match applied(op, lhs, rhs) {
                        Ok(value) => {
                            lemma_climb_lacks_no_token(
                                env,
                                stack,
                                depth,
                                tokens,
                                first,
                                next,
                                value,
                                min,
                            );
                        },
                        Err(_) => {},
                    },
                    Err(_) => {},
                }
            },
            Err(_) => {},
        }
    }
}

/// Raising an operand of an expression never lacks a token, and ends at
/// the place of an operator or at the end.
pub proof fn lemma_raise_lacks_no_token(
    env: Map<Seq<char>, Seq<TokenView>>,
    stack: Seq<Seq<char>>,
    depth: nat,
    tokens: Seq<TokenView>,
    first: int,
    pos: int,
    rhs: NumberView,
    op: Operator,
    min: int,
)
    requires
        holds_lines(env),
        at_operator(tokens, first, pos),
    ensures
        !lacks_a_token(raise(env, stack, depth, tokens, pos, rhs, op, min)),
        raise(env, stack, depth, tokens, pos, rhs, op, min) matches Ok((_, next)) ==> at_operator(
            tokens,
            first,
            next,
        ) && pos <= next,
    decreases MAX_NESTING - depth, 1nat, tokens.len() - pos, 1nat,
{
    if operator_at(tokens, pos, precedence_of(op) + 1) {
        lemma_climb_lacks_no_token(env, stack, depth, tokens, first, pos, rhs, min + 1);
        match climb(env, stack, depth, tokens, pos, rhs, min + 1) {
            Ok((value, next)) => {
                if pos < next {
                    lemma_raise_lacks_no_token(
                        env,
                        stack,
                        depth,
                        tokens,
                        first,
                        next,
                        value,
                        op,
                        min,
                    );
                }
            },
            Err(_) => {},
        }
    }
}

/// Whether the error is one of the parser.
pub open spec fn is_parse_error(error: ErrorView) -> bool {
    !(error is SolveError) && !(error is UndefinedVariable)
}

/// The parser fails with its own errors only.
pub proof fn lemma_scan_fails_as_a_parser(
    s: Seq<u8>,
    pos: int,
    state: State,
    depth: nat,
    tokens: Seq<TokenView>,
)
    requires
        0 <= pos <= s.len(),
    ensures
        scan(s, pos, state, depth, tokens) matches Err(error) ==> is_parse_error(error),
    decreases s.len() - pos, (if state is Number || state is Identifier { 1nat } else { 0nat }),
{
    if pos < s.len() {
        let c = s[pos];
        match state {
            State::Idle | State::FromOperator | State::FromAssignment => {
                if is_numeric_byte(c) {
                    lemma_scan_fails_as_a_parser(
                        s,
                        pos + 1,
                        State::Number(pos as usize),
                        depth,
                        tokens,
                    );
                } else if is_alpha_byte(c) {
                    lemma_scan_fails_as_a_parser(
                        s,
                        pos + 1,
                        State::Identifier(pos as usize),
                        depth,
                        tokens,
                    );
                } else if is_whitespace_byte(c) {
                    lemma_scan_fails_as_a_parser(s, pos + 1, state, depth, tokens);
                } else if c == OPEN_PAREN && depth < MAX_DEPTH {
                    let none = Seq::<TokenView>::empty();
                    lemma_scan_fails_as_a_parser(s, pos + 1, State::Idle, depth + 1, none);
                    lemma_scan_ends_within(s, pos + 1, State::Idle, depth + 1, none);
                    match scan(s, pos + 1, State::Idle, depth + 1, none) {
                        Ok((end, group)) => {
                            lemma_scan_fails_as_a_parser(
                                s,
                                end,
                                State::FromNumber,
                                depth,
                                tokens.push(TokenView::Group(group)),
                            );
                        },
                        Err(_) => {},
                    }
                }
            },
            State::Number(start) => {
                if is_numeric_byte(c) {
                    lemma_scan_fails_as_a_parser(s, pos + 1, state, depth, tokens);
                } else {
                    match number_literal(s.subrange(start as int, pos)) {
                        Some(number) => {
                            lemma_scan_fails_as_a_parser(
                                s,
                                pos,
                                State::FromNumber,
                                depth,
                                tokens.push(TokenView::Value(number)),
                            );
                        },
                        None => {},
                    }
                }
            },
            State::Identifier(start) => {
                if is_alpha_byte(c) || is_digit_byte(c) {
                    lemma_scan_fails_as_a_parser(s, pos + 1, state, depth, tokens);
                } else {
                    lemma_scan_fails_as_a_parser(
                        s,
                        pos,
                        State::FromIdentifier,
                        depth,
                        tokens.push(
                            TokenView::Identifier(ascii_text(s.subrange(start as int, pos))),
                        ),
                    );
                }
            },
            State::FromNumber | State::FromIdentifier => {
                if operator_of(c) is Some {
                    lemma_scan_fails_as_a_parser(
                        s,
                        pos + 1,
                        State::FromOperator,
                        depth,
                        tokens.push(TokenView::Operator(operator_of(c)->Some_0)),
                    );
                } else if c == CLOSE_PAREN {
                } else if c == EQUALS {
                    if may_assign(depth, tokens) {
                        lemma_scan_fails_as_a_parser(
                            s,
                            pos + 1,
                            State::FromAssignment,
                            depth,
                            tokens.push(TokenView::Assignment),
                        );
                    }
                } else {
                    lemma_scan_fails_as_a_parser(s, pos + 1, state, depth, tokens);
                }
            },
        }
    }
}

/// A line leaves an environment of lines one of lines.
pub proof fn lemma_execute_keeps_lines(env: Map<Seq<char>, Seq<TokenView>>, line: Seq<u8>)
    requires
        holds_lines(env),
    ensures
        holds_lines(execute(env, line).1),
{
    lemma_parsed_lines_are_lines(line);
}

/// Parser and solver fit: in an environment that lines have made, a line
/// that parses is evaluated, unless a variable is undefined or defined by
/// itself, an integer division has no result, or the nesting is too deep.
pub proof fn lemma_parsed_lines_lack_no_token(
    env: Map<Seq<char>, Seq<TokenView>>,
    line: Seq<u8>,
)
    requires
        holds_lines(env),
    ensures
        !lacks_a_token(execute(env, line).0),
{
    lemma_parsed_lines_are_lines(line);
    lemma_scan_fails_as_a_parser(line, 0, State::Idle, 0, Seq::empty());
    if parse_bytes(line) is Ok {
        let tokens = parse_bytes(line)->Ok_0;
        if !is_assignment(tokens) {
            lemma_line_lacks_no_token(env, Seq::empty(), 0, tokens);
        }
    }
}

} // verus!
