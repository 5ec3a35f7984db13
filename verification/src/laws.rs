//! Laws of the calculator, proved from the models of its parts.

use crate::ascii::{DOT, MINUS, PLUS, SLASH, SPACE, STAR};
use crate::error::{ErrorView, SolveReason};
use crate::execute;
use crate::literal::{
    decimal, digits_of, integer_literal, is_digit_byte, lemma_decimal_is_literal, number_literal,
    unsigned_part,
};
use crate::parser::{is_numeric_byte, operator_of, parse_bytes, scan, State};
use crate::solver::{
    climb, evaluate, is_assignment, operand_value, raise, sequence_value, MAX_NESTING,
};
use crate::token::TokenView;
use crate::types::{
    as_float, integer_division_defined, integer_result, lemma_wrap_in_range, operation_defined,
    operation_result, precedence_of, wrap_i32, FloatView, NumberView, Operator,
};
use vstd::prelude::*;

verus! {

/// An integer literal is a run of bytes that can stand in a number, has no
/// `.` in it, and is not empty.
pub proof fn lemma_integer_literal_is_numeric(literal: Seq<u8>)
    requires
        integer_literal(literal) is Some,
    ensures
        literal.len() > 0,
        forall|i: int| 0 <= i < literal.len() ==> is_numeric_byte(#[trigger] literal[i]),
        number_literal(literal) == Some(NumberView::Integer(integer_literal(literal)->Some_0)),
{
    let digits = unsigned_part(literal);
    assert forall|i: int| 0 <= i < literal.len() implies is_numeric_byte(
        #[trigger] literal[i],
    ) && literal[i] != DOT by {
        if digits.len() < literal.len() {
            if i > 0 {
                assert(literal[i] == digits[i - 1]);
            }
        } else {
            assert(literal[i] == digits[i]);
        }
    }
    if literal.contains(DOT) {
        let i = choose|i: int| 0 <= i < literal.len() && literal[i] == DOT;
        assert(is_numeric_byte(literal[i]) && literal[i] != DOT);
    }
}

/// Inside a number the parser runs on over the bytes that can stand in one.
pub proof fn lemma_number_run(
    s: Seq<u8>,
    start: usize,
    pos: int,
    end: int,
    depth: nat,
    tokens: Seq<TokenView>,
)
    requires
        0 <= pos <= end <= s.len(),
        forall|i: int| pos <= i < end ==> is_numeric_byte(#[trigger] s[i]),
    ensures
        scan(s, pos, State::Number(start), depth, tokens) == scan(
            s,
            end,
            State::Number(start),
            depth,
            tokens,
        ),
    decreases end - pos,
{
    if pos < end {
        assert(is_numeric_byte(s[pos]));
        lemma_number_run(s, start, pos + 1, end, depth, tokens);
    }
}

/// The byte that writes an operator.
pub open spec fn operator_byte(op: Operator) -> u8 {
    match op {
        Operator::Add => PLUS,
        Operator::Multiply => STAR,
        Operator::Div => SLASH,
        Operator::Subtract => MINUS,
    }
}

/// The tokens of `left operator right`.
pub open spec fn binary_tokens(a: i32, op: Operator, b: i32) -> Seq<TokenView> {
    seq![
        TokenView::Value(NumberView::Integer(a)),
        TokenView::Operator(op),
        TokenView::Value(NumberView::Integer(b)),
    ]
}

/// Two integer literals with an operator between them, set off by one
/// space on each side, parse into the two integers and the operator.
pub proof fn lemma_parse_spaced_operation(left: Seq<u8>, op: Operator, right: Seq<u8>)
    requires
        integer_literal(left) is Some,
        integer_literal(right) is Some,
        left.len() + right.len() + 3 <= usize::MAX,
    ensures
        parse_bytes(left + seq![SPACE, operator_byte(op), SPACE] + right) == Ok::<
            Seq<TokenView>,
            ErrorView,
        >(binary_tokens(integer_literal(left)->Some_0, op, integer_literal(right)->Some_0)),
{
    let a = integer_literal(left)->Some_0;
    let b = integer_literal(right)->Some_0;
    let s = left + seq![SPACE, operator_byte(op), SPACE] + right;
    let n = left.len() as int;
    let len = s.len() as int;
    let none = Seq::<TokenView>::empty();
    lemma_integer_literal_is_numeric(left);
    lemma_integer_literal_is_numeric(right);
    assert(s.subrange(0, n) =~= left);
    assert(s.subrange(n + 3, len) =~= right);
    assert(s[n] == SPACE && s[n + 1] == operator_byte(op) && s[n + 2] == SPACE);
    assert forall|i: int| 0 <= i < n implies is_numeric_byte(#[trigger] s[i]) by {
        assert(s[i] == left[i]);
    }
    assert forall|i: int| n + 3 <= i < len implies is_numeric_byte(#[trigger] s[i]) by {
        assert(s[i] == right[i - n - 3]);
    }
    let t1 = none.push(TokenView::Value(NumberView::Integer(a)));
    let t2 = t1.push(TokenView::Operator(op));
    let t3 = t2.push(TokenView::Value(NumberView::Integer(b)));
    assert(t3 =~= binary_tokens(a, op, b));
    let first = 0usize;
    let second = (n + 3) as usize;
    assert(scan(s, 0, State::Idle, 0, none) == scan(s, 1, State::Number(first), 0, none)) by {
        assert(is_numeric_byte(s[0]));
    }
    lemma_number_run(s, first, 1, n, 0, none);
    assert(scan(s, n, State::Number(first), 0, none) == scan(s, n, State::FromNumber, 0, t1));
    assert(scan(s, n, State::FromNumber, 0, t1) == scan(s, n + 1, State::FromNumber, 0, t1));
    assert(operator_of(s[n + 1]) == Some(op));
    assert(scan(s, n + 1, State::FromNumber, 0, t1) == scan(s, n + 2, State::FromOperator, 0, t2));
    assert(scan(s, n + 2, State::FromOperator, 0, t2) == scan(
        s,
        n + 3,
        State::FromOperator,
        0,
        t2,
    ));
    assert(scan(s, n + 3, State::FromOperator, 0, t2) == scan(
        s,
        n + 4,
        State::Number(second),
        0,
        t2,
    )) by {
        assert(is_numeric_byte(s[n + 3]));
    }
    lemma_number_run(s, second, n + 4, len, 0, t2);
    assert(scan(s, len, State::Number(second), 0, t2) == Ok::<(int, Seq<TokenView>), ErrorView>(
        (len, t3),
    ));
}

/// An integer, an operator and an integer evaluate to the operator's
/// result on the two, whatever the environment holds, where the operator
/// has a result on them.
pub proof fn lemma_evaluate_operation(
    env: Map<Seq<char>, Seq<TokenView>>,
    a: i32,
    op: Operator,
    b: i32,
)
    requires
        op == Operator::Div ==> integer_division_defined(a, b),
    ensures
        evaluate(env, binary_tokens(a, op, b)) == Ok::<NumberView, ErrorView>(
            NumberView::Integer(integer_result(op, a, b)),
        ),
{
    let tokens = binary_tokens(a, op, b);
    let stack = Seq::<Seq<char>>::empty();
    let lhs = NumberView::Integer(a);
    let rhs = NumberView::Integer(b);
    let value = NumberView::Integer(integer_result(op, a, b));
    assert(operand_value(env, stack, 0, tokens[0]) == Ok::<NumberView, ErrorView>(lhs));
    assert(operand_value(env, stack, 0, tokens[2]) == Ok::<NumberView, ErrorView>(rhs));
    assert(raise(env, stack, 0, tokens, 3, rhs, op, 1) == Ok::<(NumberView, int), ErrorView>(
        (rhs, 3),
    ));
    assert(climb(env, stack, 0, tokens, 3, value, 1) == Ok::<(NumberView, int), ErrorView>(
        (value, 3),
    ));
    assert(climb(env, stack, 0, tokens, 1, lhs, 1) == Ok::<(NumberView, int), ErrorView>(
        (value, 3),
    ));
}

/// Integer arithmetic on a line: `a + b`, `a - b` and `a * b`, written with
/// any literals of the two integers and one space on each side of the
/// operator, yield the sum, the difference and the product, reduced to 32
/// bits, and leave the environment as it was. Where the mathematical result
/// is a 32-bit integer, it is the result.
pub proof fn lemma_integer_arithmetic(
    env: Map<Seq<char>, Seq<TokenView>>,
    left: Seq<u8>,
    op: Operator,
    right: Seq<u8>,
)
    requires
        integer_literal(left) is Some,
        integer_literal(right) is Some,
        left.len() + right.len() + 3 <= usize::MAX,
        op != Operator::Div,
    ensures
        ({
            let a = integer_literal(left)->Some_0 as int;
            let b = integer_literal(right)->Some_0 as int;
            let exact = match op {
                Operator::Add => a + b,
                Operator::Subtract => a - b,
                _ => a * b,
            };
            let line = left + seq![SPACE, operator_byte(op), SPACE] + right;
            &&& execute(env, line) == (
                Ok::<Option<NumberView>, ErrorView>(Some(NumberView::Integer(wrap_i32(exact)))),
                env,
            )
            &&& i32::MIN <= exact <= i32::MAX ==> wrap_i32(exact) == exact
        }),
{
    let a = integer_literal(left)->Some_0;
    let b = integer_literal(right)->Some_0;
    lemma_parse_spaced_operation(left, op, right);
    lemma_evaluate_operation(env, a, op, b);
    let exact = match op {
        Operator::Add => a + b,
        Operator::Subtract => a - b,
        _ => a * b,
    };
    if i32::MIN <= exact <= i32::MAX {
        lemma_wrap_in_range(exact);
    }
}

/// Two integer literals with nothing but `+`, `*` or `/` between them parse
/// into the two integers and the operator.
pub proof fn lemma_parse_tight_operation(left: Seq<u8>, op: Operator, right: Seq<u8>)
    requires
        integer_literal(left) is Some,
        integer_literal(right) is Some,
        left.len() + right.len() + 1 <= usize::MAX,
        op != Operator::Subtract,
    ensures
        parse_bytes(left + seq![operator_byte(op)] + right) == Ok::<Seq<TokenView>, ErrorView>(
            binary_tokens(integer_literal(left)->Some_0, op, integer_literal(right)->Some_0),
        ),
{
    let a = integer_literal(left)->Some_0;
    let b = integer_literal(right)->Some_0;
    let s = left + seq![operator_byte(op)] + right;
    let n = left.len() as int;
    let len = s.len() as int;
    let none = Seq::<TokenView>::empty();
    lemma_integer_literal_is_numeric(left);
    lemma_integer_literal_is_numeric(right);
    assert(s.subrange(0, n) =~= left);
    assert(s.subrange(n + 1, len) =~= right);
    assert(s[n] == operator_byte(op));
    assert forall|i: int| 0 <= i < n implies is_numeric_byte(#[trigger] s[i]) by {
        assert(s[i] == left[i]);
    }
    assert forall|i: int| n + 1 <= i < len implies is_numeric_byte(#[trigger] s[i]) by {
        assert(s[i] == right[i - n - 1]);
    }
    let t1 = none.push(TokenView::Value(NumberView::Integer(a)));
    let t2 = t1.push(TokenView::Operator(op));
    let t3 = t2.push(TokenView::Value(NumberView::Integer(b)));
    assert(t3 =~= binary_tokens(a, op, b));
    let first = 0usize;
    let second = (n + 1) as usize;
    assert(scan(s, 0, State::Idle, 0, none) == scan(s, 1, State::Number(first), 0, none)) by {
        assert(is_numeric_byte(s[0]));
    }
    lemma_number_run(s, first, 1, n, 0, none);
    assert(scan(s, n, State::Number(first), 0, none) == scan(s, n, State::FromNumber, 0, t1));
    assert(operator_of(s[n]) == Some(op));
    assert(scan(s, n, State::FromNumber, 0, t1) == scan(s, n + 1, State::FromOperator, 0, t2));
    assert(scan(s, n + 1, State::FromOperator, 0, t2) == scan(
        s,
        n + 2,
        State::Number(second),
        0,
        t2,
    )) by {
        assert(is_numeric_byte(s[n + 1]));
    }
    lemma_number_run(s, second, n + 2, len, 0, t2);
    assert(scan(s, len, State::Number(second), 0, t2) == Ok::<(int, Seq<TokenView>), ErrorView>(
        (len, t3),
    ));
}

/// A `-` right behind a number belongs to the number: two integer literals
/// with nothing but `-` between them are one run, which is no number.
pub proof fn lemma_tight_minus_is_no_operator(left: Seq<u8>, right: Seq<u8>)
    requires
        integer_literal(left) is Some,
        integer_literal(right) is Some,
    ensures
        parse_bytes(left + seq![MINUS] + right) == Err::<Seq<TokenView>, ErrorView>(
            ErrorView::InvalidNumber,
        ),
{
    let s = left + seq![MINUS] + right;
    let n = left.len() as int;
    let len = s.len() as int;
    let none = Seq::<TokenView>::empty();
    lemma_integer_literal_is_numeric(left);
    lemma_integer_literal_is_numeric(right);
    assert forall|i: int| 0 <= i < len implies is_numeric_byte(#[trigger] s[i]) && s[i] != DOT by {
        if i < n {
            assert(s[i] == left[i]);
        } else if i > n {
            assert(s[i] == right[i - n - 1]);
        }
    }
    assert(scan(s, 0, State::Idle, 0, none) == scan(s, 1, State::Number(0), 0, none)) by {
        assert(is_numeric_byte(s[0]));
    }
    lemma_number_run(s, 0, 1, len, 0, none);
    assert(s.subrange(0, len) =~= s);
    assert(number_literal(s) is None) by {
        if s.contains(DOT) {
            let i = choose|i: int| 0 <= i < s.len() && s[i] == DOT;
            assert(is_numeric_byte(s[i]) && s[i] != DOT);
        }
        let digits = unsigned_part(s);
        if digits.len() < s.len() {
            assert(digits[n - 1] == s[n]);
            assert(!is_digit_byte(digits[n - 1]));
        } else {
            assert(digits[n] == s[n]);
            assert(!is_digit_byte(digits[n]));
        }
    }
}

/// Integer arithmetic on a line without spaces: `a+b` and `a*b`, written
/// with any literals of the two integers, yield the sum and the product,
/// reduced to 32 bits, and leave the environment as it was.
pub proof fn lemma_integer_arithmetic_tight(
    env: Map<Seq<char>, Seq<TokenView>>,
    left: Seq<u8>,
    op: Operator,
    right: Seq<u8>,
)
    requires
        integer_literal(left) is Some,
        integer_literal(right) is Some,
        left.len() + right.len() + 1 <= usize::MAX,
        op == Operator::Add || op == Operator::Multiply,
    ensures
        ({
            let a = integer_literal(left)->Some_0 as int;
            let b = integer_literal(right)->Some_0 as int;
            let exact = if op == Operator::Add {
                a + b
            } else {
                a * b
            };
            let line = left + seq![operator_byte(op)] + right;
            &&& execute(env, line) == (
                Ok::<Option<NumberView>, ErrorView>(Some(NumberView::Integer(wrap_i32(exact)))),
                env,
            )
            &&& i32::MIN <= exact <= i32::MAX ==> wrap_i32(exact) == exact
        }),
{
    let a = integer_literal(left)->Some_0;
    let b = integer_literal(right)->Some_0;
    lemma_parse_tight_operation(left, op, right);
    lemma_evaluate_operation(env, a, op, b);
}

/// A line that fails, and a line that yields a value, leave the
/// environment as it was.
pub proof fn lemma_only_assignments_change_the_environment(
    env: Map<Seq<char>, Seq<TokenView>>,
    line: Seq<u8>,
)
    ensures
        !(execute(env, line).0 matches Ok(None)) ==> execute(env, line).1 == env,
{
}

/// An assignment stores the tokens of its line under its name, whatever was
/// stored there before: of two assignments to one name the second stands.
pub proof fn lemma_reassignment_overwrites(
    env: Map<Seq<char>, Seq<TokenView>>,
    first: Seq<u8>,
    second: Seq<u8>,
)
    requires
        parse_bytes(first) is Ok,
        parse_bytes(second) is Ok,
        is_assignment(parse_bytes(first)->Ok_0),
        is_assignment(parse_bytes(second)->Ok_0),
        parse_bytes(first)->Ok_0[0] == parse_bytes(second)->Ok_0[0],
    ensures
        execute(execute(env, first).1, second).1 == execute(env, second).1,
        execute(env, second).1[parse_bytes(second)->Ok_0[0]->Identifier_0] == parse_bytes(
            second,
        )->Ok_0,
{
    let name = parse_bytes(second)->Ok_0[0]->Identifier_0;
    let stored = parse_bytes(second)->Ok_0;
    assert(execute(env, first).1.insert(name, stored) =~= env.insert(name, stored));
}

/// A name stands for the line that assigned it: where the name is not
/// under evaluation already, it evaluates to what the stored tokens do one
/// level deeper, with the name on the stack.
pub proof fn lemma_name_stands_for_its_definition(
    env: Map<Seq<char>, Seq<TokenView>>,
    stack: Seq<Seq<char>>,
    depth: nat,
    name: Seq<char>,
)
    requires
        env.contains_key(name),
        !stack.contains(name),
        depth < MAX_NESTING,
    ensures
        operand_value(env, stack, depth, TokenView::Identifier(name)) == sequence_value(
            env,
            stack.push(name),
            depth + 1,
            env[name],
        ),
{
}

/// A name that is met while it is under evaluation ends the evaluation:
/// no variable is defined by itself.
pub proof fn lemma_name_under_evaluation_fails(
    env: Map<Seq<char>, Seq<TokenView>>,
    stack: Seq<Seq<char>>,
    depth: nat,
    name: Seq<char>,
)
    requires
        stack.contains(name),
    ensures
        operand_value(env, stack, depth, TokenView::Identifier(name)) == Err::<
            NumberView,
            ErrorView,
        >(ErrorView::SolveError(SolveReason::VariableCycle)),
{
}

/// A name without an assignment has no value.
pub proof fn lemma_undefined_name_fails(
    env: Map<Seq<char>, Seq<TokenView>>,
    stack: Seq<Seq<char>>,
    depth: nat,
    name: Seq<char>,
)
    requires
        !env.contains_key(name),
        !stack.contains(name),
    ensures
        operand_value(env, stack, depth, TokenView::Identifier(name)) == Err::<
            NumberView,
            ErrorView,
        >(ErrorView::UndefinedVariable(name)),
{
}

/// The tokens of `a op1 b op2 c`.
pub open spec fn chain_tokens(
    a: NumberView,
    op1: Operator,
    b: NumberView,
    op2: Operator,
    c: NumberView,
) -> Seq<TokenView> {
    seq![
        TokenView::Value(a),
        TokenView::Operator(op1),
        TokenView::Value(b),
        TokenView::Operator(op2),
        TokenView::Value(c),
    ]
}

/// Precedence: in `a op1 b op2 c` the second operator is applied first
/// where it binds tighter than the first, as in `2 + 3 * 4`.
pub proof fn lemma_tighter_operator_goes_first(
    env: Map<Seq<char>, Seq<TokenView>>,
    a: NumberView,
    op1: Operator,
    b: NumberView,
    op2: Operator,
    c: NumberView,
)
    requires
        precedence_of(op2) > precedence_of(op1),
        operation_defined(op2, b, c),
        operation_defined(op1, a, operation_result(op2, b, c)),
    ensures
        evaluate(env, chain_tokens(a, op1, b, op2, c)) == Ok::<NumberView, ErrorView>(
            operation_result(op1, a, operation_result(op2, b, c)),
        ),
{
    let tokens = chain_tokens(a, op1, b, op2, c);
    let stack = Seq::<Seq<char>>::empty();
    let inner = operation_result(op2, b, c);
    let value = operation_result(op1, a, inner);
    assert(operand_value(env, stack, 0, tokens[0]) == Ok::<NumberView, ErrorView>(a));
    assert(operand_value(env, stack, 0, tokens[2]) == Ok::<NumberView, ErrorView>(b));
    assert(operand_value(env, stack, 0, tokens[4]) == Ok::<NumberView, ErrorView>(c));
    assert(raise(env, stack, 0, tokens, 5, c, op2, 2) == Ok::<(NumberView, int), ErrorView>(
        (c, 5),
    ));
    assert(climb(env, stack, 0, tokens, 5, inner, 2) == Ok::<(NumberView, int), ErrorView>(
        (inner, 5),
    ));
    assert(climb(env, stack, 0, tokens, 3, b, 2) == Ok::<(NumberView, int), ErrorView>(
        (inner, 5),
    ));
    assert(raise(env, stack, 0, tokens, 5, inner, op1, 1) == Ok::<(NumberView, int), ErrorView>(
        (inner, 5),
    ));
    assert(raise(env, stack, 0, tokens, 3, b, op1, 1) == Ok::<(NumberView, int), ErrorView>(
        (inner, 5),
    ));
    assert(climb(env, stack, 0, tokens, 5, value, 1) == Ok::<(NumberView, int), ErrorView>(
        (value, 5),
    ));
    assert(climb(env, stack, 0, tokens, 1, a, 1) == Ok::<(NumberView, int), ErrorView>(
        (value, 5),
    ));
}

/// Left to right: in `a op1 b op2 c` the first operator is applied first
/// where the second does not bind tighter, as in `2 * 3 + 4` and `9 - 4 - 3`.
pub proof fn lemma_equal_operators_go_left_to_right(
    env: Map<Seq<char>, Seq<TokenView>>,
    a: NumberView,
    op1: Operator,
    b: NumberView,
    op2: Operator,
    c: NumberView,
)
    requires
        precedence_of(op2) <= precedence_of(op1),
        operation_defined(op1, a, b),
        operation_defined(op2, operation_result(op1, a, b), c),
    ensures
        evaluate(env, chain_tokens(a, op1, b, op2, c)) == Ok::<NumberView, ErrorView>(
            operation_result(op2, operation_result(op1, a, b), c),
        ),
{
    let tokens = chain_tokens(a, op1, b, op2, c);
    let stack = Seq::<Seq<char>>::empty();
    let inner = operation_result(op1, a, b);
    let value = operation_result(op2, inner, c);
    assert(operand_value(env, stack, 0, tokens[0]) == Ok::<NumberView, ErrorView>(a));
    assert(operand_value(env, stack, 0, tokens[2]) == Ok::<NumberView, ErrorView>(b));
    assert(operand_value(env, stack, 0, tokens[4]) == Ok::<NumberView, ErrorView>(c));
    assert(raise(env, stack, 0, tokens, 3, b, op1, 1) == Ok::<(NumberView, int), ErrorView>(
        (b, 3),
    ));
    assert(raise(env, stack, 0, tokens, 5, c, op2, 1) == Ok::<(NumberView, int), ErrorView>(
        (c, 5),
    ));
    assert(climb(env, stack, 0, tokens, 5, value, 1) == Ok::<(NumberView, int), ErrorView>(
        (value, 5),
    ));
    assert(climb(env, stack, 0, tokens, 3, inner, 1) == Ok::<(NumberView, int), ErrorView>(
        (value, 5),
    ));
    assert(climb(env, stack, 0, tokens, 1, a, 1) == Ok::<(NumberView, int), ErrorView>(
        (value, 5),
    ));
}

/// A group is one operand: its value is that of its tokens, one level
/// deeper.
pub proof fn lemma_group_is_one_operand(
    env: Map<Seq<char>, Seq<TokenView>>,
    stack: Seq<Seq<char>>,
    depth: nat,
    tokens: Seq<TokenView>,
)
    requires
        depth < MAX_NESTING,
    ensures
        operand_value(env, stack, depth, TokenView::Group(tokens)) == sequence_value(
            env,
            stack,
            depth + 1,
            tokens,
        ),
{
}

/// Mixed arithmetic promotes to floating point: an operation with a
/// floating-point operand always has a result, the term of the operator
/// over its two operands in their order, an integer operand coerced.
pub proof fn lemma_mixed_operation_is_float(op: Operator, a: NumberView, b: NumberView)
    requires
        a is Float || b is Float,
    ensures
        operation_defined(op, a, b),
        operation_result(op, a, b) == NumberView::Float(
            FloatView::Binary(op, Box::new(as_float(a)), Box::new(as_float(b))),
        ),
        a matches NumberView::Integer(i) ==> as_float(a) == FloatView::FromInteger(i),
        b matches NumberView::Integer(i) ==> as_float(b) == FloatView::FromInteger(i),
{
}

/// Two integers stay integers under every operator.
pub proof fn lemma_integer_operation_is_integer(op: Operator, a: i32, b: i32)
    ensures
        operation_result(op, NumberView::Integer(a), NumberView::Integer(b)) == NumberView::Integer(
            integer_result(op, a, b),
        ),
{
}

/// Integer arithmetic, for every pair of integers: the line that holds `a`
/// and `b` in decimal, with `+`, `-` or `*` between them and one space on
/// each side of it, yields the mathematical result wherever that is an
/// integer of 32 bits, and the result reduced to 32 bits elsewhere.
pub proof fn lemma_integer_arithmetic_in_decimal(
    env: Map<Seq<char>, Seq<TokenView>>,
    a: i32,
    op: Operator,
    b: i32,
)
    requires
        op != Operator::Div,
    ensures
        ({
            let exact = match op {
                Operator::Add => a + b,
                Operator::Subtract => a - b,
                _ => a * b,
            };
            let line = decimal(a as int) + seq![SPACE, operator_byte(op), SPACE] + decimal(
                b as int,
            );
            &&& execute(env, line).0 == Ok::<Option<NumberView>, ErrorView>(
                Some(NumberView::Integer(wrap_i32(exact))),
            )
            &&& i32::MIN <= exact <= i32::MAX ==> execute(env, line).0 == Ok::<
                Option<NumberView>,
                ErrorView,
            >(Some(NumberView::Integer(exact as i32)))
        }),
{
    lemma_decimal_is_literal(a);
    lemma_decimal_is_literal(b);
    lemma_decimal_is_short(a);
    lemma_decimal_is_short(b);
    lemma_integer_arithmetic(env, decimal(a as int), op, decimal(b as int));
}

/// An integer of 32 bits takes at most eleven characters.
pub proof fn lemma_decimal_is_short(value: i32)
    ensures
        0 < decimal(value as int).len() <= 11,
{
    let n: nat = if value < 0 {
        (-value) as nat
    } else {
        value as nat
    };
    reveal_with_fuel(digits_of, 11);
    assert(0 < digits_of(n).len() <= 10);
}

} // verus!
