//! Operators and numbers.
//!
//! Integers are 32-bit and wrap on overflow. A floating-point value is a
//! 32-bit one, and it is not computed here: it is carried as the term that
//! denotes it, a tree of binary operations over literals and coerced
//! integers, and whoever needs the value reduces the term with the
//! arithmetic of the machine at hand.

use vstd::prelude::*;

verus! {

/// A binary arithmetic operator.
#[derive(Debug, Clone, Copy, PartialEq, Eq, Structural)]
pub enum Operator {
    Add,
    Multiply,
    Div,
    Subtract,
}

/// A 32-bit floating-point value, held as the term that denotes it.
#[derive(Debug, PartialEq)]
pub enum Float {
    /// A decimal literal as it was written, such as `1.5`, `-.5` or `2.`:
    /// the floating-point value nearest to it.
    Literal(String),
    /// An integer operand of a mixed operation, coerced to floating point:
    /// the floating-point value nearest to it.
    FromInteger(i32),
    /// The operator applied to the values of the left and the right term,
    /// in that order.
    Binary(Operator, Box<Float>, Box<Float>),
}

/// A number: an integer, or a floating-point term.
#[derive(Debug, PartialEq)]
pub enum Number {
    Integer(i32),
    Float(Float),
}

/// The mathematical model of a [`Float`].
pub enum FloatView {
    Literal(Seq<char>),
    FromInteger(i32),
    Binary(Operator, Box<FloatView>, Box<FloatView>),
}

/// The mathematical model of a [`Number`].
pub enum NumberView {
    Integer(i32),
    Float(FloatView),
}

/// The 32-bit two's complement integer that is congruent to `x`.
pub open spec fn wrap_i32(x: int) -> i32 {
    let m = x % 0x1_0000_0000;
    if m > i32::MAX {
        (m - 0x1_0000_0000) as i32
    } else {
        m as i32
    }
}

/// The quotient of `x` by `d` rounded toward zero, for `d != 0`.
pub open spec fn quotient_toward_zero(x: int, d: int) -> int {
    if x >= 0 && d > 0 {
        x / d
    } else if x < 0 && d < 0 {
        (-x) / (-d)
    } else if x < 0 {
        -((-x) / d)
    } else {
        -(x / (-d))
    }
}

/// Whether `a / b` has a value among the 32-bit integers: `b` is not zero
/// and the quotient does not overflow.
pub open spec fn integer_division_defined(a: i32, b: i32) -> bool {
    b != 0 && !(a == i32::MIN && b == -1)
}

/// What the operator yields on two integers, where
/// `integer_division_defined` holds for a division.
pub open spec fn integer_result(op: Operator, a: i32, b: i32) -> i32 {
    match op {
        Operator::Add => wrap_i32(a + b),
        Operator::Subtract => wrap_i32(a - b),
        Operator::Multiply => wrap_i32(a * b),
        Operator::Div => quotient_toward_zero(a as int, b as int) as i32,
    }
}

/// A number as a floating-point term: a term is itself, an integer is coerced.
pub open spec fn as_float(n: NumberView) -> FloatView {
    match n {
        NumberView::Integer(i) => FloatView::FromInteger(i),
        NumberView::Float(f) => f,
    }
}

/// Whether the operator has a result on the two operands. Only a division
/// of two integers can lack one.
pub open spec fn operation_defined(op: Operator, a: NumberView, b: NumberView) -> bool {
    (op == Operator::Div && a is Integer && b is Integer) ==> integer_division_defined(
        a->Integer_0,
        b->Integer_0,
    )
}

/// The result of the operator on two operands: two integers stay integers;
/// otherwise both become floating-point terms, an integer by coercion, and
/// are combined in their order.
pub open spec fn operation_result(op: Operator, a: NumberView, b: NumberView) -> NumberView {
    match (a, b) {
        (NumberView::Integer(x), NumberView::Integer(y)) => NumberView::Integer(
            integer_result(op, x, y),
        ),
        _ => NumberView::Float(
            FloatView::Binary(op, Box::new(as_float(a)), Box::new(as_float(b))),
        ),
    }
}

/// How tightly an operator binds: `*` and `/` tighter than `+` and `-`.
pub open spec fn precedence_of(op: Operator) -> u8 {
    match op {
        Operator::Add | Operator::Subtract => 1,
        Operator::Multiply | Operator::Div => 2,
    }
}

/// Within the 32-bit range wrapping changes nothing.
pub proof fn lemma_wrap_in_range(x: int)
    requires
        i32::MIN <= x <= i32::MAX,
    ensures
        wrap_i32(x) == x,
{
}

impl Float {
    pub open spec fn view(&self) -> FloatView
        decreases self,
    {
        match self {
            Float::Literal(text) => FloatView::Literal(text@),
            Float::FromInteger(i) => FloatView::FromInteger(*i),
            Float::Binary(op, left, right) => FloatView::Binary(
                *op,
                Box::new(left.view()),
                Box::new(right.view()),
            ),
        }
    }
}

impl Clone for Float {
    fn clone(&self) -> (copy: Self)
        ensures
            copy@ == self@,
        decreases self,
    {
        match self {
            Float::Literal(text) => Float::Literal(text.clone()),
            Float::FromInteger(i) => Float::FromInteger(*i),
            Float::Binary(op, left, right) => {
                let l = (&**left).clone();
                let r = (&**right).clone();
                Float::Binary(*op, Box::new(l), Box::new(r))
            },
        }
    }
}

impl Number {
    pub open spec fn view(&self) -> NumberView {
        match self {
            Number::Integer(i) => NumberView::Integer(*i),
            Number::Float(f) => NumberView::Float(f@),
        }
    }

    /// The number as a floating-point term, on the concrete type.
    pub open spec fn float_term(self) -> Float {
        match self {
            Number::Integer(i) => Float::FromInteger(i),
            Number::Float(f) => f,
        }
    }

    /// The result of the operator on two numbers, on the concrete type; its
    /// view is `operation_result` of the views.
    pub open spec fn combined(self, op: Operator, rhs: Number) -> Number {
        match (self, rhs) {
            (Number::Integer(a), Number::Integer(b)) => Number::Integer(integer_result(op, a, b)),
            _ => Number::Float(
                Float::Binary(op, Box::new(self.float_term()), Box::new(rhs.float_term())),
            ),
        }
    }

    /// The number as a floating-point term.
    pub fn into_float(self) -> (term: Float)
        ensures
            term == self.float_term(),
            term@ == as_float(self@),
    {
        match self {
            Number::Integer(i) => Float::FromInteger(i),
            Number::Float(f) => f,
        }
    }

    /// Combines two numbers of which at least one is a floating-point term.
    fn combine_floats(self, op: Operator, rhs: Number) -> (result: Number)
        requires
            !(self is Integer && rhs is Integer),
        ensures
            result == self.combined(op, rhs),
            result@ == operation_result(op, self@, rhs@),
    {
        Number::Float(Float::Binary(op, Box::new(self.into_float()), Box::new(rhs.into_float())))
    }
}

impl Clone for Number {
    fn clone(&self) -> (copy: Self)
        ensures
            copy@ == self@,
    {
        match self {
            Number::Integer(i) => Number::Integer(*i),
            Number::Float(f) => Number::Float(f.clone()),
        }
    }
}

/// The wrapping operations of the machine agree with `wrap_i32`.
proof fn lemma_wrapping_matches(a: i32, b: i32)
    ensures
        a.wrapping_add(b) == wrap_i32(a + b),
        a.wrapping_sub(b) == wrap_i32(a - b),
        a.wrapping_mul(b) == wrap_i32(a * b),
{
}

impl core::ops::Add for Number {
    type Output = Number;

    /// The sum; two integers wrap on overflow.
    fn add(self, rhs: Number) -> (sum: Number)
        ensures
            sum@ == operation_result(Operator::Add, self@, rhs@),
    {
        match (self, rhs) {
            (Number::Integer(a), Number::Integer(b)) => {
                proof {
                    lemma_wrapping_matches(a, b);
                }
                Number::Integer(a.wrapping_add(b))
            },
            (a, b) => a.combine_floats(Operator::Add, b),
        }
    }
}

impl vstd::std_specs::ops::AddSpecImpl for Number {
    open spec fn obeys_add_spec() -> bool {
        true
    }

    open spec fn add_req(self, rhs: Number) -> bool {
        true
    }

    open spec fn add_spec(self, rhs: Number) -> Number {
        self.combined(Operator::Add, rhs)
    }
}

/// A quotient of natural numbers is no larger than the dividend.
proof fn lemma_quotient_bounds(x: int, d: int)
    requires
        0 <= x,
        0 < d,
    ensures
        0 <= x / d <= x,
        d >= 2 ==> (x > 0 ==> x / d < x),
{
    assert(0 <= x / d <= x) by (nonlinear_arith)
        requires
            0 <= x,
            0 < d,
    ;
    assert(d >= 2 && x > 0 ==> x / d < x) by (nonlinear_arith)
        requires
            0 <= x,
            0 < d,
    ;
}

/// The quotient rounded toward zero fits in 32 bits exactly where
/// `integer_division_defined` holds.
pub proof fn lemma_quotient_in_range(a: i32, b: i32)
    requires
        b != 0,
    ensures
        (i32::MIN <= quotient_toward_zero(a as int, b as int) <= i32::MAX) <==> !(a == i32::MIN
            && b == -1),
{
    let x = a as int;
    let d = b as int;
    if x >= 0 && d > 0 {
        lemma_quotient_bounds(x, d);
    } else if x < 0 && d < 0 {
        lemma_quotient_bounds(-x, -d);
    } else if x < 0 {
        lemma_quotient_bounds(-x, d);
    } else {
        lemma_quotient_bounds(x, -d);
    }
}

impl core::ops::Sub for Number {
    type Output = Number;

    /// The difference; two integers wrap on overflow.
    fn sub(self, rhs: Number) -> (difference: Number)
        ensures
            difference@ == operation_result(Operator::Subtract, self@, rhs@),
    {
        match (self, rhs) {
            (Number::Integer(a), Number::Integer(b)) => {
                proof {
                    lemma_wrapping_matches(a, b);
                }
                Number::Integer(a.wrapping_sub(b))
            },
            (a, b) => a.combine_floats(Operator::Subtract, b),
        }
    }
}

impl vstd::std_specs::ops::SubSpecImpl for Number {
    open spec fn obeys_sub_spec() -> bool {
        true
    }

    open spec fn sub_req(self, rhs: Number) -> bool {
        true
    }

    open spec fn sub_spec(self, rhs: Number) -> Number {
        self.combined(Operator::Subtract, rhs)
    }
}

impl core::ops::Mul for Number {
    type Output = Number;

    /// The product; two integers wrap on overflow.
    fn mul(self, rhs: Number) -> (product: Number)
        ensures
            product@ == operation_result(Operator::Multiply, self@, rhs@),
    {
        match (self, rhs) {
            (Number::Integer(a), Number::Integer(b)) => {
                proof {
                    lemma_wrapping_matches(a, b);
                }
                Number::Integer(a.wrapping_mul(b))
            },
            (a, b) => a.combine_floats(Operator::Multiply, b),
        }
    }
}

impl vstd::std_specs::ops::MulSpecImpl for Number {
    open spec fn obeys_mul_spec() -> bool {
        true
    }

    open spec fn mul_req(self, rhs: Number) -> bool {
        true
    }

    open spec fn mul_spec(self, rhs: Number) -> Number {
        self.combined(Operator::Multiply, rhs)
    }
}

impl core::ops::Div for Number {
    type Output = Number;

    /// The quotient; that of two integers is rounded toward zero, and is
    /// asked for only where it exists.
    fn div(self, rhs: Number) -> (quotient: Number)
        ensures
            quotient@ == operation_result(Operator::Div, self@, rhs@),
    {
        match (self, rhs) {
            (Number::Integer(a), Number::Integer(b)) => {
                proof {
                    lemma_quotient_in_range(a, b);
                }
                match a.checked_div(b) {
                    Some(q) => Number::Integer(q),
                    // Not reached: the quotient exists.
                    None => Number::Integer(a),
                }
            },
            (a, b) => a.combine_floats(Operator::Div, b),
        }
    }
}

impl vstd::std_specs::ops::DivSpecImpl for Number {
    open spec fn obeys_div_spec() -> bool {
        true
    }

    open spec fn div_req(self, rhs: Number) -> bool {
        operation_defined(Operator::Div, self@, rhs@)
    }

    open spec fn div_spec(self, rhs: Number) -> Number {
        self.combined(Operator::Div, rhs)
    }
}

impl Operator {
    /// How tightly the operator binds: 1 for `+` and `-`, 2 for `*` and `/`.
    pub fn precedence(&self) -> (p: u8)
        ensures
            p == precedence_of(*self),
    {
        match self {
            Operator::Add => 1,
            Operator::Multiply => 2,
            Operator::Subtract => 1,
            Operator::Div => 2,
        }
    }

    /// Whether the operator has a result on the two operands: false only
    /// for an integer division by zero or of the least integer by -1.
    pub fn applies_to(&self, value1: &Number, value2: &Number) -> (defined: bool)
        ensures
            defined == operation_defined(*self, value1@, value2@),
    {
        match (self, value1, value2) {
            (Operator::Div, Number::Integer(a), Number::Integer(b)) => *b != 0 && !(*a == i32::MIN
                && *b == -1),
            _ => true,
        }
    }

    /// Performs the arithmetic.
    pub fn apply(&self, value1: Number, value2: Number) -> (result: Number)
        requires
            operation_defined(*self, value1@, value2@),
        ensures
            result@ == operation_result(*self, value1@, value2@),
    {
        match self {
            Operator::Add => value1 + value2,
            Operator::Multiply => value1 * value2,
            Operator::Subtract => value1 - value2,
            Operator::Div => value1 / value2,
        }
    }
}

} // verus!
