//! Runtime values and their arithmetic, comparison and truthiness.
use crate::error::{Error, ErrorModel, runtime_error};
use crate::native_fn::ClockFn;
use crate::number::{is_zero, negated, number_eq, number_le, number_lt};
use crate::number;
use vstd::prelude::*;
use vstd::string::StringExecFns;

verus! {

/// A value of a running program. Functions, classes and instances are named
/// by their place in the interpreter's heap, so two values of these kinds are
/// the same object exactly when they hold the same index.
#[derive(Clone, Debug, PartialEq)]
pub enum LoxValue {
    /// The bits of a double.
    Number(u64),
    Str(String),
    Bool(bool),
    /// An instant: seconds and nanoseconds since the Unix epoch.
    Time(u64, u32),
    Native(ClockFn),
    Fn(usize),
    Class(usize),
    Instance(usize),
    Nil,
}

/// The mathematical content of [`LoxValue`].
pub enum ValueModel {
    Number(u64),
    Str(Seq<char>),
    Bool(bool),
    Time(u64, u32),
    Native(ClockFn),
    Fn(usize),
    Class(usize),
    Instance(usize),
    Nil,
}

impl View for LoxValue {
    type V = ValueModel;

    open spec fn view(&self) -> ValueModel {
        match self {
            LoxValue::Number(n) => ValueModel::Number(*n),
            LoxValue::Str(s) => ValueModel::Str(s@),
            LoxValue::Bool(b) => ValueModel::Bool(*b),
            LoxValue::Time(s, n) => ValueModel::Time(*s, *n),
            LoxValue::Native(f) => ValueModel::Native(*f),
            LoxValue::Fn(i) => ValueModel::Fn(*i),
            LoxValue::Class(i) => ValueModel::Class(*i),
            LoxValue::Instance(i) => ValueModel::Instance(*i),
            LoxValue::Nil => ValueModel::Nil,
        }
    }
}

/// The views of a list of values.
pub open spec fn values_model(vs: Seq<LoxValue>) -> Seq<ValueModel> {
    Seq::new(vs.len(), |i: int| vs[i]@)
}

/// The four operations on doubles that the host computes.
#[derive(Copy, Clone, Debug, PartialEq, Eq, Structural)]
pub enum ArithOp {
    Add,
    Subtract,
    Multiply,
    Divide,
}

/// What a binary arithmetic operator comes to: a value that is known at once,
/// or a request to the host to compute `left op right` on two doubles.
#[derive(Clone, Debug, PartialEq)]
pub enum Outcome {
    Value(LoxValue),
    Arithmetic(ArithOp, u64, u64),
}

/// The mathematical content of [`Outcome`].
pub enum OutcomeModel {
    Value(ValueModel),
    Arithmetic(ArithOp, u64, u64),
}

impl View for Outcome {
    type V = OutcomeModel;

    open spec fn view(&self) -> OutcomeModel {
        match self {
            Outcome::Value(v) => OutcomeModel::Value(v@),
            Outcome::Arithmetic(op, a, b) => OutcomeModel::Arithmetic(*op, *a, *b),
        }
    }
}

/// The view of a result that holds a value.
pub open spec fn value_result(r: Result<LoxValue, Error>) -> Result<ValueModel, ErrorModel> {
    match r {
        Ok(v) => Ok(v@),
        Err(e) => Err(e@),
    }
}

/// The view of a result that holds an outcome.
pub open spec fn outcome_result(r: Result<Outcome, Error>) -> Result<OutcomeModel, ErrorModel> {
    match r {
        Ok(v) => Ok(v@),
        Err(e) => Err(e@),
    }
}

/// `false` and `nil` are falsy; everything else is truthy.
pub open spec fn truthy(v: ValueModel) -> bool {
    match v {
        ValueModel::Bool(b) => b,
        ValueModel::Nil => false,
        _ => true,
    }
}

/// Equality of the language: values of different kinds are never equal.
pub open spec fn values_equal(a: ValueModel, b: ValueModel) -> bool {
    match (a, b) {
        (ValueModel::Number(x), ValueModel::Number(y)) => number_eq(x, y),
        (ValueModel::Str(x), ValueModel::Str(y)) => x == y,
        (ValueModel::Bool(x), ValueModel::Bool(y)) => x == y,
        (ValueModel::Time(s, n), ValueModel::Time(t, m)) => s == t && n == m,
        (ValueModel::Native(_), ValueModel::Native(_)) => true,
        (ValueModel::Fn(x), ValueModel::Fn(y)) => x == y,
        (ValueModel::Class(x), ValueModel::Class(y)) => x == y,
        (ValueModel::Instance(x), ValueModel::Instance(y)) => x == y,
        (ValueModel::Nil, ValueModel::Nil) => true,
        _ => false,
    }
}

pub open spec fn not_a_number() -> ErrorModel {
    runtime_error("operand must be a number"@, None)
}

pub open spec fn not_numbers() -> ErrorModel {
    runtime_error("operands must be numbers"@, None)
}

pub open spec fn not_addable() -> ErrorModel {
    runtime_error("operands must be two numbers or two strings"@, None)
}

pub open spec fn divided_by_zero() -> ErrorModel {
    runtime_error("divided by zero"@, None)
}

/// Unary minus.
pub open spec fn negate_number_model(v: ValueModel) -> Result<ValueModel, ErrorModel> {
    match v {
        ValueModel::Number(n) => Ok(ValueModel::Number(negated(n))),
        _ => Err(not_a_number()),
    }
}

/// `-`, `*` and `/` on two values: a request to the host when both are
/// numbers, except that a zero divisor is an error.
pub open spec fn arithmetic_model(op: ArithOp, a: ValueModel, b: ValueModel) -> Result<
    OutcomeModel,
    ErrorModel,
> {
    match (a, b) {
        (ValueModel::Number(x), ValueModel::Number(y)) => if op == ArithOp::Divide && is_zero(y) {
            Err(divided_by_zero())
        } else {
            Ok(OutcomeModel::Arithmetic(op, x, y))
        },
        _ => Err(not_numbers()),
    }
}

/// `+`: the sum of two numbers or the concatenation of two strings.
pub open spec fn plus_model(a: ValueModel, b: ValueModel) -> Result<OutcomeModel, ErrorModel> {
    match (a, b) {
        (ValueModel::Number(x), ValueModel::Number(y)) => Ok(
            OutcomeModel::Arithmetic(ArithOp::Add, x, y),
        ),
        (ValueModel::Str(x), ValueModel::Str(y)) => Ok(OutcomeModel::Value(ValueModel::Str(x + y))),
        _ => Err(not_addable()),
    }
}

/// The four ordering comparisons, named by what they test.
#[derive(Copy, Clone, Debug, PartialEq, Eq, Structural)]
pub enum Comparison {
    Greater,
    GreaterEqual,
    Less,
    LessEqual,
}

pub open spec fn compare_numbers(c: Comparison, x: u64, y: u64) -> bool {
    match c {
        Comparison::Greater => number_lt(y, x),
        Comparison::GreaterEqual => number_le(y, x),
        Comparison::Less => number_lt(x, y),
        Comparison::LessEqual => number_le(x, y),
    }
}

pub open spec fn comparison_model(c: Comparison, a: ValueModel, b: ValueModel) -> Result<
    ValueModel,
    ErrorModel,
> {
    match (a, b) {
        (ValueModel::Number(x), ValueModel::Number(y)) => Ok(
            ValueModel::Bool(compare_numbers(c, x, y)),
        ),
        _ => Err(not_numbers()),
    }
}

impl LoxValue {
    /// A copy of this value.
    pub fn duplicate(&self) -> (r: LoxValue)
        ensures
            r@ == self@,
    {
        match self {
            LoxValue::Number(n) => LoxValue::Number(*n),
            LoxValue::Str(s) => LoxValue::Str(s.clone()),
            LoxValue::Bool(b) => LoxValue::Bool(*b),
            LoxValue::Time(s, n) => LoxValue::Time(*s, *n),
            LoxValue::Native(f) => LoxValue::Native(*f),
            LoxValue::Fn(i) => LoxValue::Fn(*i),
            LoxValue::Class(i) => LoxValue::Class(*i),
            LoxValue::Instance(i) => LoxValue::Instance(*i),
            LoxValue::Nil => LoxValue::Nil,
        }
    }

    /// Whether the value counts as true in a condition.
    pub fn is_truthy(&self) -> (r: bool)
        ensures
            r == truthy(self@),
    {
        match self {
            LoxValue::Bool(b) => *b,
            LoxValue::Nil => false,
            _ => true,
        }
    }

    /// Equality of the language.
    pub fn equals(&self, v: &LoxValue) -> (r: bool)
        ensures
            r == values_equal(self@, v@),
    {
        match (self, v) {
            (LoxValue::Number(x), LoxValue::Number(y)) => number::equal(*x, *y),
            (LoxValue::Str(x), LoxValue::Str(y)) => *x == *y,
            (LoxValue::Bool(x), LoxValue::Bool(y)) => *x == *y,
            (LoxValue::Time(s, n), LoxValue::Time(t, m)) => *s == *t && *n == *m,
            (LoxValue::Native(_), LoxValue::Native(_)) => true,
            (LoxValue::Fn(x), LoxValue::Fn(y)) => *x == *y,
            (LoxValue::Class(x), LoxValue::Class(y)) => *x == *y,
            (LoxValue::Instance(x), LoxValue::Instance(y)) => *x == *y,
            (LoxValue::Nil, LoxValue::Nil) => true,
            _ => false,
        }
    }

    fn arithmetic(&self, op: ArithOp, v: &LoxValue) -> (r: Result<Outcome, Error>)
        ensures
            outcome_result(r) == arithmetic_model(op, self@, v@),
    {
        match (self, v) {
            (LoxValue::Number(x), LoxValue::Number(y)) => {
                if op == ArithOp::Divide && number::zero(*y) {
                    Err(Error::runtime(String::from_str("divided by zero"), None))
                } else {
                    Ok(Outcome::Arithmetic(op, *x, *y))
                }
            },
            _ => Err(Error::runtime(String::from_str("operands must be numbers"), None)),
        }
    }

    fn comparison(&self, c: Comparison, v: &LoxValue) -> (r: Result<LoxValue, Error>)
        ensures
            value_result(r) == comparison_model(c, self@, v@),
    {
        match (self, v) {
            (LoxValue::Number(x), LoxValue::Number(y)) => {
                let b = match c {
                    Comparison::Greater => number::less(*y, *x),
                    Comparison::GreaterEqual => number::less_equal(*y, *x),
                    Comparison::Less => number::less(*x, *y),
                    Comparison::LessEqual => number::less_equal(*x, *y),
                };
                Ok(LoxValue::Bool(b))
            },
            _ => Err(Error::runtime(String::from_str("operands must be numbers"), None)),
        }
    }

    /// Unary `-`: the number with the opposite sign; an error for anything
    /// that is not a number.
    pub fn negate_number(&self) -> (r: Result<LoxValue, Error>)
        ensures
            value_result(r) == negate_number_model(self@),
    {
        match self {
            LoxValue::Number(n) => Ok(LoxValue::Number(number::negate(*n))),
            _ => Err(Error::runtime(String::from_str("operand must be a number"), None)),
        }
    }

    /// Unary `!`: the negation of the value's truthiness.
    pub fn negate(&self) -> (r: Result<LoxValue, Error>)
        ensures
            value_result(r) == Ok::<ValueModel, ErrorModel>(ValueModel::Bool(!truthy(self@))),
    {
        Ok(LoxValue::Bool(!self.is_truthy()))
    }

    /// `self - v`.
    pub fn subtract(&self, v: LoxValue) -> (r: Result<Outcome, Error>)
        ensures
            outcome_result(r) == arithmetic_model(ArithOp::Subtract, self@, v@),
    {
        self.arithmetic(ArithOp::Subtract, &v)
    }

    /// `self * v`.
    pub fn multiply(&self, v: LoxValue) -> (r: Result<Outcome, Error>)
        ensures
            outcome_result(r) == arithmetic_model(ArithOp::Multiply, self@, v@),
    {
        self.arithmetic(ArithOp::Multiply, &v)
    }

    /// `self + v`.
    pub fn plus(&self, v: LoxValue) -> (r: Result<Outcome, Error>)
        ensures
            outcome_result(r) == plus_model(self@, v@),
    {
        match (self, &v) {
            (LoxValue::Number(x), LoxValue::Number(y)) => Ok(
                Outcome::Arithmetic(ArithOp::Add, *x, *y),
            ),
            (LoxValue::Str(x), LoxValue::Str(y)) => {
                let s = x.clone().concat(y.as_str());
                Ok(Outcome::Value(LoxValue::Str(s)))
            },
            _ => Err(
                Error::runtime(
                    String::from_str("operands must be two numbers or two strings"),
                    None,
                ),
            ),
        }
    }

    /// `self / v`; a zero divisor is an error, never an infinity.
    pub fn divide(&self, v: LoxValue) -> (r: Result<Outcome, Error>)
        ensures
            outcome_result(r) == arithmetic_model(ArithOp::Divide, self@, v@),
    {
        self.arithmetic(ArithOp::Divide, &v)
    }

    /// `self > v`.
    pub fn greater(&self, v: LoxValue) -> (r: Result<LoxValue, Error>)
        ensures
            value_result(r) == comparison_model(Comparison::Greater, self@, v@),
    {
        self.comparison(Comparison::Greater, &v)
    }

    /// `self >= v`.
    pub fn greater_equal(&self, v: LoxValue) -> (r: Result<LoxValue, Error>)
        ensures
            value_result(r) == comparison_model(Comparison::GreaterEqual, self@, v@),
    {
        self.comparison(Comparison::GreaterEqual, &v)
    }

    /// `self < v`.
    pub fn less(&self, v: LoxValue) -> (r: Result<LoxValue, Error>)
        ensures
            value_result(r) == comparison_model(Comparison::Less, self@, v@),
    {
        self.comparison(Comparison::Less, &v)
    }

    /// `self <= v`.
    pub fn less_equal(&self, v: LoxValue) -> (r: Result<LoxValue, Error>)
        ensures
            value_result(r) == comparison_model(Comparison::LessEqual, self@, v@),
    {
        self.comparison(Comparison::LessEqual, &v)
    }

    /// `self == v`: never an error; values of different kinds are unequal.
    pub fn equal_equal(&self, v: LoxValue) -> (r: Result<LoxValue, Error>)
        ensures
            value_result(r) == Ok::<ValueModel, ErrorModel>(
                ValueModel::Bool(values_equal(self@, v@)),
            ),
    {
        Ok(LoxValue::Bool(self.equals(&v)))
    }

    /// `self != v`: never an error.
    pub fn bang_equal(&self, v: LoxValue) -> (r: Result<LoxValue, Error>)
        ensures
            value_result(r) == Ok::<ValueModel, ErrorModel>(
                ValueModel::Bool(!values_equal(self@, v@)),
            ),
    {
        Ok(LoxValue::Bool(!self.equals(&v)))
    }

    /// The truthiness of the value, as a boolean value.
    pub fn truthy(&self) -> (r: Result<LoxValue, Error>)
        ensures
            value_result(r) == Ok::<ValueModel, ErrorModel>(ValueModel::Bool(truthy(self@))),
    {
        Ok(LoxValue::Bool(self.is_truthy()))
    }
}

/// Dividing by either zero is an error, whatever the dividend; no other pair
/// of numbers is refused.
pub proof fn division_by_zero_is_an_error(a: ValueModel, x: u64, y: u64)
    ensures
        is_zero(y) ==> arithmetic_model(ArithOp::Divide, ValueModel::Number(x), ValueModel::Number(y))
            == Err::<OutcomeModel, ErrorModel>(divided_by_zero()),
        !is_zero(y) ==> arithmetic_model(
            ArithOp::Divide,
            ValueModel::Number(x),
            ValueModel::Number(y),
        ) == Ok::<OutcomeModel, ErrorModel>(OutcomeModel::Arithmetic(ArithOp::Divide, x, y)),
        arithmetic_model(ArithOp::Divide, a, ValueModel::Number(y)) is Ok ==> !is_zero(y),
{
}

/// Equality is reflexive except on not-a-number, and symmetric.
pub proof fn equality_is_symmetric(a: ValueModel, b: ValueModel)
    ensures
        values_equal(a, b) == values_equal(b, a),
        !(a matches ValueModel::Number(n) && crate::number::is_nan(n)) ==> values_equal(a, a),
{
}

} // verus!
