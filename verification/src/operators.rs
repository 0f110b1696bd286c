//! The fixed, ordered operator table. Each operator is matched by a run of
//! one repeated character and exposes a binary evaluation function over
//! values; unsupported operand pairs are a typed failure.

use vstd::prelude::*;

use crate::value::EvalError;
use crate::value::Value;
use crate::value::ValueView;
use crate::value::res_view;

verus! {

/// One operator of the table. `Noop` is not part of the table: it is the
/// trailing marker that closes a sub-expression chain and combines nothing.
#[derive(Clone, Copy, Debug, PartialEq, Eq, Structural)]
pub enum Op {
    Add,
    Sub,
    Mul,
    Less,
    Greater,
    Equal,
    And,
    Or,
    Noop,
}

/// The identifier of an operator: a run of one repeated character.
pub open spec fn op_id(op: Op) -> Seq<char> {
    match op {
        Op::Add => seq!['+'],
        Op::Sub => seq!['-'],
        Op::Mul => seq!['*'],
        Op::Less => seq!['<'],
        Op::Greater => seq!['>'],
        Op::Equal => seq!['=', '='],
        Op::And => seq!['&'],
        Op::Or => seq!['|'],
        Op::Noop => Seq::empty(),
    }
}

/// Operator discovery, one character at a time: the table operator whose
/// identifier is a run of this character, if any. Operators with mixed
/// characters would be undiscoverable by this scheme, so the table holds
/// none whose identifier mixes characters.
pub open spec fn char_op(c: char) -> Option<Op> {
    if c == '+' {
        Some(Op::Add)
    } else if c == '-' {
        Some(Op::Sub)
    } else if c == '*' {
        Some(Op::Mul)
    } else if c == '<' {
        Some(Op::Less)
    } else if c == '>' {
        Some(Op::Greater)
    } else if c == '=' {
        Some(Op::Equal)
    } else if c == '&' {
        Some(Op::And)
    } else if c == '|' {
        Some(Op::Or)
    } else {
        None
    }
}

/// Discovery is sound: a discovered operator has a non-empty identifier
/// made of the discovered character alone.
pub proof fn lemma_char_op_repeated(c: char, op: Op)
    requires
        char_op(c) == Some(op),
    ensures
        op_id(op).len() > 0,
        forall|i: int| 0 <= i < op_id(op).len() ==> op_id(op)[i] == c,
{
}

/// What applying an operator to two values yields. Arithmetic wraps on
/// `i64`; `+` also concatenates strings; comparisons order numbers;
/// `=` runs compare equal-typed values; `&` and `|` combine booleans.
/// Every other pairing, and any application of `Noop`, is a `TypeError`.
pub open spec fn apply_op_spec(op: Op, a: ValueView, b: ValueView) -> Result<ValueView, EvalError> {
    match op {
        Op::Add => match (a, b) {
            (ValueView::Num(x), ValueView::Num(y)) => Ok(
                ValueView::Num(vstd::wrapping::i64_specs::wrapping_add(x, y)),
            ),
            (ValueView::Str(s), ValueView::Str(t)) => Ok(ValueView::Str(s + t)),
            _ => Err(EvalError::TypeError),
        },
        Op::Sub => match (a, b) {
            (ValueView::Num(x), ValueView::Num(y)) => Ok(
                ValueView::Num(vstd::wrapping::i64_specs::wrapping_sub(x, y)),
            ),
            _ => Err(EvalError::TypeError),
        },
        Op::Mul => match (a, b) {
            (ValueView::Num(x), ValueView::Num(y)) => Ok(
                ValueView::Num(vstd::wrapping::i64_specs::wrapping_mul(x, y)),
            ),
            _ => Err(EvalError::TypeError),
        },
        Op::Less => match (a, b) {
            (ValueView::Num(x), ValueView::Num(y)) => Ok(ValueView::Bool(x < y)),
            _ => Err(EvalError::TypeError),
        },
        Op::Greater => match (a, b) {
            (ValueView::Num(x), ValueView::Num(y)) => Ok(ValueView::Bool(x > y)),
            _ => Err(EvalError::TypeError),
        },
        Op::Equal => match (a, b) {
            (ValueView::Null, ValueView::Null) => Ok(ValueView::Bool(true)),
            (ValueView::Num(x), ValueView::Num(y)) => Ok(ValueView::Bool(x == y)),
            (ValueView::Str(s), ValueView::Str(t)) => Ok(ValueView::Bool(s == t)),
            (ValueView::Bool(x), ValueView::Bool(y)) => Ok(ValueView::Bool(x == y)),
            _ => Err(EvalError::TypeError),
        },
        Op::And => match (a, b) {
            (ValueView::Bool(x), ValueView::Bool(y)) => Ok(ValueView::Bool(x && y)),
            _ => Err(EvalError::TypeError),
        },
        Op::Or => match (a, b) {
            (ValueView::Bool(x), ValueView::Bool(y)) => Ok(ValueView::Bool(x || y)),
            _ => Err(EvalError::TypeError),
        },
        Op::Noop => Err(EvalError::TypeError),
    }
}

/// Applies one table operator to two values.
pub fn apply(op: Op, a: &Value, b: &Value) -> (r: Result<Value, EvalError>)
    ensures
        res_view(r) == apply_op_spec(op, a@, b@),
{
    match op {
        Op::Add => match (a, b) {
            (Value::Num(x), Value::Num(y)) => Ok(Value::Num(x.wrapping_add(*y))),
            (Value::Str(s), Value::Str(t)) => Ok(Value::Str(s.clone().concat(t.as_str()))),
            _ => Err(EvalError::TypeError),
        },
        Op::Sub => match (a, b) {
            (Value::Num(x), Value::Num(y)) => Ok(Value::Num(x.wrapping_sub(*y))),
            _ => Err(EvalError::TypeError),
        },
        Op::Mul => match (a, b) {
            (Value::Num(x), Value::Num(y)) => Ok(Value::Num(x.wrapping_mul(*y))),
            _ => Err(EvalError::TypeError),
        },
        Op::Less => match (a, b) {
            (Value::Num(x), Value::Num(y)) => Ok(Value::Bool(*x < *y)),
            _ => Err(EvalError::TypeError),
        },
        Op::Greater => match (a, b) {
            (Value::Num(x), Value::Num(y)) => Ok(Value::Bool(*x > *y)),
            _ => Err(EvalError::TypeError),
        },
        Op::Equal => match (a, b) {
            (Value::Null, Value::Null) => Ok(Value::Bool(true)),
            (Value::Num(x), Value::Num(y)) => Ok(Value::Bool(*x == *y)),
            (Value::Str(s), Value::Str(t)) => Ok(Value::Bool(*s == *t)),
            (Value::Bool(x), Value::Bool(y)) => Ok(Value::Bool(*x == *y)),
            _ => Err(EvalError::TypeError),
        },
        Op::And => match (a, b) {
            (Value::Bool(x), Value::Bool(y)) => Ok(Value::Bool(*x && *y)),
            _ => Err(EvalError::TypeError),
        },
        Op::Or => match (a, b) {
            (Value::Bool(x), Value::Bool(y)) => Ok(Value::Bool(*x || *y)),
            _ => Err(EvalError::TypeError),
        },
        Op::Noop => Err(EvalError::TypeError),
    }
}

} // verus!
