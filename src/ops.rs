//! Arithmetic and comparison on evaluated operands.
use vstd::prelude::*;
use crate::data_types::{DataType, Lit};
use crate::error::{InterpreterError, Kind, Native, NativeFnError, kind_of};
use crate::value::{Any, Value, values_model, lemma_values_model_index};

verus! {

/// The four arithmetic operators.
#[derive(Debug, Clone, Copy, PartialEq, Eq)]
pub enum ComparisonOperator {
    Add,
    Sub,
    Mul,
    Div,
}

/// The built-in function of an operator.
pub open spec fn native_of_op(op: ComparisonOperator) -> Native {
    match op {
        ComparisonOperator::Add => Native::Add,
        ComparisonOperator::Sub => Native::Sub,
        ComparisonOperator::Mul => Native::Mul,
        ComparisonOperator::Div => Native::Div,
    }
}

/// The integer of an operand at 1-based `position`; rationals and complex
/// numbers are not supported by arithmetic yet.
pub open spec fn operand(f: Native, v: Value, position: int) -> Result<i32, NativeFnError> {
    match v {
        Value::Prim(Lit::Int(i)) => Ok(i),
        Value::Prim(Lit::Rational(_)) => Err(NativeFnError::NotYetImplemented),
        Value::Prim(Lit::Complex(_)) => Err(NativeFnError::NotYetImplemented),
        _ => Err(NativeFnError::UnexpectedType {
            function: f,
            argument_position: position as usize,
            got: kind_of(v),
            expected: Kind::Number,
        }),
    }
}

/// `a op b` on 32-bit integers; a quotient must be exact.
pub open spec fn combine(op: ComparisonOperator, a: i32, b: i32) -> Result<i32, NativeFnError> {
    let r: int = match op {
        ComparisonOperator::Add => a + b,
        ComparisonOperator::Sub => a - b,
        ComparisonOperator::Mul => a * b,
        ComparisonOperator::Div => 0,
    };
    match op {
        ComparisonOperator::Div => match a.checked_div(b) {
            None => if b == 0 {
                Err(NativeFnError::DivisionByZero)
            } else {
                Err(NativeFnError::Overflow)
            },
            Some(q) => if q * b == a {
                Ok(q)
            } else {
                Err(NativeFnError::NotYetImplemented)
            },
        },
        _ => if i32::MIN <= r <= i32::MAX {
            Ok(r as i32)
        } else {
            Err(NativeFnError::Overflow)
        },
    }
}

/// Left fold of `op` over the operands, the first error winning.
pub open spec fn arith_fold(op: ComparisonOperator, vals: Seq<Value>) -> Result<i32, NativeFnError>
    recommends
        vals.len() >= 1,
    decreases vals.len(),
{
    if vals.len() <= 1 {
        operand(native_of_op(op), vals[0], 1)
    } else {
        match arith_fold(op, vals.drop_last()) {
            Err(e) => Err(e),
            Ok(acc) => match operand(native_of_op(op), vals.last(), vals.len() as int) {
                Err(e) => Err(e),
                Ok(x) => combine(op, acc, x),
            },
        }
    }
}

fn operand_of(f: Native, v: &Any, position: usize) -> (r: Result<i32, NativeFnError>)
    ensures
        r == operand(f, v.model(), position as int),
{
    match v {
        Any::Primitive(DataType::Integer(i)) => Ok(*i),
        Any::Primitive(DataType::Rational(_)) => Err(NativeFnError::NotYetImplemented),
        Any::Primitive(DataType::Complex(_)) => Err(NativeFnError::NotYetImplemented),
        _ => Err(NativeFnError::UnexpectedType {
            function: f,
            argument_position: position,
            got: Any::kind(v),
            expected: Kind::Number,
        }),
    }
}

impl ComparisonOperator {
    pub fn native(self) -> (r: Native)
        ensures
            r == native_of_op(self),
    {
        match self {
            ComparisonOperator::Add => Native::Add,
            ComparisonOperator::Sub => Native::Sub,
            ComparisonOperator::Mul => Native::Mul,
            ComparisonOperator::Div => Native::Div,
        }
    }

    /// `a op b`, failing on overflow, on a zero divisor and on an inexact quotient.
    pub fn apply(self, a: i32, b: i32) -> (r: Result<i32, NativeFnError>)
        ensures
            r == combine(self, a, b),
    {
        match self {
            ComparisonOperator::Add => match a.checked_add(b) {
                Some(s) => Ok(s),
                None => Err(NativeFnError::Overflow),
            },
            ComparisonOperator::Sub => match a.checked_sub(b) {
                Some(s) => Ok(s),
                None => Err(NativeFnError::Overflow),
            },
            ComparisonOperator::Mul => match a.checked_mul(b) {
                Some(s) => Ok(s),
                None => Err(NativeFnError::Overflow),
            },
            ComparisonOperator::Div => match a.checked_div(b) {
                None => if b == 0 {
                    Err(NativeFnError::DivisionByZero)
                } else {
                    Err(NativeFnError::Overflow)
                },
                Some(q) => {
                    assert(-0x4000_0000_0000_0000 <= (q as int) * (b as int)
                        <= 0x4000_0000_0000_0000) by (nonlinear_arith)
                        requires
                            -0x8000_0000 <= q <= 0x7fff_ffff,
                            -0x8000_0000 <= b <= 0x7fff_ffff,
                    ;
                    let p = (q as i64) * (b as i64);
                    if p == a as i64 {
                        Ok(q)
                    } else {
                        Err(NativeFnError::NotYetImplemented)
                    }
                },
            },
        }
    }
}

/// Folds `op` over evaluated operands from left to right.
pub fn arithmetic(op: ComparisonOperator, items: &Vec<Any>) -> (r: Result<Any, InterpreterError>)
    requires
        items@.len() >= 1,
    ensures
        match arith_fold(op, values_model(items@)) {
            Ok(i) => r == Ok::<Any, InterpreterError>(Any::Primitive(DataType::Integer(i))),
            Err(e) => r == Err::<Any, InterpreterError>(InterpreterError::NativeError(e)),
        },
{
    proof {
        lemma_values_model_index(items@);
    }
    let ghost vals = values_model(items@);
    let f = op.native();
    let mut acc = match operand_of(f, &items[0], 1) {
        Ok(x) => x,
        Err(e) => {
            proof {
                assert(vals.take(1).drop_last() =~= Seq::<Value>::empty());
                lemma_fold_prefix_err(op, vals, 1);
            }
            return Err(InterpreterError::NativeError(e));
        },
    };
    assert(arith_fold(op, vals.take(1)) == Ok::<i32, NativeFnError>(acc));
    let mut i: usize = 1;
    while i < items.len()
        invariant
            1 <= i <= items@.len(),
            vals == values_model(items@),
            vals.len() == items@.len(),
            forall|j: int| 0 <= j < items@.len() ==> #[trigger] vals[j] == items@[j].model(),
            f == native_of_op(op),
            arith_fold(op, vals.take(i as int)) == Ok::<i32, NativeFnError>(acc),
        decreases items@.len() - i,
    {
        assert(vals.take(i + 1).drop_last() =~= vals.take(i as int));
        let x = match operand_of(f, &items[i], i + 1) {
            Ok(x) => x,
            Err(e) => {
                proof {
                    lemma_fold_prefix_err(op, vals, i + 1);
                }
                return Err(InterpreterError::NativeError(e));
            },
        };
        match op.apply(acc, x) {
            Ok(v) => {
                acc = v;
            },
            Err(e) => {
                proof {
                    lemma_fold_prefix_err(op, vals, i + 1);
                }
                return Err(InterpreterError::NativeError(e));
            },
        }
        i = i + 1;
    }
    assert(vals.take(i as int) =~= vals);
    Ok(Any::Primitive(DataType::Integer(acc)))
}

/// An error on a prefix is the error of the whole fold.
proof fn lemma_fold_prefix_err(op: ComparisonOperator, vals: Seq<Value>, k: int)
    requires
        1 <= k <= vals.len(),
        arith_fold(op, vals.take(k)) is Err,
    ensures
        arith_fold(op, vals) == arith_fold(op, vals.take(k)),
    decreases vals.len() - k,
{
    if k < vals.len() {
        assert(vals.take(k + 1).drop_last() =~= vals.take(k));
        lemma_fold_prefix_err(op, vals, k + 1);
    } else {
        assert(vals.take(k) =~= vals);
    }
}

} // verus!

verus! {

/// The comparison predicates.
#[derive(Debug, Clone, Copy, PartialEq, Eq)]
pub enum Comparison {
    Eq,
    Gt,
    Lt,
    Ge,
    Le,
}

pub open spec fn native_of_cmp(c: Comparison) -> Native {
    match c {
        Comparison::Eq => Native::Eq,
        Comparison::Gt => Native::Gt,
        Comparison::Lt => Native::Lt,
        Comparison::Ge => Native::Ge,
        Comparison::Le => Native::Le,
    }
}

pub open spec fn holds(c: Comparison, a: i32, b: i32) -> bool {
    match c {
        Comparison::Eq => a == b,
        Comparison::Gt => a > b,
        Comparison::Lt => a < b,
        Comparison::Ge => a >= b,
        Comparison::Le => a <= b,
    }
}

/// A comparable operand: an integer, or a number that compares to nothing
/// (rational, complex); anything else is an error.
pub open spec fn comparable(f: Native, v: Value, position: int) -> Result<Option<i32>, NativeFnError> {
    match v {
        Value::Prim(Lit::Int(i)) => Ok(Some(i)),
        Value::Prim(Lit::Rational(_)) => Ok(None),
        Value::Prim(Lit::Complex(_)) => Ok(None),
        _ => Err(NativeFnError::UnexpectedType {
            function: f,
            argument_position: position as usize,
            got: kind_of(v),
            expected: Kind::Number,
        }),
    }
}

/// Whether `c` holds of each adjacent pair from position `i` on; the first
/// pair that fails ends the walk, so later operands are not looked at.
pub open spec fn compare_from(c: Comparison, vals: Seq<Value>, i: int) -> Result<bool, NativeFnError>
    decreases vals.len() - i,
{
    if i < 0 || i + 1 >= vals.len() {
        Ok(true)
    } else {
        let f = native_of_cmp(c);
        match comparable(f, vals[i], i + 1) {
            Err(e) => Err(e),
            Ok(a) => match comparable(f, vals[i + 1], i + 2) {
                Err(e) => Err(e),
                Ok(b) => match (a, b) {
                    (Some(x), Some(y)) => if holds(c, x, y) {
                        compare_from(c, vals, i + 1)
                    } else {
                        Ok(false)
                    },
                    _ => Ok(false),
                },
            },
        }
    }
}

fn comparable_of(f: Native, v: &Any, position: usize) -> (r: Result<Option<i32>, NativeFnError>)
    ensures
        r == comparable(f, v.model(), position as int),
{
    match v {
        Any::Primitive(DataType::Integer(i)) => Ok(Some(*i)),
        Any::Primitive(DataType::Rational(_)) => Ok(None),
        Any::Primitive(DataType::Complex(_)) => Ok(None),
        _ => Err(NativeFnError::UnexpectedType {
            function: f,
            argument_position: position,
            got: Any::kind(v),
            expected: Kind::Number,
        }),
    }
}

impl Comparison {
    pub fn native(self) -> (r: Native)
        ensures
            r == native_of_cmp(self),
    {
        match self {
            Comparison::Eq => Native::Eq,
            Comparison::Gt => Native::Gt,
            Comparison::Lt => Native::Lt,
            Comparison::Ge => Native::Ge,
            Comparison::Le => Native::Le,
        }
    }

    pub fn test(self, a: i32, b: i32) -> (r: bool)
        ensures
            r == holds(self, a, b),
    {
        match self {
            Comparison::Eq => a == b,
            Comparison::Gt => a > b,
            Comparison::Lt => a < b,
            Comparison::Ge => a >= b,
            Comparison::Le => a <= b,
        }
    }
}

/// Checks `c` over each adjacent pair of evaluated operands.
pub fn with_comparable_window2(c: Comparison, items: &Vec<Any>) -> (r: Result<Any, InterpreterError>)
    ensures
        match compare_from(c, values_model(items@), 0) {
            Ok(b) => r == Ok::<Any, InterpreterError>(Any::Primitive(DataType::Boolean(b))),
            Err(e) => r == Err::<Any, InterpreterError>(InterpreterError::NativeError(e)),
        },
{
    proof {
        lemma_values_model_index(items@);
    }
    let ghost vals = values_model(items@);
    let f = c.native();
    let mut i: usize = 0;
    while i < items.len() && i + 1 < items.len()
        invariant
            i <= items@.len(),
            vals == values_model(items@),
            vals.len() == items@.len(),
            forall|j: int| 0 <= j < items@.len() ==> #[trigger] vals[j] == items@[j].model(),
            f == native_of_cmp(c),
            compare_from(c, vals, 0) == compare_from(c, vals, i as int),
        decreases items@.len() - i,
    {
        let a = match comparable_of(f, &items[i], i + 1) {
            Ok(a) => a,
            Err(e) => {
                return Err(InterpreterError::NativeError(e));
            },
        };
        let b = match comparable_of(f, &items[i + 1], i + 2) {
            Ok(b) => b,
            Err(e) => {
                return Err(InterpreterError::NativeError(e));
            },
        };
        match (a, b) {
            (Some(x), Some(y)) => {
                if !c.test(x, y) {
                    return Ok(Any::Primitive(DataType::Boolean(false)));
                }
            },
            _ => {
                return Ok(Any::Primitive(DataType::Boolean(false)));
            },
        }
        i = i + 1;
    }
    Ok(Any::Primitive(DataType::Boolean(true)))
}

} // verus!
