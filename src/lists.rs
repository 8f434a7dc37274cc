//! List operations on evaluated operands.
use vstd::prelude::*;
use crate::convert::value_of_expr;
use crate::data_types::{DataType, Lit};
use crate::error::{InterpreterError, Kind, Native, NativeFnError, kind_of};
use crate::expr::{Expr, ExprModel, exprs_model, lemma_exprs_model_index};
use crate::value::{Any, Composed, List, Pair, Value, values_model, lemma_values_model_index};

verus! {

/// The elements of a quoted call tree: its operator, if any, then its operands.
pub open spec fn tree_elements(node: Option<Box<ExprModel>>, children: Seq<ExprModel>) -> Seq<ExprModel> {
    match node {
        Some(n) => seq![*n] + children,
        None => children,
    }
}

/// The elements of a value seen as a list: a list value, or a quoted tree
/// whose elements are read as data (literals self-evaluate).
pub open spec fn list_items(v: Value) -> Option<Seq<Value>> {
    match v {
        Value::List(items) => Some(items),
        Value::Expr(ExprModel::Quoted(q)) => match *q {
            ExprModel::Paren(n, cs) => Some(
                tree_elements(n, cs).map_values(|e: ExprModel| value_of_expr(e)),
            ),
            _ => None,
        },
        _ => None,
    }
}

/// The error for an operand at 1-based `position` that is not of kind `expected`.
pub open spec fn unexpected(f: Native, position: int, got: Value, expected: Kind) -> InterpreterError {
    InterpreterError::NativeError(NativeFnError::UnexpectedType {
        function: f,
        argument_position: position as usize,
        got: kind_of(got),
        expected,
    })
}

/// The elements of an evaluated operand that must be a list.
pub fn require_list(v: &Any, f: Native, position: usize) -> (r: Result<Vec<Any>, InterpreterError>)
    ensures
        match list_items(v.model()) {
            Some(s) => r is Ok && values_model(r->Ok_0@) == s,
            None => r == Err::<Vec<Any>, InterpreterError>(unexpected(f, position as int, v.model(), Kind::List)),
        },
{
    match v {
        Any::Composed(c) => match &**c {
            Composed::List(l) => {
                return Ok(crate::value::copy_values(&l.0));
            },
            _ => {},
        },
        Any::Expression(Expr::RawQuoted(q)) => match &**q {
            Expr::Parenthesized(t) => {
                let mut out: Vec<Any> = Vec::new();
                let ghost elems = tree_elements(t.node_model(), exprs_model(t.children@));
                proof {
                    lemma_exprs_model_index(t.children@);
                }
                let mut offset: usize = 0;
                assert(q.model() == ExprModel::Paren(t.node_model(), exprs_model(t.children@)));
                assert(v.model() == Value::Expr(ExprModel::Quoted(Box::new(
                    ExprModel::Paren(t.node_model(), exprs_model(t.children@))))));
                match &t.node {
                    Some(n) => {
                        assert(elems[0] == n.model());
                        out.push(Any::from_expr((**n).make_static()));
                        offset = 1;
                    },
                    None => {},
                }
                let mut i: usize = 0;
                while i < t.children.len()
                    invariant
                        i <= t.children@.len(),
                        elems == tree_elements(t.node_model(), exprs_model(t.children@)),
                        offset == (if t.node is Some { 1int } else { 0int }),
                        elems.len() == t.children@.len() + offset,
                        out@.len() == i + offset,
                        exprs_model(t.children@).len() == t.children@.len(),
                        forall|j: int| 0 <= j < t.children@.len()
                            ==> #[trigger] exprs_model(t.children@)[j] == t.children@[j].model(),
                        forall|j: int| 0 <= j < out@.len()
                            ==> #[trigger] out@[j].model() == value_of_expr(elems[j]),
                    decreases t.children@.len() - i,
                {
                    assert(elems[i + offset] == t.children@[i as int].model());
                    out.push(Any::from_expr(t.children[i].make_static()));
                    i = i + 1;
                }
                proof {
                    lemma_values_model_index(out@);
                    assert(values_model(out@) =~= elems.map_values(|e: ExprModel| value_of_expr(e)));
                }
                return Ok(out);
            },
            _ => {
                assert(!(q.model() is Paren));
            },
        },
        _ => {},
    }
    Err(InterpreterError::NativeError(NativeFnError::UnexpectedType {
        function: f,
        argument_position: position,
        got: Any::kind(v),
        expected: Kind::List,
    }))
}

/// A list value of the given elements.
pub fn list_value(items: Vec<Any>) -> (r: Any)
    ensures
        r.model() == Value::List(values_model(items@)),
{
    Any::Composed(Box::new(Composed::List(List(items))))
}

/// The index held by an evaluated operand that must be a non-negative integer.
pub fn non_negative_int(v: &Any, f: Native, position: usize) -> (r: Result<usize, InterpreterError>)
    ensures
        match v.model() {
            Value::Prim(Lit::Int(i)) if i >= 0 => r == Ok::<usize, InterpreterError>(i as usize),
            _ => r == Err::<usize, InterpreterError>(
                unexpected(f, position as int, v.model(), Kind::NonNegativeInteger)),
        },
{
    match v {
        Any::Primitive(DataType::Integer(i)) => {
            if *i >= 0 {
                return Ok(*i as usize);
            }
        },
        _ => {},
    }
    Err(InterpreterError::NativeError(NativeFnError::UnexpectedType {
        function: f,
        argument_position: position,
        got: Any::kind(v),
        expected: Kind::NonNegativeInteger,
    }))
}

/// The number of elements, as an integer value.
pub fn length_of(items: &Vec<Any>) -> (r: Result<Any, InterpreterError>)
    ensures
        items@.len() <= i32::MAX ==> r == Ok::<Any, InterpreterError>(
            Any::Primitive(DataType::Integer(items@.len() as i32))),
        items@.len() > i32::MAX ==> r == Err::<Any, InterpreterError>(
            InterpreterError::NativeError(NativeFnError::Overflow)),
{
    if items.len() <= 0x7fff_ffff {
        Ok(Any::Primitive(DataType::Integer(items.len() as i32)))
    } else {
        Err(InterpreterError::NativeError(NativeFnError::Overflow))
    }
}

/// The element at `index`.
pub fn list_ref_of(items: Vec<Any>, index: usize) -> (r: Result<Any, InterpreterError>)
    ensures
        index < items@.len() ==> r is Ok && r->Ok_0.model() == values_model(items@)[index as int],
        index >= items@.len() ==> r == Err::<Any, InterpreterError>(
            InterpreterError::OutOfBounds { length: items@.len() as usize, got: index }),
{
    proof {
        lemma_values_model_index(items@);
    }
    let length = items.len();
    if index < length {
        let mut items = items;
        Ok(items.remove(index))
    } else {
        Err(InterpreterError::OutOfBounds { length, got: index })
    }
}

/// The elements after the first `index`.
pub fn list_tail_of(items: Vec<Any>, index: usize) -> (r: Result<Vec<Any>, InterpreterError>)
    ensures
        index <= items@.len() ==> r is Ok
            && values_model(r->Ok_0@) == values_model(items@).skip(index as int),
        index > items@.len() ==> r == Err::<Vec<Any>, InterpreterError>(
            InterpreterError::OutOfBounds { length: items@.len() as usize, got: index }),
{
    let length = items.len();
    if index <= length {
        let ghost orig = items@;
        let mut items = items;
        let tail = items.split_off(index);
        proof {
            lemma_values_model_index(tail@);
            lemma_values_model_index(orig);
            assert(values_model(tail@) =~= values_model(orig).skip(index as int));
        }
        Ok(tail)
    } else {
        Err(InterpreterError::OutOfBounds { length, got: index })
    }
}

/// `first` followed by `rest`.
pub fn append_of(first: Vec<Any>, rest: Vec<Any>) -> (r: Vec<Any>)
    ensures
        values_model(r@) == values_model(first@) + values_model(rest@),
{
    let mut first = first;
    let mut rest = rest;
    let ghost a = first@;
    let ghost b = rest@;
    first.append(&mut rest);
    proof {
        lemma_values_model_index(a);
        lemma_values_model_index(b);
        lemma_values_model_index(first@);
        assert(values_model(first@) =~= values_model(a) + values_model(b));
    }
    first
}

/// The elements in reverse order.
pub fn reverse_of(items: Vec<Any>) -> (r: Vec<Any>)
    ensures
        values_model(r@) == values_model(items@).reverse(),
{
    let ghost orig = items@;
    let mut items = items;
    let mut out: Vec<Any> = Vec::with_capacity(items.len());
    while items.len() > 0
        invariant
            items@.len() + out@.len() == orig.len(),
            items@ == orig.take(items@.len() as int),
            forall|j: int| 0 <= j < out@.len() ==> #[trigger] out@[j] == orig[orig.len() - 1 - j],
        decreases items@.len(),
    {
        let x = items.pop().unwrap();
        out.push(x);
        assert(items@ =~= orig.take(items@.len() as int));
    }
    proof {
        lemma_values_model_index(orig);
        lemma_values_model_index(out@);
        assert(values_model(out@) =~= values_model(orig).reverse());
    }
    out
}

/// The pair of two values.
pub fn cons_of(left: Any, right: Any) -> (r: Any)
    ensures
        r.model() == Value::Pair(Box::new(left.model()), Box::new(right.model())),
{
    Any::Composed(Box::new(Composed::Pair(Pair { left, right })))
}

} // verus!
