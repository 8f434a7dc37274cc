//! What evaluation computes: a spec-level evaluator, step for step the
//! meaning of `Context::eval` and of each built-in.
use vstd::prelude::*;
use crate::body::{param_map, subst_all};
use crate::context::{function_of, lookup};
use crate::convert::{term_of_value, value_of_term};
use crate::data_types::Lit;
use crate::error::{InterpreterError, Kind, Native, NativeFnError, kind_of};
use crate::function::{defined_function, lambda_model};
use crate::lists::{list_items, unexpected};
use crate::native::{native_of, term_kind, truthy};
use crate::ops::{Comparison, ComparisonOperator, arith_fold, compare_from};
use crate::strings::{char_values, join_chars, repeat};
use crate::value::{Any, FnModel, Term, Value};

verus! {

/// Model of an error: names are sequences of characters.
pub enum ErrorModel {
    UndefinedFunction(Seq<char>),
    UnknownIdentifier(Seq<char>),
    Other(InterpreterError),
}

pub type Outcome = Result<Value, ErrorModel>;

pub type Env = Map<Seq<char>, Value>;

pub open spec fn err_model(e: InterpreterError) -> ErrorModel {
    match e {
        InterpreterError::UndefinedFunction(s) => ErrorModel::UndefinedFunction(s@),
        InterpreterError::UnknownIdentifier(s) => ErrorModel::UnknownIdentifier(s@),
        _ => ErrorModel::Other(e),
    }
}

/// The model of an evaluation result.
pub open spec fn outcome(r: Result<Any, InterpreterError>) -> Outcome {
    match r {
        Ok(a) => Ok(a.model()),
        Err(e) => Err(err_model(e)),
    }
}

pub open spec fn fail(e: InterpreterError) -> Outcome {
    Err(ErrorModel::Other(e))
}

pub open spec fn native_fail(e: NativeFnError) -> Outcome {
    Err(ErrorModel::Other(InterpreterError::NativeError(e)))
}

pub open spec fn arity(expected: usize, got: int) -> Outcome {
    native_fail(NativeFnError::ArityMismatch { expected, got: got as usize })
}

/// Model of a function that can be applied to values.
pub enum CallableModel {
    Fn(FnModel),
    Native(Native),
}

pub open spec fn callable_arity(c: CallableModel) -> Option<nat> {
    match c {
        CallableModel::Fn(m) => m.arity,
        CallableModel::Native(_) => None,
    }
}

/// What a function argument of `map`, `filter` or a fold stands for.
pub open spec fn sem_callable(l: Env, g: Env, t: Term, f: Native, pos: usize) -> Result<CallableModel, ErrorModel> {
    match t {
        Term::Ident(s) => match native_of(s) {
            Some(k) => Ok(CallableModel::Native(k)),
            None => match function_of(lookup(l, g, s)) {
                Some(m) => Ok(CallableModel::Fn(m)),
                None => Err(ErrorModel::UndefinedFunction(s)),
            },
        },
        Term::Composed(Value::Func(m)) => Ok(CallableModel::Fn(m)),
        Term::Composed(Value::Lambda(m)) => Ok(CallableModel::Fn(m)),
        Term::Tree(n, cs) => match lambda_model(Seq::empty(), n, cs) {
            Some(m) => Ok(CallableModel::Fn(m)),
            None => Err(ErrorModel::Other(crate::function::invalid_function())),
        },
        _ => Err(ErrorModel::Other(InterpreterError::NativeError(NativeFnError::UnexpectedType {
            function: f,
            argument_position: pos,
            got: term_kind(t),
            expected: Kind::Callable,
        }))),
    }
}

/// The elements of an argument value that must be a list.
pub open spec fn list_arg(f: Native, pos: int, v: Value) -> Result<Seq<Value>, ErrorModel> {
    match list_items(v) {
        Some(s) => Ok(s),
        None => Err(ErrorModel::Other(unexpected(f, pos, v, Kind::List))),
    }
}

/// The text of an argument value that must be a string.
pub open spec fn str_arg(f: Native, pos: int, v: Value) -> Result<Seq<char>, ErrorModel> {
    match v {
        Value::Prim(Lit::Str(s)) => Ok(s),
        _ => Err(ErrorModel::Other(unexpected(f, pos, v, Kind::String))),
    }
}

/// The index held by an argument value that must be a non-negative integer.
pub open spec fn index_arg(f: Native, pos: int, v: Value) -> Result<usize, ErrorModel> {
    match v {
        Value::Prim(Lit::Int(i)) => if i >= 0 {
            Ok(i as usize)
        } else {
            Err(ErrorModel::Other(unexpected(f, pos, v, Kind::NonNegativeInteger)))
        },
        _ => Err(ErrorModel::Other(unexpected(f, pos, v, Kind::NonNegativeInteger))),
    }
}

/// `Ok(p + rest)`, or the error of `rest`.
pub open spec fn prepend<A>(p: Seq<A>, rest: Result<Seq<A>, ErrorModel>) -> Result<Seq<A>, ErrorModel> {
    match rest {
        Ok(s) => Ok(p + s),
        Err(e) => Err(e),
    }
}

/// The binding that evaluating `t` adds to the table its context writes:
/// only a successful `define` form adds one.
pub open spec fn sem_binding(f: nat, l: Env, g: Env, t: Term) -> Option<(Seq<char>, Value)>
    decreases f, 2nat, 0nat,
{
    match t {
        Term::Tree(Some(n), cs) => match *n {
            Term::Ident(s) => if f > 0 && native_of(s) == Some(Native::Define) {
                sem_define((f - 1) as nat, l, g, cs).1
            } else {
                None
            },
            _ => None,
        },
        _ => None,
    }
}

/// `l` with the binding added, if any.
pub open spec fn with_binding(l: Env, b: Option<(Seq<char>, Value)>) -> Env {
    match b {
        Some(p) => l.insert(p.0, p.1),
        None => l,
    }
}

/// The value of a term in a context with local table `l` and global table `g`.
pub open spec fn sem_eval(f: nat, l: Env, g: Env, t: Term) -> Outcome
    decreases f, 1nat, 0nat,
{
    match t {
        Term::Tree(n, cs) => sem_tree(f, l, g, n, cs),
        Term::Ident(s) => match lookup(l, g, s) {
            Some(v) => Ok(v),
            None => Err(ErrorModel::UnknownIdentifier(s)),
        },
        _ => match value_of_term(t) {
            Some(v) => Ok(v),
            None => fail(InterpreterError::InvalidExpression),
        },
    }
}

/// The value of a call tree: its node names a built-in, which gets the
/// unevaluated children, or a declared function.
pub open spec fn sem_tree(f: nat, l: Env, g: Env, n: Option<Box<Term>>, cs: Seq<Term>) -> Outcome
    decreases f, 0nat, 0nat,
{
    match n {
        None => fail(InterpreterError::MissingTreeNode),
        Some(b) => match *b {
            Term::Ident(s) => if f == 0 {
                fail(InterpreterError::RecursionLimit)
            } else {
                match native_of(s) {
                    Some(k) => sem_native((f - 1) as nat, l, g, k, cs),
                    None => sem_declared((f - 1) as nat, l, g, s, cs),
                }
            },
            other => match value_of_term(other) {
                Some(v) => Ok(v),
                None => fail(InterpreterError::InvalidExpression),
            },
        },
    }
}

/// The values of the terms from position `i` on, each evaluated in a child
/// context, left to right; the first error wins.
pub open spec fn sem_args(f: nat, l: Env, g: Env, ts: Seq<Term>, i: int) -> Result<Seq<Value>, ErrorModel>
    decreases f, 2nat, ts.len() - i,
{
    if i < 0 || i >= ts.len() {
        Ok(Seq::empty())
    } else {
        match sem_eval(f, l, g, ts[i]) {
            Err(e) => Err(e),
            Ok(v) => prepend(seq![v], sem_args(f, l, g, ts, i + 1)),
        }
    }
}

/// A call of the declared function named `s`: its arity is checked before
/// anything is evaluated, then the arguments are evaluated and the function applied.
pub open spec fn sem_declared(f: nat, l: Env, g: Env, s: Seq<char>, cs: Seq<Term>) -> Outcome
    decreases f, 4nat, 0nat,
{
    match function_of(lookup(l, g, s)) {
        None => Err(ErrorModel::UndefinedFunction(s)),
        Some(m) => if m.arity is Some && m.arity.unwrap() != cs.len() {
            fail(InterpreterError::DeclaredFnError(crate::error::DeclaredFunctionError::ArityMismatch {
                expected: m.arity.unwrap() as usize,
                got: cs.len() as usize,
            }))
        } else {
            match sem_args(f, l, g, cs, 0) {
                Err(e) => Err(e),
                Ok(vs) => sem_call(f, l, g, CallableModel::Fn(m), vs),
            }
        },
    }
}

/// A function applied to values in a child context.
pub open spec fn sem_call(f: nat, l: Env, g: Env, c: CallableModel, vals: Seq<Value>) -> Outcome
    decreases f, 3nat, 0nat,
{
    if callable_arity(c) is Some && callable_arity(c).unwrap() != vals.len() {
        fail(InterpreterError::DeclaredFnError(crate::error::DeclaredFunctionError::ArityMismatch {
            expected: callable_arity(c).unwrap() as usize,
            got: vals.len() as usize,
        }))
    } else {
        match c {
            CallableModel::Fn(m) => sem_body(f, l, g, subst_all(m.body, param_map(m.params, vals)), 0, Value::Void),
            CallableModel::Native(k) => if f == 0 {
                fail(InterpreterError::RecursionLimit)
            } else {
                sem_native((f - 1) as nat, l, g, k, vals.map_values(|v: Value| term_of_value(v)))
            },
        }
    }
}

/// The body terms from position `i` on, evaluated in order in one child
/// context whose local bindings each `define` extends; the value of the last.
pub open spec fn sem_body(f: nat, l: Env, g: Env, ts: Seq<Term>, i: int, last: Value) -> Outcome
    decreases f, 2nat, ts.len() - i,
{
    if i < 0 || i >= ts.len() {
        Ok(last)
    } else {
        match sem_eval(f, l, g, ts[i]) {
            Err(e) => Err(e),
            Ok(v) => sem_body(f, with_binding(l, sem_binding(f, l, g, ts[i])), g, ts, i + 1, v),
        }
    }
}

/// `(define ...)`: its outcome, and the binding it adds on success.
pub open spec fn sem_define(f: nat, l: Env, g: Env, cs: Seq<Term>) -> (Outcome, Option<(Seq<char>, Value)>)
    decreases f, 5nat, 0nat,
{
    if cs.len() < 2 {
        (arity(2, cs.len() as int), None)
    } else {
        match cs[0] {
            Term::Ident(name) => if cs.len() != 2 {
                (arity(2, cs.len() as int), None)
            } else {
                match cs[1] {
                    Term::Tree(n, ccs) if crate::native::is_lambda_form(cs[1]) => match lambda_model(name, n, ccs) {
                        Some(m) => (Ok(Value::Void), Some((name, Value::Func(m)))),
                        None => (fail(crate::function::invalid_function()), None),
                    },
                    _ => match sem_eval(f, l, g, cs[1]) {
                        Ok(v) => (Ok(Value::Void), Some((name, v))),
                        Err(e) => (Err(e), None),
                    },
                }
            },
            Term::Tree(n, ccs) => match defined_function(n, ccs, cs.skip(1)) {
                Some(m) => (Ok(Value::Void), Some((m.name, Value::Func(m)))),
                None => (fail(crate::function::invalid_function()), None),
            },
            _ => (native_fail(NativeFnError::IdentifierExpectedIn { call: Native::Define }), None),
        }
    }
}

/// A built-in applied to unevaluated arguments.
pub open spec fn sem_native(f: nat, l: Env, g: Env, k: Native, cs: Seq<Term>) -> Outcome
    decreases f, 6nat, 0nat,
{
    match k {
        Native::Define => sem_define(f, l, g, cs).0,
        Native::Exit => fail(InterpreterError::Exit),
        Native::Cons => sem_cons(f, l, g, cs),
        Native::List => sem_list(f, l, g, cs),
        Native::Eq => sem_compare(f, l, g, cs, Comparison::Eq),
        Native::Gt => sem_compare(f, l, g, cs, Comparison::Gt),
        Native::Lt => sem_compare(f, l, g, cs, Comparison::Lt),
        Native::Ge => sem_compare(f, l, g, cs, Comparison::Ge),
        Native::Le => sem_compare(f, l, g, cs, Comparison::Le),
        Native::Add => sem_math(f, l, g, cs, ComparisonOperator::Add),
        Native::Sub => sem_math(f, l, g, cs, ComparisonOperator::Sub),
        Native::Mul => sem_math(f, l, g, cs, ComparisonOperator::Mul),
        Native::Div => sem_math(f, l, g, cs, ComparisonOperator::Div),
        Native::MapList => sem_map(f, l, g, cs),
        Native::Foldr => sem_fold(f, l, g, cs, true),
        Native::Foldl => sem_fold(f, l, g, cs, false),
        Native::Filter => sem_filter(f, l, g, cs),
        Native::Length => sem_length(f, l, g, cs),
        Native::ListRef => sem_list_ref(f, l, g, cs),
        Native::ListTail => sem_list_tail(f, l, g, cs),
        Native::Append => sem_append(f, l, g, cs),
        Native::Reverse => sem_reverse(f, l, g, cs),
        Native::If => sem_if(f, l, g, cs),
        Native::Cond => sem_cond(f, l, g, cs),
        Native::And => sem_and(f, l, g, cs, 0, Value::Prim(Lit::Bool(true))),
        Native::Or => sem_or(f, l, g, cs, 0),
        Native::Not => sem_not(f, l, g, cs),
        Native::Xor => sem_xor(f, l, g, cs),
        Native::IsString => sem_is_string(f, l, g, cs),
        Native::StringAppend => sem_string_append(f, l, g, cs),
        Native::StringLength => sem_string_length(f, l, g, cs),
        Native::StringRef => sem_string_ref(f, l, g, cs),
        Native::Substring => sem_substring(f, l, g, cs),
        Native::MakeString => sem_make_string(f, l, g, cs),
        Native::StringToList => sem_string_to_list(f, l, g, cs),
        Native::ListToString => sem_list_to_string(f, l, g, cs),
    }
}

/// The values of top-level forms from position `i` on, each evaluated in a
/// root context; a `define` among them binds in the global table.
pub open spec fn sem_run(f: nat, g: Env, es: Seq<crate::expr::ExprModel>, i: int) -> Result<Seq<Value>, ErrorModel>
    decreases es.len() - i,
{
    if i < 0 || i >= es.len() {
        Ok(Seq::empty())
    } else {
        let t = crate::convert::term_of_expr(es[i]);
        match sem_eval(f, Map::empty(), g, t) {
            Err(e) => Err(e),
            Ok(v) => prepend(seq![v], sem_run(f, with_binding(g, sem_binding(f, Map::empty(), g, t)), es, i + 1)),
        }
    }
}

pub open spec fn sem_cons(f: nat, l: Env, g: Env, cs: Seq<Term>) -> Outcome
    decreases f, 5nat, 0nat,
{
    if cs.len() != 2 {
        arity(2, cs.len() as int)
    } else {
        match sem_eval(f, l, g, cs[0]) {
            Err(e) => Err(e),
            Ok(a) => match sem_eval(f, l, g, cs[1]) {
                Err(e) => Err(e),
                Ok(b) => Ok(Value::Pair(Box::new(a), Box::new(b))),
            },
        }
    }
}

pub open spec fn sem_list(f: nat, l: Env, g: Env, cs: Seq<Term>) -> Outcome
    decreases f, 5nat, 0nat,
{
    match sem_args(f, l, g, cs, 0) {
        Err(e) => Err(e),
        Ok(vs) => Ok(Value::List(vs)),
    }
}

pub open spec fn sem_compare(f: nat, l: Env, g: Env, cs: Seq<Term>, c: Comparison) -> Outcome
    decreases f, 5nat, 0nat,
{
    if cs.len() < 2 {
        arity(2, cs.len() as int)
    } else {
        match sem_args(f, l, g, cs, 0) {
            Err(e) => Err(e),
            Ok(vs) => match compare_from(c, vs, 0) {
                Ok(b) => Ok(Value::Prim(Lit::Bool(b))),
                Err(e) => native_fail(e),
            },
        }
    }
}

pub open spec fn sem_math(f: nat, l: Env, g: Env, cs: Seq<Term>, op: ComparisonOperator) -> Outcome
    decreases f, 5nat, 0nat,
{
    if cs.len() < 2 {
        arity(2, cs.len() as int)
    } else {
        match sem_args(f, l, g, cs, 0) {
            Err(e) => Err(e),
            Ok(vs) => match arith_fold(op, vs) {
                Ok(i) => Ok(Value::Prim(Lit::Int(i))),
                Err(e) => native_fail(e),
            },
        }
    }
}

/// `c` applied to each of `items` from position `i` on, in order.
pub open spec fn sem_map_from(f: nat, l: Env, g: Env, c: CallableModel, items: Seq<Value>, i: int) -> Result<Seq<Value>, ErrorModel>
    decreases f, 4nat, items.len() - i,
{
    if i < 0 || i >= items.len() {
        Ok(Seq::empty())
    } else {
        match sem_call(f, l, g, c, seq![items[i]]) {
            Err(e) => Err(e),
            Ok(v) => prepend(seq![v], sem_map_from(f, l, g, c, items, i + 1)),
        }
    }
}

pub open spec fn sem_map(f: nat, l: Env, g: Env, cs: Seq<Term>) -> Outcome
    decreases f, 5nat, 0nat,
{
    if cs.len() != 2 {
        arity(2, cs.len() as int)
    } else {
        match sem_eval(f, l, g, cs[1]) {
            Err(e) => Err(e),
            Ok(v) => match list_arg(Native::MapList, 2, v) {
                Err(e) => Err(e),
                Ok(items) => match sem_callable(l, g, cs[0], Native::MapList, 1) {
                    Err(e) => Err(e),
                    Ok(c) => match sem_map_from(f, l, g, c, items, 0) {
                        Err(e) => Err(e),
                        Ok(rs) => Ok(Value::List(rs)),
                    },
                },
            },
        }
    }
}

/// The items from position `i` on for which `c` gives `#t`; a result that is
/// not a boolean is an error.
pub open spec fn sem_filter_from(f: nat, l: Env, g: Env, c: CallableModel, items: Seq<Value>, i: int) -> Result<Seq<Value>, ErrorModel>
    decreases f, 4nat, items.len() - i,
{
    if i < 0 || i >= items.len() {
        Ok(Seq::empty())
    } else {
        match sem_call(f, l, g, c, seq![items[i]]) {
            Err(e) => Err(e),
            Ok(Value::Prim(Lit::Bool(b))) => prepend(
                if b { seq![items[i]] } else { Seq::empty() },
                sem_filter_from(f, l, g, c, items, i + 1),
            ),
            Ok(other) => Err(ErrorModel::Other(InterpreterError::NativeError(
                NativeFnError::InvalidType { got: kind_of(other) }))),
        }
    }
}

pub open spec fn sem_filter(f: nat, l: Env, g: Env, cs: Seq<Term>) -> Outcome
    decreases f, 5nat, 0nat,
{
    if cs.len() != 2 {
        arity(2, cs.len() as int)
    } else {
        match sem_callable(l, g, cs[0], Native::Filter, 1) {
            Err(e) => Err(e),
            Ok(c) => match sem_eval(f, l, g, cs[1]) {
                Err(e) => Err(e),
                Ok(v) => match list_arg(Native::Filter, 2, v) {
                    Err(e) => Err(e),
                    Ok(items) => match sem_filter_from(f, l, g, c, items, 0) {
                        Err(e) => Err(e),
                        Ok(rs) => Ok(Value::List(rs)),
                    },
                },
            },
        }
    }
}

/// The accumulator after `c` is applied to it and each item from step `i`
/// on: items in order, or from the last when `rev`.
pub open spec fn sem_fold_from(f: nat, l: Env, g: Env, c: CallableModel, acc: Value, items: Seq<Value>, i: int, rev: bool) -> Outcome
    decreases f, 4nat, items.len() - i,
{
    if i < 0 || i >= items.len() {
        Ok(acc)
    } else {
        let k = if rev { items.len() - 1 - i } else { i };
        match sem_call(f, l, g, c, seq![acc, items[k]]) {
            Err(e) => Err(e),
            Ok(v) => sem_fold_from(f, l, g, c, v, items, i + 1, rev),
        }
    }
}

pub open spec fn sem_fold(f: nat, l: Env, g: Env, cs: Seq<Term>, rev: bool) -> Outcome
    decreases f, 5nat, 0nat,
{
    let name = if rev { Native::Foldr } else { Native::Foldl };
    if cs.len() != 3 {
        arity(3, cs.len() as int)
    } else {
        match sem_eval(f, l, g, cs[1]) {
            Err(e) => Err(e),
            Ok(init) => match sem_eval(f, l, g, cs[2]) {
                Err(e) => Err(e),
                Ok(v) => match list_arg(name, 3, v) {
                    Err(e) => Err(e),
                    Ok(items) => match sem_callable(l, g, cs[0], name, 1) {
                        Err(e) => Err(e),
                        Ok(c) => if callable_arity(c) is Some && callable_arity(c).unwrap() != 2 {
                            native_fail(NativeFnError::ArityMismatch { expected: 2, got: callable_arity(c).unwrap() as usize })
                        } else {
                            sem_fold_from(f, l, g, c, init, items, 0, rev)
                        },
                    },
                },
            },
        }
    }
}

pub open spec fn sem_length(f: nat, l: Env, g: Env, cs: Seq<Term>) -> Outcome
    decreases f, 5nat, 0nat,
{
    if cs.len() != 1 {
        arity(1, cs.len() as int)
    } else {
        match sem_eval(f, l, g, cs[0]) {
            Err(e) => Err(e),
            Ok(v) => match list_arg(Native::Length, 1, v) {
                Err(e) => Err(e),
                Ok(s) => if s.len() <= i32::MAX {
                    Ok(Value::Prim(Lit::Int(s.len() as i32)))
                } else {
                    native_fail(NativeFnError::Overflow)
                },
            },
        }
    }
}

pub open spec fn sem_list_ref(f: nat, l: Env, g: Env, cs: Seq<Term>) -> Outcome
    decreases f, 5nat, 0nat,
{
    if cs.len() != 2 {
        arity(2, cs.len() as int)
    } else {
        match sem_eval(f, l, g, cs[0]) {
            Err(e) => Err(e),
            Ok(v) => match list_arg(Native::ListRef, 1, v) {
                Err(e) => Err(e),
                Ok(s) => match sem_eval(f, l, g, cs[1]) {
                    Err(e) => Err(e),
                    Ok(iv) => match index_arg(Native::ListRef, 2, iv) {
                        Err(e) => Err(e),
                        Ok(k) => if k < s.len() {
                            Ok(s[k as int])
                        } else {
                            fail(InterpreterError::OutOfBounds { length: s.len() as usize, got: k })
                        },
                    },
                },
            },
        }
    }
}

pub open spec fn sem_list_tail(f: nat, l: Env, g: Env, cs: Seq<Term>) -> Outcome
    decreases f, 5nat, 0nat,
{
    if cs.len() != 2 {
        arity(2, cs.len() as int)
    } else {
        match sem_eval(f, l, g, cs[0]) {
            Err(e) => Err(e),
            Ok(v) => match list_arg(Native::ListTail, 1, v) {
                Err(e) => Err(e),
                Ok(s) => match sem_eval(f, l, g, cs[1]) {
                    Err(e) => Err(e),
                    Ok(iv) => match index_arg(Native::ListTail, 2, iv) {
                        Err(e) => Err(e),
                        Ok(k) => if k <= s.len() {
                            Ok(Value::List(s.skip(k as int)))
                        } else {
                            fail(InterpreterError::OutOfBounds { length: s.len() as usize, got: k })
                        },
                    },
                },
            },
        }
    }
}

/// The lists that the arguments from position `i` on evaluate to, joined.
pub open spec fn sem_append_from(f: nat, l: Env, g: Env, cs: Seq<Term>, i: int) -> Result<Seq<Value>, ErrorModel>
    decreases f, 4nat, cs.len() - i,
{
    if i < 0 || i >= cs.len() {
        Ok(Seq::empty())
    } else {
        match sem_eval(f, l, g, cs[i]) {
            Err(e) => Err(e),
            Ok(v) => match list_arg(Native::Append, i + 1, v) {
                Err(e) => Err(e),
                Ok(s) => prepend(s, sem_append_from(f, l, g, cs, i + 1)),
            },
        }
    }
}

pub open spec fn sem_append(f: nat, l: Env, g: Env, cs: Seq<Term>) -> Outcome
    decreases f, 5nat, 0nat,
{
    if cs.len() < 2 {
        arity(2, cs.len() as int)
    } else {
        match sem_append_from(f, l, g, cs, 0) {
            Err(e) => Err(e),
            Ok(s) => Ok(Value::List(s)),
        }
    }
}

pub open spec fn sem_reverse(f: nat, l: Env, g: Env, cs: Seq<Term>) -> Outcome
    decreases f, 5nat, 0nat,
{
    if cs.len() != 1 {
        arity(1, cs.len() as int)
    } else {
        match sem_eval(f, l, g, cs[0]) {
            Err(e) => Err(e),
            Ok(v) => match list_arg(Native::Reverse, 1, v) {
                Err(e) => Err(e),
                Ok(s) => Ok(Value::List(s.reverse())),
            },
        }
    }
}

pub open spec fn sem_if(f: nat, l: Env, g: Env, cs: Seq<Term>) -> Outcome
    decreases f, 5nat, 0nat,
{
    if cs.len() != 3 {
        arity(3, cs.len() as int)
    } else {
        match sem_eval(f, l, g, cs[0]) {
            Err(e) => Err(e),
            Ok(v) => if truthy(v) {
                sem_eval(f, l, g, cs[1])
            } else {
                sem_eval(f, l, g, cs[2])
            },
        }
    }
}

/// The terms from position `k` on, each evaluated in a child context; the value of the last.
pub open spec fn sem_seq(f: nat, l: Env, g: Env, ts: Seq<Term>, k: int, last: Value) -> Outcome
    decreases f, 3nat, ts.len() - k,
{
    if k < 0 || k >= ts.len() {
        Ok(last)
    } else {
        match sem_eval(f, l, g, ts[k]) {
            Err(e) => Err(e),
            Ok(v) => sem_seq(f, l, g, ts, k + 1, v),
        }
    }
}

/// The clauses of `cond` from position `i` on.
pub open spec fn sem_cond_from(f: nat, l: Env, g: Env, cs: Seq<Term>, i: int) -> Outcome
    decreases f, 4nat, cs.len() - i,
{
    if i < 0 || i >= cs.len() {
        Ok(Value::Void)
    } else {
        match cs[i] {
            Term::Tree(Some(test), body) => if body.len() == 0 {
                fail(InterpreterError::InvalidExpression)
            } else {
                let chosen: Result<bool, ErrorModel> = if *test == Term::Ident("else"@) {
                    Ok(true)
                } else {
                    match sem_eval(f, l, g, *test) {
                        Ok(v) => Ok(truthy(v)),
                        Err(e) => Err(e),
                    }
                };
                match chosen {
                    Err(e) => Err(e),
                    Ok(true) => sem_seq(f, l, g, body, 0, Value::Void),
                    Ok(false) => sem_cond_from(f, l, g, cs, i + 1),
                }
            },
            _ => fail(InterpreterError::InvalidExpression),
        }
    }
}

pub open spec fn sem_cond(f: nat, l: Env, g: Env, cs: Seq<Term>) -> Outcome
    decreases f, 5nat, 0nat,
{
    if cs.len() < 1 {
        arity(1, cs.len() as int)
    } else {
        sem_cond_from(f, l, g, cs, 0)
    }
}

/// `and` from position `i` on; `value` is the last true value so far.
pub open spec fn sem_and(f: nat, l: Env, g: Env, cs: Seq<Term>, i: int, value: Value) -> Outcome
    decreases f, 4nat, cs.len() - i,
{
    if i < 0 || i >= cs.len() {
        Ok(value)
    } else {
        match sem_eval(f, l, g, cs[i]) {
            Err(e) => Err(e),
            Ok(v) => if !truthy(v) {
                Ok(Value::Prim(Lit::Bool(false)))
            } else {
                sem_and(f, l, g, cs, i + 1, v)
            },
        }
    }
}

/// `or` from position `i` on.
pub open spec fn sem_or(f: nat, l: Env, g: Env, cs: Seq<Term>, i: int) -> Outcome
    decreases f, 4nat, cs.len() - i,
{
    if i < 0 || i >= cs.len() {
        Ok(Value::Prim(Lit::Bool(false)))
    } else {
        match sem_eval(f, l, g, cs[i]) {
            Err(e) => Err(e),
            Ok(v) => if truthy(v) {
                Ok(v)
            } else {
                sem_or(f, l, g, cs, i + 1)
            },
        }
    }
}

pub open spec fn sem_not(f: nat, l: Env, g: Env, cs: Seq<Term>) -> Outcome
    decreases f, 5nat, 0nat,
{
    if cs.len() != 1 {
        arity(1, cs.len() as int)
    } else {
        match sem_eval(f, l, g, cs[0]) {
            Err(e) => Err(e),
            Ok(v) => Ok(Value::Prim(Lit::Bool(!truthy(v)))),
        }
    }
}

pub open spec fn sem_xor(f: nat, l: Env, g: Env, cs: Seq<Term>) -> Outcome
    decreases f, 5nat, 0nat,
{
    if cs.len() != 2 {
        arity(2, cs.len() as int)
    } else {
        match sem_eval(f, l, g, cs[0]) {
            Err(e) => Err(e),
            Ok(a) => match sem_eval(f, l, g, cs[1]) {
                Err(e) => Err(e),
                Ok(b) => if truthy(a) && !truthy(b) {
                    Ok(a)
                } else if !truthy(a) && truthy(b) {
                    Ok(b)
                } else {
                    Ok(Value::Prim(Lit::Bool(false)))
                },
            },
        }
    }
}

pub open spec fn sem_is_string(f: nat, l: Env, g: Env, cs: Seq<Term>) -> Outcome
    decreases f, 5nat, 0nat,
{
    if cs.len() != 1 {
        arity(1, cs.len() as int)
    } else {
        match sem_eval(f, l, g, cs[0]) {
            Err(e) => Err(e),
            Ok(v) => Ok(Value::Prim(Lit::Bool(v is Prim && v->Prim_0 is Str))),
        }
    }
}

/// The strings that the arguments from position `i` on evaluate to, joined.
pub open spec fn sem_string_append_from(f: nat, l: Env, g: Env, cs: Seq<Term>, i: int) -> Result<Seq<char>, ErrorModel>
    decreases f, 4nat, cs.len() - i,
{
    if i < 0 || i >= cs.len() {
        Ok(Seq::empty())
    } else {
        match sem_eval(f, l, g, cs[i]) {
            Err(e) => Err(e),
            Ok(v) => match str_arg(Native::StringAppend, i + 1, v) {
                Err(e) => Err(e),
                Ok(s) => prepend(s, sem_string_append_from(f, l, g, cs, i + 1)),
            },
        }
    }
}

pub open spec fn sem_string_append(f: nat, l: Env, g: Env, cs: Seq<Term>) -> Outcome
    decreases f, 5nat, 0nat,
{
    if cs.len() < 2 {
        arity(2, cs.len() as int)
    } else {
        match sem_string_append_from(f, l, g, cs, 0) {
            Err(e) => Err(e),
            Ok(s) => Ok(Value::Prim(Lit::Str(s))),
        }
    }
}

pub open spec fn sem_string_length(f: nat, l: Env, g: Env, cs: Seq<Term>) -> Outcome
    decreases f, 5nat, 0nat,
{
    if cs.len() != 1 {
        arity(1, cs.len() as int)
    } else {
        match sem_eval(f, l, g, cs[0]) {
            Err(e) => Err(e),
            Ok(v) => match str_arg(Native::StringLength, 1, v) {
                Err(e) => Err(e),
                Ok(s) => if s.len() <= i32::MAX {
                    Ok(Value::Prim(Lit::Int(s.len() as i32)))
                } else {
                    native_fail(NativeFnError::Overflow)
                },
            },
        }
    }
}

pub open spec fn sem_string_ref(f: nat, l: Env, g: Env, cs: Seq<Term>) -> Outcome
    decreases f, 5nat, 0nat,
{
    if cs.len() != 2 {
        arity(2, cs.len() as int)
    } else {
        match sem_eval(f, l, g, cs[0]) {
            Err(e) => Err(e),
            Ok(v) => match str_arg(Native::StringRef, 1, v) {
                Err(e) => Err(e),
                Ok(s) => match sem_eval(f, l, g, cs[1]) {
                    Err(e) => Err(e),
                    Ok(iv) => match index_arg(Native::StringRef, 2, iv) {
                        Err(e) => Err(e),
                        Ok(k) => if k < s.len() {
                            Ok(Value::Prim(Lit::Char(seq![s[k as int]])))
                        } else {
                            fail(InterpreterError::OutOfBounds { length: s.len() as usize, got: k })
                        },
                    },
                },
            },
        }
    }
}

/// The characters of `s` from `start` up to `end`, or the range error.
pub open spec fn substring_result(s: Seq<char>, start: usize, e: int) -> Outcome {
    if e < start {
        fail(InterpreterError::InvalidRange { start, end: e as usize })
    } else if e > s.len() {
        fail(InterpreterError::OutOfBounds { length: s.len() as usize, got: e as usize })
    } else {
        Ok(Value::Prim(Lit::Str(s.subrange(start as int, e))))
    }
}

pub open spec fn sem_substring(f: nat, l: Env, g: Env, cs: Seq<Term>) -> Outcome
    decreases f, 5nat, 0nat,
{
    if cs.len() != 2 && cs.len() != 3 {
        arity(3, cs.len() as int)
    } else {
        match sem_eval(f, l, g, cs[0]) {
            Err(e) => Err(e),
            Ok(v) => match str_arg(Native::Substring, 1, v) {
                Err(e) => Err(e),
                Ok(s) => match sem_eval(f, l, g, cs[1]) {
                    Err(e) => Err(e),
                    Ok(sv) => match index_arg(Native::Substring, 2, sv) {
                        Err(e) => Err(e),
                        Ok(start) => if cs.len() == 3 {
                            match sem_eval(f, l, g, cs[2]) {
                                Err(e) => Err(e),
                                Ok(ev) => match index_arg(Native::Substring, 3, ev) {
                                    Err(e) => Err(e),
                                    Ok(end) => substring_result(s, start, end as int),
                                },
                            }
                        } else {
                            substring_result(s, start, s.len() as int)
                        },
                    },
                },
            },
        }
    }
}

pub open spec fn sem_make_string(f: nat, l: Env, g: Env, cs: Seq<Term>) -> Outcome
    decreases f, 5nat, 0nat,
{
    if cs.len() != 2 {
        arity(2, cs.len() as int)
    } else {
        match sem_eval(f, l, g, cs[0]) {
            Err(e) => Err(e),
            Ok(nv) => match index_arg(Native::MakeString, 1, nv) {
                Err(e) => Err(e),
                Ok(n) => match sem_eval(f, l, g, cs[1]) {
                    Err(e) => Err(e),
                    Ok(Value::Prim(Lit::Char(c))) => Ok(Value::Prim(Lit::Str(repeat(c, n as nat)))),
                    Ok(other) => Err(ErrorModel::Other(unexpected(Native::MakeString, 2, other, Kind::Character))),
                },
            },
        }
    }
}

pub open spec fn sem_string_to_list(f: nat, l: Env, g: Env, cs: Seq<Term>) -> Outcome
    decreases f, 5nat, 0nat,
{
    if cs.len() != 1 {
        arity(1, cs.len() as int)
    } else {
        match sem_eval(f, l, g, cs[0]) {
            Err(e) => Err(e),
            Ok(v) => match str_arg(Native::StringToList, 1, v) {
                Err(e) => Err(e),
                Ok(s) => Ok(Value::List(char_values(s))),
            },
        }
    }
}

pub open spec fn sem_list_to_string(f: nat, l: Env, g: Env, cs: Seq<Term>) -> Outcome
    decreases f, 5nat, 0nat,
{
    if cs.len() != 1 {
        arity(1, cs.len() as int)
    } else {
        match sem_eval(f, l, g, cs[0]) {
            Err(e) => Err(e),
            Ok(v) => match list_arg(Native::ListToString, 1, v) {
                Err(e) => Err(e),
                Ok(items) => match join_chars(items) {
                    Ok(t) => Ok(Value::Prim(Lit::Str(t))),
                    Err(e) => native_fail(e),
                },
            },
        }
    }
}

} // verus!

verus! {

pub proof fn lemma_prepend_cat<A>(a: Seq<A>, b: Seq<A>, r: Result<Seq<A>, ErrorModel>)
    ensures
        prepend(a, prepend(b, r)) == prepend(a + b, r),
        prepend(a, Ok::<Seq<A>, ErrorModel>(Seq::empty())) == Ok::<Seq<A>, ErrorModel>(a),
{
    match r {
        Ok(s) => {
            assert(a + (b + s) =~= (a + b) + s);
        },
        Err(_) => {},
    }
    assert(a + Seq::<A>::empty() =~= a);
}

pub proof fn lemma_push_cat<A>(a: Seq<A>, x: A)
    ensures
        a.push(x) == a + seq![x],
{
    assert(a.push(x) =~= a + seq![x]);
}

} // verus!
