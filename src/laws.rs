//! Properties of evaluation that relate several functions.
use vstd::prelude::*;
use crate::body::{param_map, subst};
use crate::context::lookup;
use crate::convert::{lemma_expr_term_round_trip, term_of_expr, term_of_value, value_of_term};
use crate::data_types::Lit;
use crate::error::{Kind, Native, NativeFnError};
use crate::expr::ExprModel;
use crate::ops::{ComparisonOperator, arith_fold};
use crate::value::{Term, Value};
use crate::context::function_of;
use crate::error::{DeclaredFunctionError, InterpreterError};
use crate::native::native_of;
use crate::semantics::{CallableModel, Env, ErrorModel, fail, native_fail, sem_args, sem_call, sem_define, sem_eval, sem_map_from, sem_math};

verus! {

/// Inside a function body a parameter stands for its argument, whatever a
/// global of the same name holds: the body is evaluated after this
/// substitution (`FunctionBody::call`).
pub proof fn lemma_parameter_shadows_global(x: Seq<char>, v: Value, globals: Map<Seq<char>, Value>)
    ensures
        subst(Term::Ident(x), param_map(seq![x], seq![v])) == term_of_value(v),
{
    assert(seq![x].take(0) =~= Seq::<Seq<char>>::empty());
    assert(seq![v].take(0) =~= Seq::<Value>::empty());
}

/// Local bindings shadow global ones of the same name.
pub proof fn lemma_local_shadows_global(locals: Map<Seq<char>, Value>, globals: Map<Seq<char>, Value>, x: Seq<char>)
    requires
        locals.contains_key(x),
    ensures
        lookup(locals, globals, x) == Some(locals[x]),
{
}

/// A quoted term evaluates to itself as data: nothing inside it is evaluated.
pub proof fn lemma_quote_is_data(f: nat, l: Env, g: Env, e: ExprModel)
    ensures
        value_of_term(term_of_expr(ExprModel::Quoted(Box::new(e))))
            == Some(Value::Expr(ExprModel::Quoted(Box::new(e)))),
        sem_eval(f, l, g, term_of_expr(ExprModel::Quoted(Box::new(e))))
            == Ok::<Value, ErrorModel>(Value::Expr(ExprModel::Quoted(Box::new(e)))),
{
    lemma_expr_term_round_trip(e);
}

/// A call of a declared function whose arity differs from the number of
/// arguments fails with the arity error, before any argument is evaluated.
pub proof fn lemma_arity_enforced(f: nat, l: Env, g: Env, s: Seq<char>, cs: Seq<Term>)
    requires
        f > 0,
        native_of(s) is None,
        function_of(lookup(l, g, s)) is Some,
        function_of(lookup(l, g, s)).unwrap().arity is Some,
        function_of(lookup(l, g, s)).unwrap().arity.unwrap() != cs.len(),
    ensures
        sem_eval(f, l, g, Term::Tree(Some(Box::new(Term::Ident(s))), cs)) == fail(
            InterpreterError::DeclaredFnError(DeclaredFunctionError::ArityMismatch {
                expected: function_of(lookup(l, g, s)).unwrap().arity.unwrap() as usize,
                got: cs.len() as usize,
            })),
{
}

/// Built-ins get literal arguments as their values, in order.
pub proof fn lemma_literal_args(f: nat, l: Env, g: Env, ps: Seq<Lit>, i: int)
    requires
        0 <= i <= ps.len(),
    ensures
        sem_args(f, l, g, ps.map_values(|p: Lit| Term::Prim(p)), i)
            == Ok::<Seq<Value>, ErrorModel>(ps.skip(i).map_values(|p: Lit| Value::Prim(p))),
    decreases ps.len() - i,
{
    let ts = ps.map_values(|p: Lit| Term::Prim(p));
    if i < ps.len() {
        assert(ts[i] == Term::Prim(ps[i]));
        assert(sem_eval(f, l, g, ts[i]) == Ok::<Value, ErrorModel>(Value::Prim(ps[i])));
        lemma_literal_args(f, l, g, ps, i + 1);
        assert(seq![Value::Prim(ps[i])] + ps.skip(i + 1).map_values(|p: Lit| Value::Prim(p))
            =~= ps.skip(i).map_values(|p: Lit| Value::Prim(p)));
    } else {
        assert(ps.skip(i).map_values(|p: Lit| Value::Prim(p)) =~= Seq::<Value>::empty());
    }
}

/// An arithmetic call on literal operands folds their values.
pub proof fn lemma_math_of_literals(f: nat, l: Env, g: Env, ps: Seq<Lit>, op: ComparisonOperator)
    requires
        ps.len() >= 2,
    ensures
        sem_math(f, l, g, ps.map_values(|p: Lit| Term::Prim(p)), op) == match arith_fold(op, ps.map_values(|p: Lit| Value::Prim(p))) {
            Ok(i) => Ok::<Value, ErrorModel>(Value::Prim(Lit::Int(i))),
            Err(e) => native_fail(e),
        },
{
    lemma_literal_args(f, l, g, ps, 0);
    assert(ps.skip(0) =~= ps);
}

/// `map` applies the function to each element in order: the `i`-th result
/// is the function applied to the `i`-th element alone.
pub proof fn lemma_map_in_order(f: nat, l: Env, g: Env, c: CallableModel, items: Seq<Value>, i: int)
    requires
        0 <= i <= items.len(),
        sem_map_from(f, l, g, c, items, i) is Ok,
    ensures
        sem_map_from(f, l, g, c, items, i)->Ok_0.len() == items.len() - i,
        forall|k: int| i <= k < items.len() ==> sem_call(f, l, g, c, seq![items[k]])
            == Ok::<Value, ErrorModel>(#[trigger] sem_map_from(f, l, g, c, items, i)->Ok_0[k - i]),
    decreases items.len() - i,
{
    if i < items.len() {
        assert(sem_call(f, l, g, c, seq![items[i]]) is Ok);
        let v = sem_call(f, l, g, c, seq![items[i]])->Ok_0;
        assert(sem_map_from(f, l, g, c, items, i + 1) is Ok);
        lemma_map_in_order(f, l, g, c, items, i + 1);
        let rest = sem_map_from(f, l, g, c, items, i + 1)->Ok_0;
        assert(sem_map_from(f, l, g, c, items, i)->Ok_0 == seq![v] + rest);
        assert forall|k: int| i <= k < items.len() implies sem_call(f, l, g, c, seq![items[k]])
            == Ok::<Value, ErrorModel>(#[trigger] sem_map_from(f, l, g, c, items, i)->Ok_0[k - i]) by {
            if k > i {
                assert((seq![v] + rest)[k - i] == rest[k - (i + 1)]);
            }
        };
    }
}

/// `(define x v)` with a literal `v` binds `v` to `x`, and `x` then evaluates to `v`.
pub proof fn lemma_define_literal(f: nat, l: Env, g: Env, x: Seq<char>, p: Lit)
    ensures
        sem_define(f, l, g, seq![Term::Ident(x), Term::Prim(p)])
            == (Ok::<Value, ErrorModel>(Value::Void), Some((x, Value::Prim(p)))),
        sem_eval(f, Map::empty(), g.insert(x, Value::Prim(p)), Term::Ident(x))
            == Ok::<Value, ErrorModel>(Value::Prim(p)),
{
}

/// After a top-level `(define x v)`, `x` evaluates to `v`; defining `x`
/// again replaces the binding (the last definition wins).
pub proof fn lemma_define_then_lookup(globals: Map<Seq<char>, Value>, x: Seq<char>, v: Value, w: Value)
    ensures
        lookup(Map::empty(), globals.insert(x, v), x) == Some(v),
        globals.insert(x, v).insert(x, w) == globals.insert(x, w),
{
    assert(globals.insert(x, v).insert(x, w) =~= globals.insert(x, w));
}

/// Adding an integer and a string fails with an error on the string.
pub proof fn lemma_add_rejects_strings(a: i32, s: Seq<char>)
    ensures
        arith_fold(ComparisonOperator::Add, seq![Value::Prim(Lit::Int(a)), Value::Prim(Lit::Str(s))])
            == Err::<i32, NativeFnError>(NativeFnError::UnexpectedType {
                function: Native::Add,
                argument_position: 2,
                got: Kind::String,
                expected: Kind::Number,
            }),
{
    let vals = seq![Value::Prim(Lit::Int(a)), Value::Prim(Lit::Str(s))];
    assert(vals.drop_last() =~= seq![Value::Prim(Lit::Int(a))]);
    assert(arith_fold(ComparisonOperator::Add, vals.drop_last()) == Ok::<i32, NativeFnError>(a));
}

} // verus!
