//! The built-in functions and their registry.
use vstd::prelude::*;
use crate::context::{Callable, Context, eval_args, lookup, unchanged};
use crate::data_types::{DataType, Lit};
use crate::error::{InterpreterError, Kind, Native, NativeFnError, kind_of};
use crate::lists::{
    list_items,
    append_of, cons_of, length_of, list_ref_of, list_tail_of, list_value, non_negative_int,
    require_list, reverse_of,
};
use crate::ops::{Comparison, ComparisonOperator, arith_fold, arithmetic, compare_from, with_comparable_window2};
use crate::value::{
    Any, AnyEval, Composed, EvalTree, FnModel, Function, Term, Value,
    terms_model, values_model, lemma_terms_model_index, };
use crate::strings;
use crate::vars::OwnedStorage;
use crate::semantics::{arity, err_model, lemma_prepend_cat, lemma_push_cat, outcome, prepend, sem_and, sem_append, sem_append_from, sem_callable, sem_compare, sem_cond, sem_cond_from, sem_cons, sem_define, sem_eval, sem_filter, sem_filter_from, sem_fold, sem_fold_from, sem_if, sem_length, sem_list, sem_list_ref, sem_list_tail, sem_map, sem_map_from, sem_math, sem_native, sem_not, sem_or, sem_reverse, sem_seq, sem_xor};

verus! {

/// The built-in function named `s`, if any.
pub open spec fn native_of(s: Seq<char>) -> Option<Native> {
    if s == "cons"@ { Some(Native::Cons) }
    else if s == "list"@ { Some(Native::List) }
    else if s == "define"@ { Some(Native::Define) }
    else if s == "exit"@ { Some(Native::Exit) }
    else if s == "="@ { Some(Native::Eq) }
    else if s == ">"@ { Some(Native::Gt) }
    else if s == "<"@ { Some(Native::Lt) }
    else if s == ">="@ { Some(Native::Ge) }
    else if s == "<="@ { Some(Native::Le) }
    else if s == "+"@ { Some(Native::Add) }
    else if s == "-"@ { Some(Native::Sub) }
    else if s == "*"@ { Some(Native::Mul) }
    else if s == "/"@ { Some(Native::Div) }
    else if s == "map"@ { Some(Native::MapList) }
    else if s == "foldr"@ { Some(Native::Foldr) }
    else if s == "foldl"@ { Some(Native::Foldl) }
    else if s == "filter"@ { Some(Native::Filter) }
    else if s == "string?"@ { Some(Native::IsString) }
    else if s == "string-append"@ { Some(Native::StringAppend) }
    else if s == "string-length"@ { Some(Native::StringLength) }
    else if s == "string-ref"@ { Some(Native::StringRef) }
    else if s == "substring"@ { Some(Native::Substring) }
    else if s == "make-string"@ { Some(Native::MakeString) }
    else if s == "string->list"@ { Some(Native::StringToList) }
    else if s == "list->string"@ { Some(Native::ListToString) }
    else if s == "length"@ { Some(Native::Length) }
    else if s == "list-ref"@ { Some(Native::ListRef) }
    else if s == "list-tail"@ { Some(Native::ListTail) }
    else if s == "append"@ { Some(Native::Append) }
    else if s == "reverse"@ { Some(Native::Reverse) }
    else if s == "if"@ { Some(Native::If) }
    else if s == "cond"@ { Some(Native::Cond) }
    else if s == "and"@ { Some(Native::And) }
    else if s == "or"@ { Some(Native::Or) }
    else if s == "not"@ { Some(Native::Not) }
    else if s == "xor"@ { Some(Native::Xor) }
    else { None }
}

pub(crate) fn is_named(name: &String, lit: &str) -> (r: bool)
    ensures
        r == (name@ == lit@),
{
    let l = lit.to_owned();
    *name == l
}

/// The table of built-in functions, looked up by name.
pub struct NativeStorage {}

impl NativeStorage {
    pub fn new() -> (r: NativeStorage) {
        NativeStorage {}
    }

    /// The built-in function named `item`.
    pub fn get(&self, item: &String) -> (r: Option<Native>)
        ensures
            r == native_of(item@),
    {
        if is_named(item, "cons") { Some(Native::Cons) }
        else if is_named(item, "list") { Some(Native::List) }
        else if is_named(item, "define") { Some(Native::Define) }
        else if is_named(item, "exit") { Some(Native::Exit) }
        else if is_named(item, "=") { Some(Native::Eq) }
        else if is_named(item, ">") { Some(Native::Gt) }
        else if is_named(item, "<") { Some(Native::Lt) }
        else if is_named(item, ">=") { Some(Native::Ge) }
        else if is_named(item, "<=") { Some(Native::Le) }
        else if is_named(item, "+") { Some(Native::Add) }
        else if is_named(item, "-") { Some(Native::Sub) }
        else if is_named(item, "*") { Some(Native::Mul) }
        else if is_named(item, "/") { Some(Native::Div) }
        else if is_named(item, "map") { Some(Native::MapList) }
        else if is_named(item, "foldr") { Some(Native::Foldr) }
        else if is_named(item, "foldl") { Some(Native::Foldl) }
        else if is_named(item, "filter") { Some(Native::Filter) }
        else if is_named(item, "string?") { Some(Native::IsString) }
        else if is_named(item, "string-append") { Some(Native::StringAppend) }
        else if is_named(item, "string-length") { Some(Native::StringLength) }
        else if is_named(item, "string-ref") { Some(Native::StringRef) }
        else if is_named(item, "substring") { Some(Native::Substring) }
        else if is_named(item, "make-string") { Some(Native::MakeString) }
        else if is_named(item, "string->list") { Some(Native::StringToList) }
        else if is_named(item, "list->string") { Some(Native::ListToString) }
        else if is_named(item, "length") { Some(Native::Length) }
        else if is_named(item, "list-ref") { Some(Native::ListRef) }
        else if is_named(item, "list-tail") { Some(Native::ListTail) }
        else if is_named(item, "append") { Some(Native::Append) }
        else if is_named(item, "reverse") { Some(Native::Reverse) }
        else if is_named(item, "if") { Some(Native::If) }
        else if is_named(item, "cond") { Some(Native::Cond) }
        else if is_named(item, "and") { Some(Native::And) }
        else if is_named(item, "or") { Some(Native::Or) }
        else if is_named(item, "not") { Some(Native::Not) }
        else if is_named(item, "xor") { Some(Native::Xor) }
        else { None }
    }
}

/// The error of a built-in called with `got` arguments where it needs `expected`.
pub open spec fn arity_error(expected: usize, got: int) -> Result<Any, InterpreterError> {
    Err(InterpreterError::NativeError(NativeFnError::ArityMismatch { expected, got: got as usize }))
}

fn arity_mismatch(expected: usize, got: usize) -> (r: Result<Any, InterpreterError>)
    ensures
        r == arity_error(expected, got as int),
{
    Err(InterpreterError::NativeError(NativeFnError::ArityMismatch { expected, got }))
}

/// Calls a built-in with unevaluated arguments; only `define` changes any binding.
pub fn call_native(cx: &mut Context, globals: &mut OwnedStorage, fuel: usize, native: Native, args: &Vec<AnyEval>) -> (r: Result<Any, InterpreterError>)
    ensures
        final(cx).root == old(cx).root,
        outcome(r) == sem_native(fuel as nat, old(cx).local_variables@, old(globals)@, native, terms_model(args@)),
        native == Native::Define ==> match sem_define(fuel as nat, old(cx).local_variables@, old(globals)@, terms_model(args@)).1 {
            Some(b) => binds(*old(cx), *final(cx), *old(globals), *final(globals), b.0, b.1),
            None => unchanged(*old(cx), *final(cx), *old(globals), *final(globals)),
        },
        native != Native::Define ==> unchanged(*old(cx), *final(cx), *old(globals), *final(globals)),
    decreases fuel, 5nat,
{
    match native {
        Native::Define => define(cx, globals, fuel, args),
        Native::Exit => Err(InterpreterError::Exit),
        Native::Cons => cons(cx, globals, fuel, args),
        Native::List => list(cx, globals, fuel, args),
        Native::Eq => compare(cx, globals, fuel, args, Comparison::Eq),
        Native::Gt => compare(cx, globals, fuel, args, Comparison::Gt),
        Native::Lt => compare(cx, globals, fuel, args, Comparison::Lt),
        Native::Ge => compare(cx, globals, fuel, args, Comparison::Ge),
        Native::Le => compare(cx, globals, fuel, args, Comparison::Le),
        Native::Add => math(cx, globals, fuel, args, ComparisonOperator::Add),
        Native::Sub => math(cx, globals, fuel, args, ComparisonOperator::Sub),
        Native::Mul => math(cx, globals, fuel, args, ComparisonOperator::Mul),
        Native::Div => math(cx, globals, fuel, args, ComparisonOperator::Div),
        Native::MapList => map(cx, globals, fuel, args),
        Native::Foldr => fold_with(cx, globals, fuel, args, true),
        Native::Foldl => fold_with(cx, globals, fuel, args, false),
        Native::Filter => filter(cx, globals, fuel, args),
        Native::Length => len(cx, globals, fuel, args),
        Native::ListRef => list_ref(cx, globals, fuel, args),
        Native::ListTail => list_tail(cx, globals, fuel, args),
        Native::Append => append(cx, globals, fuel, args),
        Native::Reverse => reverse(cx, globals, fuel, args),
        Native::If => if_form(cx, globals, fuel, args),
        Native::Cond => cond(cx, globals, fuel, args),
        Native::And => and(cx, globals, fuel, args),
        Native::Or => or(cx, globals, fuel, args),
        Native::Not => not(cx, globals, fuel, args),
        Native::Xor => xor(cx, globals, fuel, args),
        Native::IsString => strings::is_string(cx, globals, fuel, args),
        Native::StringAppend => strings::string_append(cx, globals, fuel, args),
        Native::StringLength => strings::string_length(cx, globals, fuel, args),
        Native::StringRef => strings::string_ref(cx, globals, fuel, args),
        Native::Substring => strings::substring(cx, globals, fuel, args),
        Native::MakeString => strings::make_string(cx, globals, fuel, args),
        Native::StringToList => strings::string_to_list(cx, globals, fuel, args),
        Native::ListToString => strings::list_to_string(cx, globals, fuel, args),
    }
}

/// Evaluates one argument in a child context.
pub fn eval_arg(cx: &Context, globals: &mut OwnedStorage, fuel: usize, arg: &AnyEval) -> (r: Result<Any, InterpreterError>)
    ensures
        final(globals)@ == old(globals)@,
        outcome(r) == sem_eval(fuel as nat, cx.local_variables@, old(globals)@, arg.model()),
    decreases fuel, 2nat,
{
    let mut sub = cx.level_down();
    sub.eval(globals, fuel, arg)
}

/// `(cons a b)`: the pair of the two evaluated arguments.
pub fn cons(cx: &Context, globals: &mut OwnedStorage, fuel: usize, inputs: &Vec<AnyEval>) -> (r: Result<Any, InterpreterError>)
    ensures
        final(globals)@ == old(globals)@,
        outcome(r) == sem_cons(fuel as nat, cx.local_variables@, old(globals)@, terms_model(inputs@)),
    decreases fuel, 4nat,
{
    proof {
        lemma_terms_model_index(inputs@);
    }
    if inputs.len() != 2 {
        return arity_mismatch(2, inputs.len());
    }
    let left = match eval_arg(cx, globals, fuel, &inputs[0]) {
        Ok(v) => v,
        Err(e) => { return Err(e); },
    };
    let right = match eval_arg(cx, globals, fuel, &inputs[1]) {
        Ok(v) => v,
        Err(e) => { return Err(e); },
    };
    Ok(cons_of(left, right))
}

/// `(list a ...)`: the list of the evaluated arguments, in order.
pub fn list(cx: &Context, globals: &mut OwnedStorage, fuel: usize, inputs: &Vec<AnyEval>) -> (r: Result<Any, InterpreterError>)
    ensures
        final(globals)@ == old(globals)@,
        outcome(r) == sem_list(fuel as nat, cx.local_variables@, old(globals)@, terms_model(inputs@)),
    decreases fuel, 4nat,
{
    match eval_args(cx, globals, fuel, inputs) {
        Ok(items) => {
            proof {
                crate::value::lemma_values_model_index(items@);
            }
            Ok(list_value(items))
        },
        Err(e) => Err(e),
    }
}

/// `(= a b ...)` and the other comparisons: at least two arguments, all evaluated first.
pub fn compare(cx: &Context, globals: &mut OwnedStorage, fuel: usize, args: &Vec<AnyEval>, c: Comparison) -> (r: Result<Any, InterpreterError>)
    ensures
        final(globals)@ == old(globals)@,
        outcome(r) == sem_compare(fuel as nat, cx.local_variables@, old(globals)@, terms_model(args@), c),
    decreases fuel, 4nat,
{
    proof {
        lemma_terms_model_index(args@);
    }
    if args.len() < 2 {
        return arity_mismatch(2, args.len());
    }
    match eval_args(cx, globals, fuel, args) {
        Ok(items) => {
            proof {
                crate::value::lemma_values_model_index(items@);
            }
            let r = with_comparable_window2(c, &items);
            assert(r is Ok ==> compare_from(c, values_model(items@), 0) is Ok);
            r
        },
        Err(e) => Err(e),
    }
}

/// `(+ a b ...)` and the other arithmetic operators: at least two arguments, all evaluated first.
pub fn math(cx: &Context, globals: &mut OwnedStorage, fuel: usize, args: &Vec<AnyEval>, op: ComparisonOperator) -> (r: Result<Any, InterpreterError>)
    ensures
        final(globals)@ == old(globals)@,
        outcome(r) == sem_math(fuel as nat, cx.local_variables@, old(globals)@, terms_model(args@), op),
    decreases fuel, 4nat,
{
    proof {
        lemma_terms_model_index(args@);
    }
    if args.len() < 2 {
        return arity_mismatch(2, args.len());
    }
    match eval_args(cx, globals, fuel, args) {
        Ok(items) => {
            proof {
                crate::value::lemma_values_model_index(items@);
            }
            let r = arithmetic(op, &items);
            assert(r is Ok ==> arith_fold(op, values_model(items@)) is Ok);
            r
        },
        Err(e) => Err(e),
    }
}

} // verus!

verus! {

/// `name` is now bound to `v` in the table that the context writes, and nothing else changed.
pub open spec fn binds(c0: Context, c1: Context, g0: OwnedStorage, g1: OwnedStorage, name: Seq<char>, v: Value) -> bool {
    &&& c1.root == c0.root
    &&& c0.root ==> g1@ == g0@.insert(name, v) && c1.local_variables@ == c0.local_variables@
    &&& !c0.root ==> c1.local_variables@ == c0.local_variables@.insert(name, v) && g1@ == g0@
}

/// Whether a term is a `(lambda ...)` form.
pub open spec fn is_lambda_form(t: Term) -> bool {
    match t {
        Term::Tree(Some(n), _) => *n == Term::Ident("lambda"@),
        _ => false,
    }
}

/// `(define name value)` binds the value of `value`, or the function of a
/// `(lambda ...)` form; `(define (name params...) body...)` binds a function.
pub fn define(cx: &mut Context, globals: &mut OwnedStorage, fuel: usize, args: &Vec<AnyEval>) -> (r: Result<Any, InterpreterError>)
    ensures
        outcome(r) == sem_define(fuel as nat, old(cx).local_variables@, old(globals)@, terms_model(args@)).0,
        match sem_define(fuel as nat, old(cx).local_variables@, old(globals)@, terms_model(args@)).1 {
            Some(b) => binds(*old(cx), *final(cx), *old(globals), *final(globals), b.0, b.1),
            None => unchanged(*old(cx), *final(cx), *old(globals), *final(globals)),
        },
    decreases fuel, 4nat,
{
    proof {
        lemma_terms_model_index(args@);
    }
    if args.len() < 2 {
        return arity_mismatch(2, args.len());
    }
    proof {
        lemma_terms_model_index(args@);
    }
    match &args[0] {
        AnyEval::Ident(name) => {
            if args.len() != 2 {
                return arity_mismatch(2, args.len());
            }
            let value = match &args[1] {
                AnyEval::Expression(t) if is_lambda_tree(t) => {
                    match Function::from_lambda(name, &**t) {
                        Ok(f) => Any::Composed(Box::new(Composed::Function(f))),
                        Err(e) => { return Err(e); },
                    }
                },
                other => match eval_arg(cx, globals, fuel, other) {
                    Ok(v) => v,
                    Err(e) => { return Err(e); },
                },
            };
            let ghost vm = value.model();
            cx.vars_insert(globals, name, value);
            assert(binds(*old(cx), *cx, *old(globals), *globals, args@[0].model()->Ident_0, vm));
            Ok(Any::Void)
        },
        AnyEval::Expression(tree) => {
            let f = match Function::parse_from(&**tree, args, 1) {
                Ok(f) => f,
                Err(e) => { return Err(e); },
            };
            let name = f.name.clone();
            cx.vars_insert(globals, &name, Any::Composed(Box::new(Composed::Function(f))));
            Ok(Any::Void)
        },
        _ => Err(InterpreterError::NativeError(NativeFnError::IdentifierExpectedIn { call: Native::Define })),
    }
}

/// The function of `(define (name params...) body...)`, as `define` builds it.
pub open spec fn defined_fn(n: Option<Box<Term>>, cs: Seq<Term>, body: Seq<Term>) -> Option<FnModel> {
    crate::function::defined_function(n, cs, body)
}

fn is_lambda_tree(t: &EvalTree) -> (r: bool)
    ensures
        r == (t.node_model() == Some(Box::new(Term::Ident("lambda"@)))),
{
    match &t.node {
        Some(n) => match &**n {
            AnyEval::Ident(s) => is_named(s, "lambda"),
            _ => false,
        },
        None => false,
    }
}

/// What a function argument of `map`, `filter` or a fold stands for: the
/// name of a native or of a bound function, a function value, or a
/// `(lambda ...)` form.
pub fn callable_for(cx: &Context, globals: &OwnedStorage, fun: &AnyEval, fn_name: Native, arg_pos: usize) -> (r: Result<Callable, InterpreterError>)
    ensures
        match sem_callable(cx.local_variables@, globals@, fun.model(), fn_name, arg_pos) {
            Ok(c) => r is Ok && r->Ok_0.model() == c,
            Err(e) => r is Err && err_model(r->Err_0) == e,
        },
{
    match fun {
        AnyEval::Ident(i) => {
            let storage = NativeStorage::new();
            match storage.get(i) {
                Some(k) => Ok(Callable::Native(k)),
                None => match cx.get_ident(globals, i) {
                    Ok(Any::Composed(c)) => match *c {
                        Composed::Function(f) => Ok(Callable::Function(f)),
                        Composed::Lambda(l) => Ok(Callable::Lambda(l)),
                        _ => Err(InterpreterError::UndefinedFunction(i.clone())),
                    },
                    _ => Err(InterpreterError::UndefinedFunction(i.clone())),
                },
            }
        },
        AnyEval::Composed(c) => match &**c {
            Composed::Function(f) => Ok(Callable::Function(f.make_static())),
            Composed::Lambda(l) => Ok(Callable::Lambda(l.make_static())),
            _ => {
                assert(fun.model() == Term::Composed(c.model()));
                Err(InterpreterError::NativeError(NativeFnError::UnexpectedType {
                    function: fn_name,
                    argument_position: arg_pos,
                    got: AnyEval::kind(fun),
                    expected: Kind::Callable,
                }))
            },
        },
        AnyEval::Expression(e) => match e.try_parse_lambda() {
            Ok(l) => Ok(Callable::Lambda(l)),
            Err(err) => Err(err),
        },
        _ => Err(InterpreterError::NativeError(NativeFnError::UnexpectedType {
            function: fn_name,
            argument_position: arg_pos,
            got: AnyEval::kind(fun),
            expected: Kind::Callable,
        })),
    }
}

/// Whether a term is a function value.
pub open spec fn is_function_term(t: Term) -> bool {
    match t {
        Term::Composed(Value::Func(_)) => true,
        Term::Composed(Value::Lambda(_)) => true,
        _ => false,
    }
}

/// The kind of a term: that of its value where it is one, else an expression.
pub open spec fn term_kind(t: Term) -> Kind {
    match t {
        Term::Prim(p) => kind_of(Value::Prim(p)),
        Term::Composed(v) => kind_of(v),
        Term::Void => Kind::Void,
        _ => Kind::Expression,
    }
}

impl AnyEval {
    pub fn kind(t: &AnyEval) -> (r: Kind)
        ensures
            r == term_kind(t.model()),
    {
        match t {
            AnyEval::Primitive(p) => Any::kind(&Any::Primitive(p.make_static())),
            AnyEval::Composed(c) => Any::kind(&Any::Composed(Box::new((**c).make_static()))),
            AnyEval::Void => Kind::Void,
            _ => Kind::Expression,
        }
    }
}

/// `(map f list)`: `f` applied to each element, in order.
#[verifier::loop_isolation(false)]
pub fn map(cx: &Context, globals: &mut OwnedStorage, fuel: usize, args: &Vec<AnyEval>) -> (r: Result<Any, InterpreterError>)
    ensures
        final(globals)@ == old(globals)@,
        outcome(r) == sem_map(fuel as nat, cx.local_variables@, old(globals)@, terms_model(args@)),
    decreases fuel, 4nat,
{
    proof {
        lemma_terms_model_index(args@);
    }
    if args.len() != 2 {
        return arity_mismatch(2, args.len());
    }
    let evaluated = match eval_arg(cx, globals, fuel, &args[1]) {
        Ok(v) => v,
        Err(e) => { return Err(e); },
    };
    let items = match require_list(&evaluated, Native::MapList, 2) {
        Ok(items) => items,
        Err(e) => { return Err(e); },
    };
    let callable = match callable_for(cx, globals, &args[0], Native::MapList, 1) {
        Ok(c) => c,
        Err(e) => { return Err(e); },
    };
    let ghost l = cx.local_variables@;
    let ghost g = old(globals)@;
    let ghost its = values_model(items@);
    proof {
        crate::value::lemma_values_model_index(items@);
        lemma_prepend_cat(Seq::<Value>::empty(), Seq::<Value>::empty(), sem_map_from(fuel as nat, l, g, callable.model(), its, 0));
        assert(Seq::<Value>::empty() + Seq::<Value>::empty() =~= Seq::<Value>::empty());
        assert(values_model(Seq::<Any>::empty()) == Seq::<Value>::empty());
    }
    let mut result: Vec<Any> = Vec::with_capacity(items.len());
    let mut i: usize = 0;
    while i < items.len()
        invariant
            i <= items@.len(),
            globals@ == g,
            its.len() == items@.len(),
            forall|j: int| 0 <= j < items@.len() ==> #[trigger] its[j] == items@[j].model(),
            sem_map_from(fuel as nat, l, g, callable.model(), its, 0)
                == prepend(values_model(result@), sem_map_from(fuel as nat, l, g, callable.model(), its, i as int)),
        decreases items@.len() - i,
    {
        let mut one: Vec<Any> = Vec::with_capacity(1);
        one.push(items[i].make_static());
        proof {
            crate::value::lemma_values_model_index(one@);
            assert(values_model(one@) =~= seq![its[i as int]]);
        }
        match callable.call(cx, globals, fuel, &one) {
            Ok(v) => {
                proof {
                    crate::value::lemma_values_model_push(result@, v);
                    lemma_push_cat(values_model(result@), v.model());
                    lemma_prepend_cat(values_model(result@), seq![v.model()],
                        sem_map_from(fuel as nat, l, g, callable.model(), its, i + 1));
                }
                result.push(v);
            },
            Err(e) => { return Err(e); },
        }
        i = i + 1;
    }
    proof {
        lemma_prepend_cat(values_model(result@), Seq::<Value>::empty(), Ok(Seq::empty()));
    }
    Ok(list_value(result))
}

/// `(filter pred list)`: the elements for which `pred` gives `#t`, in order;
/// a result that is not a boolean is an error.
#[verifier::loop_isolation(false)]
pub fn filter(cx: &Context, globals: &mut OwnedStorage, fuel: usize, args: &Vec<AnyEval>) -> (r: Result<Any, InterpreterError>)
    ensures
        final(globals)@ == old(globals)@,
        outcome(r) == sem_filter(fuel as nat, cx.local_variables@, old(globals)@, terms_model(args@)),
    decreases fuel, 4nat,
{
    proof {
        lemma_terms_model_index(args@);
    }
    if args.len() != 2 {
        return arity_mismatch(2, args.len());
    }
    let callable = match callable_for(cx, globals, &args[0], Native::Filter, 1) {
        Ok(c) => c,
        Err(e) => { return Err(e); },
    };
    let evaluated = match eval_arg(cx, globals, fuel, &args[1]) {
        Ok(v) => v,
        Err(e) => { return Err(e); },
    };
    let items = match require_list(&evaluated, Native::Filter, 2) {
        Ok(items) => items,
        Err(e) => { return Err(e); },
    };
    let ghost l = cx.local_variables@;
    let ghost g = old(globals)@;
    let ghost its = values_model(items@);
    proof {
        crate::value::lemma_values_model_index(items@);
        lemma_prepend_cat(Seq::<Value>::empty(), Seq::<Value>::empty(), sem_filter_from(fuel as nat, l, g, callable.model(), its, 0));
        assert(Seq::<Value>::empty() + Seq::<Value>::empty() =~= Seq::<Value>::empty());
        assert(values_model(Seq::<Any>::empty()) == Seq::<Value>::empty());
    }
    let mut result: Vec<Any> = Vec::new();
    let mut i: usize = 0;
    while i < items.len()
        invariant
            i <= items@.len(),
            globals@ == g,
            its.len() == items@.len(),
            forall|j: int| 0 <= j < items@.len() ==> #[trigger] its[j] == items@[j].model(),
            sem_filter_from(fuel as nat, l, g, callable.model(), its, 0)
                == prepend(values_model(result@), sem_filter_from(fuel as nat, l, g, callable.model(), its, i as int)),
        decreases items@.len() - i,
    {
        let mut one: Vec<Any> = Vec::with_capacity(1);
        one.push(items[i].make_static());
        proof {
            crate::value::lemma_values_model_index(one@);
            assert(values_model(one@) =~= seq![its[i as int]]);
        }
        let keep = match callable.call(cx, globals, fuel, &one) {
            Ok(Any::Primitive(DataType::Boolean(b))) => b,
            Ok(other) => {
                return Err(InterpreterError::NativeError(NativeFnError::InvalidType { got: Any::kind(&other) }));
            },
            Err(e) => { return Err(e); },
        };
        if keep {
            let x = items[i].make_static();
            proof {
                crate::value::lemma_values_model_push(result@, x);
                lemma_push_cat(values_model(result@), x.model());
                lemma_prepend_cat(values_model(result@), seq![x.model()],
                    sem_filter_from(fuel as nat, l, g, callable.model(), its, i + 1));
            }
            result.push(x);
        } else {
            proof {
                lemma_prepend_cat(values_model(result@), Seq::<Value>::empty(),
                    sem_filter_from(fuel as nat, l, g, callable.model(), its, i + 1));
                assert(values_model(result@) + Seq::<Value>::empty() =~= values_model(result@));
            }
        }
        i = i + 1;
    }
    proof {
        lemma_prepend_cat(values_model(result@), Seq::<Value>::empty(), Ok(Seq::empty()));
    }
    Ok(list_value(result))
}

/// `(foldl f init list)` and `(foldr f init list)`: `f` applied to the
/// accumulator and each element, from the left or from the right.
#[verifier::loop_isolation(false)]
#[verifier::rlimit(60)]
pub fn fold_with(cx: &Context, globals: &mut OwnedStorage, fuel: usize, args: &Vec<AnyEval>, reverse: bool) -> (r: Result<Any, InterpreterError>)
    ensures
        final(globals)@ == old(globals)@,
        outcome(r) == sem_fold(fuel as nat, cx.local_variables@, old(globals)@, terms_model(args@), reverse),
    decreases fuel, 4nat,
{
    proof {
        lemma_terms_model_index(args@);
    }
    if args.len() != 3 {
        return arity_mismatch(3, args.len());
    }
    let f = if reverse { Native::Foldr } else { Native::Foldl };
    let mut acc = match eval_arg(cx, globals, fuel, &args[1]) {
        Ok(v) => v,
        Err(e) => { return Err(e); },
    };
    let evaluated = match eval_arg(cx, globals, fuel, &args[2]) {
        Ok(v) => v,
        Err(e) => { return Err(e); },
    };
    let items = match require_list(&evaluated, f, 3) {
        Ok(items) => items,
        Err(e) => { return Err(e); },
    };
    let callable = match callable_for(cx, globals, &args[0], f, 1) {
        Ok(c) => c,
        Err(e) => { return Err(e); },
    };
    match callable.arity() {
        Some(a) => {
            if a != 2 {
                return Err(InterpreterError::NativeError(NativeFnError::ArityMismatch { expected: 2, got: a }));
            }
        },
        None => {},
    }
    let ghost l = cx.local_variables@;
    let ghost g = old(globals)@;
    let ghost its = values_model(items@);
    let ghost init = acc.model();
    proof {
        crate::value::lemma_values_model_index(items@);
    }
    let n = items.len();
    let mut i: usize = 0;
    while i < n
        invariant
            i <= n,
            n == items@.len(),
            globals@ == g,
            its.len() == items@.len(),
            forall|j: int| 0 <= j < items@.len() ==> #[trigger] its[j] == items@[j].model(),
            sem_fold_from(fuel as nat, l, g, callable.model(), init, its, 0, reverse)
                == sem_fold_from(fuel as nat, l, g, callable.model(), acc.model(), its, i as int, reverse),
        decreases n - i,
    {
        let k = if reverse { n - 1 - i } else { i };
        let ghost am = acc.model();
        let mut pair: Vec<Any> = Vec::with_capacity(2);
        pair.push(acc);
        pair.push(items[k].make_static());
        proof {
            crate::value::lemma_values_model_index(pair@);
            assert(values_model(pair@) =~= seq![am, its[k as int]]);
        }
        acc = match callable.call(cx, globals, fuel, &pair) {
            Ok(v) => v,
            Err(e) => { return Err(e); },
        };
        i = i + 1;
    }
    Ok(acc)
}

/// `(length list)`.
pub fn len(cx: &Context, globals: &mut OwnedStorage, fuel: usize, args: &Vec<AnyEval>) -> (r: Result<Any, InterpreterError>)
    ensures
        final(globals)@ == old(globals)@,
        outcome(r) == sem_length(fuel as nat, cx.local_variables@, old(globals)@, terms_model(args@)),
    decreases fuel, 4nat,
{
    proof {
        lemma_terms_model_index(args@);
    }
    if args.len() != 1 {
        return arity_mismatch(1, args.len());
    }
    let v = match eval_arg(cx, globals, fuel, &args[0]) {
        Ok(v) => v,
        Err(e) => { return Err(e); },
    };
    match require_list(&v, Native::Length, 1) {
        Ok(items) => {
            proof {
                crate::value::lemma_values_model_index(items@);
            }
            let r = length_of(&items);
            assert(list_items(v.model()) is Some);
            r
        },
        Err(e) => Err(e),
    }
}

/// `(list-ref list index)`.
pub fn list_ref(cx: &Context, globals: &mut OwnedStorage, fuel: usize, args: &Vec<AnyEval>) -> (r: Result<Any, InterpreterError>)
    ensures
        final(globals)@ == old(globals)@,
        outcome(r) == sem_list_ref(fuel as nat, cx.local_variables@, old(globals)@, terms_model(args@)),
    decreases fuel, 4nat,
{
    proof {
        lemma_terms_model_index(args@);
    }
    if args.len() != 2 {
        return arity_mismatch(2, args.len());
    }
    let v = match eval_arg(cx, globals, fuel, &args[0]) {
        Ok(v) => v,
        Err(e) => { return Err(e); },
    };
    let items = match require_list(&v, Native::ListRef, 1) {
        Ok(items) => items,
        Err(e) => { return Err(e); },
    };
    let iv = match eval_arg(cx, globals, fuel, &args[1]) {
        Ok(v) => v,
        Err(e) => { return Err(e); },
    };
    proof {
        crate::value::lemma_values_model_index(items@);
    }
    match non_negative_int(&iv, Native::ListRef, 2) {
        Ok(index) => {
            let ghost s = values_model(items@);
            let r = list_ref_of(items, index);
            assert(list_items(v.model()) == Some(s));
            r
        },
        Err(e) => Err(e),
    }
}

/// `(list-tail list k)`: the list after its first `k` elements.
pub fn list_tail(cx: &Context, globals: &mut OwnedStorage, fuel: usize, args: &Vec<AnyEval>) -> (r: Result<Any, InterpreterError>)
    ensures
        final(globals)@ == old(globals)@,
        outcome(r) == sem_list_tail(fuel as nat, cx.local_variables@, old(globals)@, terms_model(args@)),
    decreases fuel, 4nat,
{
    proof {
        lemma_terms_model_index(args@);
    }
    if args.len() != 2 {
        return arity_mismatch(2, args.len());
    }
    let v = match eval_arg(cx, globals, fuel, &args[0]) {
        Ok(v) => v,
        Err(e) => { return Err(e); },
    };
    let items = match require_list(&v, Native::ListTail, 1) {
        Ok(items) => items,
        Err(e) => { return Err(e); },
    };
    proof {
        crate::value::lemma_values_model_index(items@);
    }
    let iv = match eval_arg(cx, globals, fuel, &args[1]) {
        Ok(v) => v,
        Err(e) => { return Err(e); },
    };
    match non_negative_int(&iv, Native::ListTail, 2) {
        Ok(index) => match list_tail_of(items, index) {
            Ok(tail) => Ok(list_value(tail)),
            Err(e) => Err(e),
        },
        Err(e) => Err(e),
    }
}

/// `(append list list ...)`: the lists joined in order.
#[verifier::loop_isolation(false)]
pub fn append(cx: &Context, globals: &mut OwnedStorage, fuel: usize, args: &Vec<AnyEval>) -> (r: Result<Any, InterpreterError>)
    ensures
        final(globals)@ == old(globals)@,
        outcome(r) == sem_append(fuel as nat, cx.local_variables@, old(globals)@, terms_model(args@)),
    decreases fuel, 4nat,
{
    proof {
        lemma_terms_model_index(args@);
    }
    if args.len() < 2 {
        return arity_mismatch(2, args.len());
    }
    let ghost l = cx.local_variables@;
    let ghost g = old(globals)@;
    let ghost ts = terms_model(args@);
    let mut joined: Vec<Any> = Vec::new();
    proof {
        lemma_prepend_cat(Seq::<Value>::empty(), Seq::<Value>::empty(), sem_append_from(fuel as nat, l, g, ts, 0));
        assert(Seq::<Value>::empty() + Seq::<Value>::empty() =~= Seq::<Value>::empty());
        assert(values_model(joined@) == Seq::<Value>::empty());
    }
    let mut i: usize = 0;
    while i < args.len()
        invariant
            i <= args@.len(),
            globals@ == g,
            ts == terms_model(args@),
            ts.len() == args@.len(),
            forall|j: int| 0 <= j < args@.len() ==> #[trigger] ts[j] == args@[j].model(),
            sem_append_from(fuel as nat, l, g, ts, 0)
                == prepend(values_model(joined@), sem_append_from(fuel as nat, l, g, ts, i as int)),
        decreases args@.len() - i,
    {
        let v = match eval_arg(cx, globals, fuel, &args[i]) {
            Ok(v) => v,
            Err(e) => { return Err(e); },
        };
        let items = match require_list(&v, Native::Append, i + 1) {
            Ok(items) => items,
            Err(e) => { return Err(e); },
        };
        proof {
            lemma_prepend_cat(values_model(joined@), values_model(items@), sem_append_from(fuel as nat, l, g, ts, i + 1));
        }
        joined = append_of(joined, items);
        i = i + 1;
    }
    proof {
        lemma_prepend_cat(values_model(joined@), Seq::<Value>::empty(), Ok(Seq::empty()));
    }
    Ok(list_value(joined))
}

/// `(reverse list)`.
pub fn reverse(cx: &Context, globals: &mut OwnedStorage, fuel: usize, args: &Vec<AnyEval>) -> (r: Result<Any, InterpreterError>)
    ensures
        final(globals)@ == old(globals)@,
        outcome(r) == sem_reverse(fuel as nat, cx.local_variables@, old(globals)@, terms_model(args@)),
    decreases fuel, 4nat,
{
    proof {
        lemma_terms_model_index(args@);
    }
    if args.len() != 1 {
        return arity_mismatch(1, args.len());
    }
    let v = match eval_arg(cx, globals, fuel, &args[0]) {
        Ok(v) => v,
        Err(e) => { return Err(e); },
    };
    match require_list(&v, Native::Reverse, 1) {
        Ok(items) => {
            assert(list_items(v.model()) == Some(values_model(items@)));
            Ok(list_value(reverse_of(items)))
        },
        Err(e) => Err(e),
    }
}

/// Whether a value counts as true: everything but `#f` does.
pub open spec fn truthy(v: Value) -> bool {
    v != Value::Prim(Lit::Bool(false))
}

/// Evaluates a condition; gives its value and whether it is true.
pub fn boolean_value(cx: &Context, globals: &mut OwnedStorage, fuel: usize, arg: &AnyEval) -> (r: Result<(Any, bool), InterpreterError>)
    ensures
        final(globals)@ == old(globals)@,
        match sem_eval(fuel as nat, cx.local_variables@, old(globals)@, arg.model()) {
            Ok(v) => r is Ok && r->Ok_0.0.model() == v && r->Ok_0.1 == truthy(v),
            Err(e) => r is Err && err_model(r->Err_0) == e,
        },
    decreases fuel, 3nat,
{
    match eval_arg(cx, globals, fuel, arg) {
        Ok(v) => {
            let b = match &v {
                Any::Primitive(DataType::Boolean(false)) => false,
                _ => true,
            };
            Ok((v, b))
        },
        Err(e) => Err(e),
    }
}

/// `(if test then else)`: evaluates only the branch that the test picks.
pub fn if_form(cx: &Context, globals: &mut OwnedStorage, fuel: usize, args: &Vec<AnyEval>) -> (r: Result<Any, InterpreterError>)
    ensures
        final(globals)@ == old(globals)@,
        outcome(r) == sem_if(fuel as nat, cx.local_variables@, old(globals)@, terms_model(args@)),
    decreases fuel, 4nat,
{
    proof {
        lemma_terms_model_index(args@);
    }
    if args.len() != 3 {
        return arity_mismatch(3, args.len());
    }
    let b = match boolean_value(cx, globals, fuel, &args[0]) {
        Ok((_, b)) => b,
        Err(e) => { return Err(e); },
    };
    if b {
        eval_arg(cx, globals, fuel, &args[1])
    } else {
        eval_arg(cx, globals, fuel, &args[2])
    }
}

/// `(cond [test body...] ...)`: the body of the first clause whose test is
/// true (`else` always is); void when none is.
#[verifier::loop_isolation(false)]
pub fn cond(cx: &Context, globals: &mut OwnedStorage, fuel: usize, args: &Vec<AnyEval>) -> (r: Result<Any, InterpreterError>)
    ensures
        final(globals)@ == old(globals)@,
        outcome(r) == sem_cond(fuel as nat, cx.local_variables@, old(globals)@, terms_model(args@)),
    decreases fuel, 4nat,
{
    proof {
        lemma_terms_model_index(args@);
    }
    if args.len() < 1 {
        return arity_mismatch(1, args.len());
    }
    let ghost l = cx.local_variables@;
    let ghost g = old(globals)@;
    let ghost ts = terms_model(args@);
    let mut i: usize = 0;
    while i < args.len()
        invariant
            i <= args@.len(),
            globals@ == g,
            ts == terms_model(args@),
            ts.len() == args@.len(),
            forall|j: int| 0 <= j < args@.len() ==> #[trigger] ts[j] == args@[j].model(),
            sem_cond_from(fuel as nat, l, g, ts, 0) == sem_cond_from(fuel as nat, l, g, ts, i as int),
        decreases args@.len() - i,
    {
        let e = match &args[i] {
            AnyEval::Expression(e) => e,
            _ => { return Err(InterpreterError::InvalidExpression); },
        };
        assert(ts[i as int] == Term::Tree(e.node_model(), terms_model(e.children@)));
        let test = match &e.node {
            Some(n) => &**n,
            None => { return Err(InterpreterError::InvalidExpression); },
        };
        assert(e.node_model() == Some(Box::new(test.model())));
        proof {
            lemma_terms_model_index(e.children@);
        }
        if e.children.len() == 0 {
            return Err(InterpreterError::InvalidExpression);
        }
        let is_else = match test {
            AnyEval::Ident(s) => is_named(s, "else"),
            _ => false,
        };
        let chosen = if is_else {
            true
        } else {
            match boolean_value(cx, globals, fuel, test) {
                Ok((_, b)) => b,
                Err(e) => { return Err(e); },
            }
        };
        if chosen {
            let ghost body = terms_model(e.children@);
            let mut last = Any::Void;
            let mut k: usize = 0;
            while k < e.children.len()
                invariant
                    k <= e.children@.len(),
                    globals@ == g,
                    body == terms_model(e.children@),
                    body.len() == e.children@.len(),
                    forall|j: int| 0 <= j < e.children@.len() ==> #[trigger] body[j] == e.children@[j].model(),
                    sem_seq(fuel as nat, l, g, body, 0, Value::Void) == sem_seq(fuel as nat, l, g, body, k as int, last.model()),
                decreases e.children@.len() - k,
            {
                last = match eval_arg(cx, globals, fuel, &e.children[k]) {
                    Ok(v) => v,
                    Err(err) => { return Err(err); },
                };
                k = k + 1;
            }
            return Ok(last);
        }
        i = i + 1;
    }
    Ok(Any::Void)
}

/// `(and a ...)`: `#f` at the first false argument, else the last value; `#t` when empty.
#[verifier::loop_isolation(false)]
pub fn and(cx: &Context, globals: &mut OwnedStorage, fuel: usize, args: &Vec<AnyEval>) -> (r: Result<Any, InterpreterError>)
    ensures
        final(globals)@ == old(globals)@,
        outcome(r) == sem_and(fuel as nat, cx.local_variables@, old(globals)@, terms_model(args@), 0, Value::Prim(Lit::Bool(true))),
    decreases fuel, 4nat,
{
    proof {
        lemma_terms_model_index(args@);
    }
    let ghost l = cx.local_variables@;
    let ghost g = old(globals)@;
    let ghost ts = terms_model(args@);
    let mut value = Any::Primitive(DataType::Boolean(true));
    let mut i: usize = 0;
    while i < args.len()
        invariant
            i <= args@.len(),
            globals@ == g,
            ts == terms_model(args@),
            ts.len() == args@.len(),
            forall|j: int| 0 <= j < args@.len() ==> #[trigger] ts[j] == args@[j].model(),
            sem_and(fuel as nat, l, g, ts, 0, Value::Prim(Lit::Bool(true)))
                == sem_and(fuel as nat, l, g, ts, i as int, value.model()),
        decreases args@.len() - i,
    {
        let (item, b) = match boolean_value(cx, globals, fuel, &args[i]) {
            Ok(p) => p,
            Err(e) => { return Err(e); },
        };
        if !b {
            return Ok(Any::Primitive(DataType::Boolean(false)));
        }
        value = item;
        i = i + 1;
    }
    Ok(value)
}

/// `(or a ...)`: the first true value, else `#f`.
#[verifier::loop_isolation(false)]
pub fn or(cx: &Context, globals: &mut OwnedStorage, fuel: usize, args: &Vec<AnyEval>) -> (r: Result<Any, InterpreterError>)
    ensures
        final(globals)@ == old(globals)@,
        outcome(r) == sem_or(fuel as nat, cx.local_variables@, old(globals)@, terms_model(args@), 0),
    decreases fuel, 4nat,
{
    proof {
        lemma_terms_model_index(args@);
    }
    let ghost l = cx.local_variables@;
    let ghost g = old(globals)@;
    let ghost ts = terms_model(args@);
    let mut i: usize = 0;
    while i < args.len()
        invariant
            i <= args@.len(),
            globals@ == g,
            ts == terms_model(args@),
            ts.len() == args@.len(),
            forall|j: int| 0 <= j < args@.len() ==> #[trigger] ts[j] == args@[j].model(),
            sem_or(fuel as nat, l, g, ts, 0) == sem_or(fuel as nat, l, g, ts, i as int),
        decreases args@.len() - i,
    {
        let (item, b) = match boolean_value(cx, globals, fuel, &args[i]) {
            Ok(p) => p,
            Err(e) => { return Err(e); },
        };
        if b {
            return Ok(item);
        }
        i = i + 1;
    }
    Ok(Any::Primitive(DataType::Boolean(false)))
}

/// `(not a)`: `#t` exactly when `a` is `#f`.
pub fn not(cx: &Context, globals: &mut OwnedStorage, fuel: usize, args: &Vec<AnyEval>) -> (r: Result<Any, InterpreterError>)
    ensures
        final(globals)@ == old(globals)@,
        outcome(r) == sem_not(fuel as nat, cx.local_variables@, old(globals)@, terms_model(args@)),
    decreases fuel, 4nat,
{
    proof {
        lemma_terms_model_index(args@);
    }
    if args.len() != 1 {
        return arity_mismatch(1, args.len());
    }
    match boolean_value(cx, globals, fuel, &args[0]) {
        Ok((_, b)) => Ok(Any::Primitive(DataType::Boolean(!b))),
        Err(e) => Err(e),
    }
}

/// `(xor a b)`: the one true value when exactly one is true, else `#f`.
pub fn xor(cx: &Context, globals: &mut OwnedStorage, fuel: usize, args: &Vec<AnyEval>) -> (r: Result<Any, InterpreterError>)
    ensures
        final(globals)@ == old(globals)@,
        outcome(r) == sem_xor(fuel as nat, cx.local_variables@, old(globals)@, terms_model(args@)),
    decreases fuel, 4nat,
{
    proof {
        lemma_terms_model_index(args@);
    }
    if args.len() != 2 {
        return arity_mismatch(2, args.len());
    }
    let (first, a) = match boolean_value(cx, globals, fuel, &args[0]) {
        Ok(p) => p,
        Err(e) => { return Err(e); },
    };
    let (second, b) = match boolean_value(cx, globals, fuel, &args[1]) {
        Ok(p) => p,
        Err(e) => { return Err(e); },
    };
    if a && !b {
        Ok(first)
    } else if !a && b {
        Ok(second)
    } else {
        Ok(Any::Primitive(DataType::Boolean(false)))
    }
}

} // verus!
