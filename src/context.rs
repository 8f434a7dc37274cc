//! The evaluation context and the tree-walking evaluator.
use vstd::prelude::*;
use crate::convert::value_of_term;
use crate::error::{DeclaredFunctionError, InterpreterError, Native};
use crate::native::{NativeStorage, call_native, native_of};
use crate::value::{
    Any, AnyEval, Composed, EvalTree, FnModel, Function, FunctionBody, LambdaFunction, Term, Value,
    names_model, terms_model, values_model, lemma_terms_model_index, lemma_values_model_index,
    lemma_values_model_push,
};
use crate::vars::{OwnedStorage, VarsStorage};
use crate::semantics::{CallableModel, with_binding, arity, err_model, lemma_prepend_cat, lemma_push_cat, outcome, prepend, sem_args, sem_binding, sem_body, sem_call, sem_declared, sem_eval, sem_tree};
use crate::native::binds;
use crate::body::{param_map, subst_all};
use crate::convert::term_of_value;

verus! {

/// Depth of nested calls that evaluation allows before it fails with `RecursionLimit`.
pub const MAX_DEPTH: usize = 400;

/// The value of `name`: the local table first, then the global one.
pub open spec fn lookup(locals: Map<Seq<char>, Value>, globals: Map<Seq<char>, Value>, name: Seq<char>) -> Option<Value> {
    if locals.contains_key(name) {
        Some(locals[name])
    } else if globals.contains_key(name) {
        Some(globals[name])
    } else {
        None
    }
}

/// The user function a value holds, if any.
pub open spec fn function_of(v: Option<Value>) -> Option<FnModel> {
    match v {
        Some(Value::Func(f)) => Some(f),
        Some(Value::Lambda(f)) => Some(f),
        _ => None,
    }
}

/// Whether a term is a call of `define`.
pub open spec fn is_define_call(t: Term) -> bool {
    match t {
        Term::Tree(Some(n), _) => *n == Term::Ident("define"@),
        _ => false,
    }
}

/// A frame of evaluation: its local table, and whether it is the root frame,
/// whose bindings go to the global table.
#[derive(Debug)]
pub struct Context {
    pub local_variables: VarsStorage,
    pub root: bool,
}

/// Nothing visible changed: the local table, the root flag and the global table.
pub open spec fn unchanged(c0: Context, c1: Context, g0: OwnedStorage, g1: OwnedStorage) -> bool {
    &&& c1.local_variables@ == c0.local_variables@
    &&& c1.root == c0.root
    &&& g1@ == g0@
}

impl Context {
    /// A root context: its local table is empty and its bindings go to the global table.
    pub fn new() -> (r: Context)
        ensures
            r.root,
            r.local_variables@ == Map::<Seq<char>, Value>::empty(),
    {
        Context { local_variables: VarsStorage::new(), root: true }
    }

    /// A child context for a nested call: a copy of the local table, bindings going to it.
    pub fn level_down(&self) -> (r: Context)
        ensures
            !r.root,
            r.local_variables@ == self.local_variables@,
    {
        Context { local_variables: self.local_variables.make_static(), root: false }
    }

    /// The value of `ident`, local bindings shadowing global ones.
    pub fn get_ident(&self, globals: &OwnedStorage, ident: &String) -> (r: Result<Any, InterpreterError>)
        ensures
            match lookup(self.local_variables@, globals@, ident@) {
                Some(v) => r is Ok && r->Ok_0.model() == v,
                None => r == Err::<Any, InterpreterError>(InterpreterError::UnknownIdentifier(*ident)),
            },
    {
        match self.local_variables.get(ident) {
            Some(v) => Ok(v.make_static()),
            None => match globals.get(ident) {
                Some(v) => Ok(v.make_static()),
                None => Err(InterpreterError::UnknownIdentifier(ident.clone())),
            },
        }
    }

    /// Binds `name`: in the global table from a root context, else in the local one.
    pub fn vars_insert(&mut self, globals: &mut OwnedStorage, name: &String, value: Any)
        ensures
            final(self).root == old(self).root,
            old(self).root ==> final(globals)@ == old(globals)@.insert(name@, value.model())
                && final(self).local_variables@ == old(self).local_variables@,
            !old(self).root ==> final(self).local_variables@ == old(self).local_variables@.insert(name@, value.model())
                && final(globals)@ == old(globals)@,
    {
        if self.root {
            globals.insert(name, value);
        } else {
            self.local_variables.insert(name, value);
        }
    }

    /// Evaluates a term.
    pub fn eval(&mut self, globals: &mut OwnedStorage, fuel: usize, expr: &AnyEval) -> (r: Result<Any, InterpreterError>)
        ensures
            final(self).root == old(self).root,
            outcome(r) == sem_eval(fuel as nat, old(self).local_variables@, old(globals)@, expr.model()),
            match sem_binding(fuel as nat, old(self).local_variables@, old(globals)@, expr.model()) {
                Some(b) => binds(*old(self), *final(self), *old(globals), *final(globals), b.0, b.1),
                None => unchanged(*old(self), *final(self), *old(globals), *final(globals)),
            },
        decreases fuel, 1nat,
    {
        match expr {
            AnyEval::Expression(e) => {
                let r = self.eval_tree(globals, fuel, &**e);
                r
            },
            AnyEval::Ident(i) => self.get_ident(globals, i),
            other => match Any::from_eval(other) {
                Some(v) => Ok(v),
                None => Err(InterpreterError::InvalidExpression),
            },
        }
    }

    /// Evaluates a call tree: its node names a native or a declared function,
    /// which gets the children as arguments.
    pub fn eval_tree(&mut self, globals: &mut OwnedStorage, fuel: usize, tree: &EvalTree) -> (r: Result<Any, InterpreterError>)
        ensures
            final(self).root == old(self).root,
            outcome(r) == sem_tree(fuel as nat, old(self).local_variables@, old(globals)@, tree.node_model(), terms_model(tree.children@)),
            match sem_binding(fuel as nat, old(self).local_variables@, old(globals)@, Term::Tree(tree.node_model(), terms_model(tree.children@))) {
                Some(b) => binds(*old(self), *final(self), *old(globals), *final(globals), b.0, b.1),
                None => unchanged(*old(self), *final(self), *old(globals), *final(globals)),
            },
        decreases fuel, 0nat,
    {
        let node = match &tree.node {
            Some(n) => &**n,
            None => {
                return Err(InterpreterError::MissingTreeNode);
            },
        };
        assert(tree.node_model() == Some(Box::new(node.model())));
        let fun = match node {
            AnyEval::Ident(i) => i,
            other => {
                return match Any::from_eval(other) {
                    Some(v) => Ok(v),
                    None => Err(InterpreterError::InvalidExpression),
                };
            },
        };
        if fuel == 0 {
            return Err(InterpreterError::RecursionLimit);
        }
        let storage = NativeStorage::new();
        match storage.get(fun) {
            Some(native) => call_native(self, globals, fuel - 1, native, &tree.children),
            None => self.call_declared(globals, fuel - 1, fun, &tree.children),
        }
    }

    /// Calls the user function bound to `fun`, with evaluated arguments, in a child context.
    pub fn call_declared(&mut self, globals: &mut OwnedStorage, fuel: usize, fun: &String, args: &Vec<AnyEval>) -> (r: Result<Any, InterpreterError>)
        ensures
            unchanged(*old(self), *final(self), *old(globals), *final(globals)),
            outcome(r) == sem_declared(fuel as nat, old(self).local_variables@, old(globals)@, fun@, terms_model(args@)),
        decreases fuel, 4nat,
    {
        proof {
            lemma_terms_model_index(args@);
        }
        let ghost fm = function_of(lookup(self.local_variables@, globals@, fun@));
        let value = match self.get_ident(globals, fun) {
            Ok(v) => v,
            Err(_) => {
                return Err(InterpreterError::UndefinedFunction(fun.clone()));
            },
        };
        let callable = match value {
            Any::Composed(c) => match *c {
                Composed::Function(f) => {
                    assert(fm == Some(f.body.model(f.name@, f.arity)));
                    Callable::Function(f)
                },
                Composed::Lambda(l) => {
                    assert(fm == Some(l.body.model(Seq::empty(), l.arity)));
                    Callable::Lambda(l)
                },
                _ => {
                    return Err(InterpreterError::UndefinedFunction(fun.clone()));
                },
            },
            _ => {
                return Err(InterpreterError::UndefinedFunction(fun.clone()));
            },
        };
        assert(fm is Some && fm.unwrap().arity == crate::value::opt_nat(callable.spec_arity()));
        match callable.arity() {
            Some(a) => {
                if a != args.len() {
                    return Err(InterpreterError::DeclaredFnError(
                        DeclaredFunctionError::ArityMismatch { expected: a, got: args.len() }));
                }
            },
            None => {},
        }
        let values = match eval_args(self, globals, fuel, args) {
            Ok(v) => v,
            Err(e) => {
                return Err(e);
            },
        };
        callable.call(self, globals, fuel, &values)
    }
}

/// Evaluates each term in its own child context, left to right; the first error wins.
#[verifier::loop_isolation(false)]
pub fn eval_args(cx: &Context, globals: &mut OwnedStorage, fuel: usize, args: &Vec<AnyEval>) -> (r: Result<Vec<Any>, InterpreterError>)
    ensures
        final(globals)@ == old(globals)@,
        match sem_args(fuel as nat, cx.local_variables@, old(globals)@, terms_model(args@), 0) {
            Ok(vs) => r is Ok && values_model(r->Ok_0@) == vs,
            Err(e) => r is Err && err_model(r->Err_0) == e,
        },
    decreases fuel, 2nat,
{
    let ghost l = cx.local_variables@;
    let ghost g = old(globals)@;
    let ghost ts = terms_model(args@);
    proof {
        lemma_terms_model_index(args@);
        lemma_prepend_cat(Seq::<Value>::empty(), Seq::<Value>::empty(), sem_args(fuel as nat, l, g, ts, 0));
        assert(Seq::<Value>::empty() + Seq::<Value>::empty() =~= Seq::<Value>::empty());
    }
    let mut out: Vec<Any> = Vec::with_capacity(args.len());
    assert(values_model(out@) == Seq::<Value>::empty());
    let mut i: usize = 0;
    while i < args.len()
        invariant
            i <= args@.len(),
            globals@ == g,
            ts == terms_model(args@),
            ts.len() == args@.len(),
            forall|j: int| 0 <= j < args@.len() ==> #[trigger] ts[j] == args@[j].model(),
            sem_args(fuel as nat, l, g, ts, 0) == prepend(values_model(out@), sem_args(fuel as nat, l, g, ts, i as int)),
        decreases args@.len() - i,
    {
        let mut sub = cx.level_down();
        match sub.eval(globals, fuel, &args[i]) {
            Ok(v) => {
                proof {
                    lemma_values_model_push(out@, v);
                    lemma_push_cat(values_model(out@), v.model());
                    lemma_prepend_cat(values_model(out@), seq![v.model()], sem_args(fuel as nat, l, g, ts, i + 1));
                }
                out.push(v);
            },
            Err(e) => {
                return Err(e);
            },
        }
        i = i + 1;
    }
    proof {
        lemma_prepend_cat(values_model(out@), Seq::<Value>::empty(), Ok(Seq::empty()));
    }
    Ok(out)
}

/// A function value that can be applied to evaluated arguments.
pub enum Callable {
    Lambda(LambdaFunction),
    Function(Function),
    Native(Native),
}

impl Callable {
    pub open spec fn model(&self) -> CallableModel {
        match self {
            Callable::Function(f) => CallableModel::Fn(f.body.model(f.name@, f.arity)),
            Callable::Lambda(l) => CallableModel::Fn(l.body.model(Seq::empty(), l.arity)),
            Callable::Native(k) => CallableModel::Native(*k),
        }
    }

    pub open spec fn spec_arity(&self) -> Option<usize> {
        match self {
            Callable::Function(f) => f.arity,
            Callable::Lambda(l) => l.arity,
            Callable::Native(_) => None,
        }
    }

    /// The declared number of parameters; none for natives, which check their own.
    pub fn arity(&self) -> (r: Option<usize>)
        ensures
            r == self.spec_arity(),
    {
        match self {
            Callable::Function(f) => f.arity,
            Callable::Lambda(l) => l.arity,
            Callable::Native(_) => None,
        }
    }

    /// Applies the function in a child context; a declared arity must match.
    #[verifier::rlimit(60)]
    pub fn call(&self, cx: &Context, globals: &mut OwnedStorage, fuel: usize, args: &Vec<Any>) -> (r: Result<Any, InterpreterError>)
        ensures
            final(globals)@ == old(globals)@,
            outcome(r) == sem_call(fuel as nat, cx.local_variables@, old(globals)@, self.model(), values_model(args@)),
        decreases fuel, 3nat,
    {
        proof {
            lemma_values_model_index(args@);
        }
        match self.arity() {
            Some(a) => {
                if a != args.len() {
                    return Err(InterpreterError::DeclaredFnError(
                        DeclaredFunctionError::ArityMismatch { expected: a, got: args.len() }));
                }
            },
            None => {},
        }
        match self {
            Callable::Lambda(l) => l.body.call(cx, globals, fuel, args),
            Callable::Function(f) => f.body.call(cx, globals, fuel, args),
            Callable::Native(n) => {
                if fuel == 0 {
                    return Err(InterpreterError::RecursionLimit);
                }
                let mut terms: Vec<AnyEval> = Vec::with_capacity(args.len());
                let mut i: usize = 0;
                while i < args.len()
                    invariant
                        i <= args@.len(),
                        terms@.len() == i,
                        forall|j: int| 0 <= j < i ==> #[trigger] terms@[j].model() == term_of_value(args@[j].model()),
                    decreases args@.len() - i,
                {
                    terms.push(AnyEval::from_any(&args[i]));
                    i = i + 1;
                }
                proof {
                    lemma_terms_model_index(terms@);
                    lemma_values_model_index(args@);
                    assert(terms_model(terms@) =~= values_model(args@).map_values(|v: Value| term_of_value(v)));
                }
                let mut sub = cx.level_down();
                call_native(&mut sub, globals, fuel - 1, *n, &terms)
            },
        }
    }
}

impl FunctionBody {
    /// Substitutes the arguments for the parameters, then evaluates the body
    /// in order in one child context; the value of the last term is returned.
    #[verifier::loop_isolation(false)]
    pub fn call(&self, cx: &Context, globals: &mut OwnedStorage, fuel: usize, args: &Vec<Any>) -> (r: Result<Any, InterpreterError>)
        ensures
            final(globals)@ == old(globals)@,
            outcome(r) == sem_body(fuel as nat, cx.local_variables@, old(globals)@,
                subst_all(terms_model(self.body@), param_map(names_model(self.args@), values_model(args@))),
                0, Value::Void),
        decreases fuel, 2nat,
    {
        let body = self.prepare(args);
        let ghost ts = terms_model(body@);
        let ghost g = old(globals)@;
        proof {
            lemma_terms_model_index(body@);
        }
        let mut sub = cx.level_down();
        let mut last = Any::Void;
        let mut i: usize = 0;
        while i < body.len()
            invariant
                i <= body@.len(),
                ts == terms_model(body@),
                ts.len() == body@.len(),
                forall|j: int| 0 <= j < body@.len() ==> #[trigger] ts[j] == body@[j].model(),
                !sub.root,
                globals@ == g,
                sem_body(fuel as nat, cx.local_variables@, g, ts, 0, Value::Void)
                    == sem_body(fuel as nat, sub.local_variables@, g, ts, i as int, last.model()),
            decreases body@.len() - i,
        {
            let ghost l0 = sub.local_variables@;
            let res = sub.eval(globals, fuel, &body[i]);
            proof {
                match sem_binding(fuel as nat, l0, g, ts[i as int]) {
                    Some(b) => {},
                    None => {},
                }
            }
            assert(globals@ == g);
            assert(sub.local_variables@ == with_binding(l0, sem_binding(fuel as nat, l0, g, ts[i as int])));
            match res {
                Ok(v) => {
                    last = v;
                },
                Err(e) => {
                    return Err(e);
                },
            }
            i = i + 1;
        }
        Ok(last)
    }
}

} // verus!
