//! An interpreter session: a program and the global table it fills.
use vstd::prelude::*;
use crate::ast::Ast;
use crate::context::{Context, MAX_DEPTH, function_of, is_define_call, lookup};
use crate::convert::{term_of_expr, value_of_term};
use crate::error::InterpreterError;
use crate::expr::Expr;
use crate::native::{NativeStorage, native_of};
use crate::value::{Any, AnyEval, Value};
use crate::vars::OwnedStorage;
use crate::expr::{ExprModel, exprs_model, lemma_exprs_model_index};
use crate::value::{values_model, lemma_values_model_push};
use crate::semantics::{err_model, lemma_prepend_cat, lemma_push_cat, outcome, prepend, sem_binding, sem_eval, sem_run, with_binding};

verus! {

/// A program and the global bindings of its session.
pub struct Interpreter {
    ast: Ast,
    vars: OwnedStorage,
}

impl Interpreter {
    pub closed spec fn globals(&self) -> Map<Seq<char>, Value> {
        self.vars@
    }

    /// The top-level forms, in order.
    pub closed spec fn program(&self) -> Seq<ExprModel> {
        exprs_model(self.ast.inner@)
    }

    /// A session with an empty global table.
    pub fn new(ast: Ast) -> (r: Interpreter)
        ensures
            r.globals() == Map::<Seq<char>, Value>::empty(),
    {
        Interpreter { ast, vars: OwnedStorage::new() }
    }

    /// A session that goes on with the bindings of an earlier one.
    pub fn with_vars(ast: Ast, vars: OwnedStorage) -> (r: Interpreter)
        ensures
            r.globals() == vars@,
    {
        Interpreter { ast, vars }
    }

    /// A root context of this session.
    pub fn context(&self) -> (r: Context)
        ensures
            r.root,
            r.local_variables@ == Map::<Seq<char>, Value>::empty(),
    {
        Context::new()
    }

    pub fn vars(&self) -> (r: &OwnedStorage)
        ensures
            r@ == self.globals(),
    {
        &self.vars
    }

    /// The global table, to hand to a later session.
    pub fn into_vars(self) -> (r: OwnedStorage)
        ensures
            r@ == self.globals(),
    {
        self.vars
    }

    pub fn ast(&self) -> &Ast {
        &self.ast
    }

    /// Whether `item` names a built-in function.
    pub fn is_native(&self, item: &String) -> (r: bool)
        ensures
            r == native_of(item@) is Some,
    {
        let storage = NativeStorage::new();
        storage.get(item).is_some()
    }

    /// Whether `item` is bound globally to a user function.
    pub fn is_declared_function(&self, item: &String) -> (r: bool)
        ensures
            r == function_of(lookup(Map::empty(), self.globals(), item@)) is Some,
    {
        match self.vars.get(item) {
            Some(Any::Composed(c)) => match &**c {
                crate::value::Composed::Function(_) => true,
                crate::value::Composed::Lambda(_) => true,
                _ => false,
            },
            _ => false,
        }
    }

    /// Evaluates one top-level form in a root context; only a `define` form
    /// changes the global table.
    pub fn eval_expr(&mut self, expr: &Expr) -> (r: Result<Any, InterpreterError>)
        ensures
            outcome(r) == sem_eval(MAX_DEPTH as nat, Map::empty(), old(self).globals(), term_of_expr(expr.model())),
            final(self).globals() == with_binding(old(self).globals(),
                sem_binding(MAX_DEPTH as nat, Map::empty(), old(self).globals(), term_of_expr(expr.model()))),
    {
        let term = AnyEval::from_expr(expr);
        let mut cx = Context::new();
        let r = cx.eval(&mut self.vars, MAX_DEPTH, &term);
        proof {
            match sem_binding(MAX_DEPTH as nat, Map::empty(), old(self).globals(), term_of_expr(expr.model())) {
                Some(b) => {},
                None => {},
            }
        }
        r
    }

    #[verifier::loop_isolation(false)]
    /// Evaluates the program's forms in order; the values of all of them, or the first error.
    pub fn run(&mut self) -> (r: Result<Vec<Any>, InterpreterError>)
        ensures
            match sem_run(MAX_DEPTH as nat, old(self).globals(), old(self).program(), 0) {
                Ok(vs) => r is Ok && values_model(r->Ok_0@) == vs,
                Err(e) => r is Err && err_model(r->Err_0) == e,
            },
    {
        let ghost es = self.program();
        proof {
            lemma_exprs_model_index(self.ast.inner@);
            lemma_prepend_cat(Seq::<Value>::empty(), Seq::<Value>::empty(), sem_run(MAX_DEPTH as nat, self.globals(), es, 0));
            assert(Seq::<Value>::empty() + Seq::<Value>::empty() =~= Seq::<Value>::empty());
        }
        let mut out: Vec<Any> = Vec::with_capacity(self.ast.inner.len());
        assert(values_model(out@) == Seq::<Value>::empty());
        let mut i: usize = 0;
        while i < self.ast.inner.len()
            invariant
                i <= self.ast.inner@.len(),
                self.ast == old(self).ast,
                es == exprs_model(self.ast.inner@),
                es.len() == self.ast.inner@.len(),
                forall|j: int| 0 <= j < self.ast.inner@.len() ==> #[trigger] es[j] == self.ast.inner@[j].model(),
                sem_run(MAX_DEPTH as nat, old(self).globals(), es, 0)
                    == prepend(values_model(out@), sem_run(MAX_DEPTH as nat, self.globals(), es, i as int)),
            decreases self.ast.inner@.len() - i,
        {
            let term = AnyEval::from_expr(&self.ast.inner[i]);
            let mut cx = Context::new();
            let ghost g0 = self.vars@;
            let res = cx.eval(&mut self.vars, MAX_DEPTH, &term);
            proof {
                match sem_binding(MAX_DEPTH as nat, Map::empty(), g0, term_of_expr(es[i as int])) {
                    Some(b) => {},
                    None => {},
                }
            }
            match res {
                Ok(v) => {
                    proof {
                        lemma_values_model_push(out@, v);
                        lemma_push_cat(values_model(out@), v.model());
                        lemma_prepend_cat(values_model(out@), seq![v.model()],
                            sem_run(MAX_DEPTH as nat, self.vars@, es, i + 1));
                    }
                    out.push(v);
                },
                Err(e) => {
                    return Err(e);
                },
            }
            i = i + 1;
        }
        proof {
            lemma_prepend_cat(values_model(out@), Seq::<Value>::empty(), Ok(Seq::empty()));
        }
        Ok(out)
    }
}

} // verus!
