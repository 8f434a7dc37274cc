//! Building user functions from `define` and `lambda` forms.
use vstd::prelude::*;
use crate::error::InterpreterError;
use crate::error::DeclaredFunctionError;
use crate::value::{
    AnyEval, EvalTree, FnModel, Function, FunctionBody, LambdaFunction, Term, names_model, terms_model, lemma_names_model_push, lemma_terms_model_index,
    lemma_terms_model_push,
};

verus! {

/// The names of a sequence of terms that are all identifiers.
pub open spec fn idents(cs: Seq<Term>) -> Option<Seq<Seq<char>>>
    decreases cs.len(),
{
    if cs.len() == 0 {
        Some(Seq::empty())
    } else {
        match (idents(cs.drop_last()), cs.last()) {
            (Some(a), Term::Ident(s)) => Some(a.push(s)),
            _ => None,
        }
    }
}

/// The names in a parameter list `(a b ...)`: its node, then its children.
pub open spec fn tree_idents(n: Option<Box<Term>>, cs: Seq<Term>) -> Option<Seq<Seq<char>>> {
    match n {
        None => idents(cs),
        Some(b) => match (*b, idents(cs)) {
            (Term::Ident(s), Some(rest)) => Some(seq![s] + rest),
            _ => None,
        },
    }
}

/// The function of `(define (name params...) body...)`: `n` and `cs` are the
/// parts of `(name params...)`.
pub open spec fn defined_function(n: Option<Box<Term>>, cs: Seq<Term>, body: Seq<Term>) -> Option<FnModel> {
    match (n, idents(cs)) {
        (Some(b), Some(ps)) => match *b {
            Term::Ident(name) => Some(FnModel { name, params: ps, body, arity: Some(ps.len()) }),
            _ => None,
        },
        _ => None,
    }
}

/// The function of `(lambda (params...) body...)`, with the given name.
pub open spec fn lambda_model(name: Seq<char>, n: Option<Box<Term>>, cs: Seq<Term>) -> Option<FnModel> {
    if n == Some(Box::new(Term::Ident("lambda"@))) && cs.len() >= 2 {
        match cs[0] {
            Term::Tree(pn, pcs) => match tree_idents(pn, pcs) {
                Some(ps) => Some(FnModel { name, params: ps, body: cs.skip(1), arity: Some(ps.len()) }),
                None => None,
            },
            _ => None,
        }
    } else {
        None
    }
}

pub open spec fn invalid_function() -> InterpreterError {
    InterpreterError::DeclaredFnError(DeclaredFunctionError::InvalidExpression)
}

/// The names of terms that must all be identifiers.
fn idents_of(cs: &Vec<AnyEval>, out: &mut Vec<String>) -> (ok: bool)
    ensures
        ok == idents(terms_model(cs@)) is Some,
        ok ==> names_model(final(out)@) == names_model(old(out)@) + idents(terms_model(cs@)).unwrap(),
{
    let ghost start = out@;
    let mut i: usize = 0;
    while i < cs.len()
        invariant
            i <= cs@.len(),
            idents(terms_model(cs@.take(i as int))) is Some,
            names_model(out@) == names_model(start) + idents(terms_model(cs@.take(i as int))).unwrap(),
        decreases cs@.len() - i,
    {
        proof {
            lemma_terms_model_push(cs@.take(i as int), cs@[i as int]);
            assert(cs@.take(i as int).push(cs@[i as int]) =~= cs@.take(i + 1));
            assert(terms_model(cs@.take(i + 1)).drop_last() =~= terms_model(cs@.take(i as int)));
        }
        match &cs[i] {
            AnyEval::Ident(s) => {
                let ghost before = out@;
                out.push(s.clone());
                proof {
                    lemma_names_model_push(before, *s);
                    assert(names_model(out@) =~= names_model(start) + idents(terms_model(cs@.take(i + 1))).unwrap());
                }
            },
            _ => {
                proof {
                    lemma_none_idents(cs@, i as int + 1);
                }
                return false;
            },
        }
        i = i + 1;
    }
    assert(cs@.take(i as int) =~= cs@);
    true
}

proof fn lemma_none_idents(s: Seq<AnyEval>, k: int)
    requires
        0 <= k <= s.len(),
        idents(terms_model(s.take(k))) is None,
    ensures
        idents(terms_model(s)) is None,
    decreases s.len() - k,
{
    if k < s.len() {
        lemma_terms_model_push(s.take(k), s[k]);
        assert(s.take(k).push(s[k]) =~= s.take(k + 1));
        assert(terms_model(s.take(k + 1)).drop_last() =~= terms_model(s.take(k)));
        lemma_none_idents(s, k + 1);
    } else {
        assert(s.take(k) =~= s);
    }
}

impl EvalTree {
    /// The names of a parameter list `(a b ...)`; an error where one is not an identifier.
    pub fn ident_vec(&self) -> (r: Result<Vec<String>, InterpreterError>)
        ensures
            match tree_idents(self.node_model(), terms_model(self.children@)) {
                Some(ps) => r is Ok && names_model(r->Ok_0@) == ps,
                None => r == Err::<Vec<String>, InterpreterError>(invalid_function()),
            },
    {
        let mut out: Vec<String> = Vec::new();
        match &self.node {
            Some(n) => match &**n {
                AnyEval::Ident(s) => {
                    out.push(s.clone());
                    proof {
                        lemma_names_model_push(Seq::empty(), *s);
                        assert(Seq::<String>::empty().push(*s) =~= out@);
                    }
                },
                _ => {
                    return Err(InterpreterError::DeclaredFnError(DeclaredFunctionError::InvalidExpression));
                },
            },
            None => {},
        }
        let ghost first = names_model(out@);
        if idents_of(&self.children, &mut out) {
            proof {
                assert(first + idents(terms_model(self.children@)).unwrap() =~= names_model(out@));
                if self.node is None {
                    assert(first =~= Seq::<Seq<char>>::empty());
                }
            }
            Ok(out)
        } else {
            Err(InterpreterError::DeclaredFnError(DeclaredFunctionError::InvalidExpression))
        }
    }

    /// The function of a `(lambda (params...) body...)` tree.
    pub fn try_parse_lambda(&self) -> (r: Result<LambdaFunction, InterpreterError>)
        ensures
            match lambda_model(Seq::empty(), self.node_model(), terms_model(self.children@)) {
                Some(f) => r is Ok && r->Ok_0.body.model(Seq::empty(), r->Ok_0.arity) == f,
                None => r == Err::<LambdaFunction, InterpreterError>(invalid_function()),
            },
    {
        let empty = String::new();
        match Function::from_lambda(&empty, self) {
            Ok(f) => Ok(LambdaFunction { arity: f.arity, body: f.body }),
            Err(e) => Err(e),
        }
    }
}

/// Copies `v` from position `from` on.
fn copy_terms_from(v: &Vec<AnyEval>, from: usize) -> (r: Vec<AnyEval>)
    requires
        from <= v@.len(),
    ensures
        terms_model(r@) == terms_model(v@).skip(from as int),
{
    let mut out: Vec<AnyEval> = Vec::new();
    let mut i: usize = from;
    proof {
        lemma_terms_model_index(v@);
    }
    while i < v.len()
        invariant
            from <= i <= v@.len(),
            terms_model(v@).len() == v@.len(),
            forall|j: int| 0 <= j < v@.len() ==> #[trigger] terms_model(v@)[j] == v@[j].model(),
            terms_model(out@) == terms_model(v@).subrange(from as int, i as int),
        decreases v@.len() - i,
    {
        let c = v[i].make_static();
        proof {
            lemma_terms_model_push(out@, c);
            assert(terms_model(v@).subrange(from as int, i as int).push(c.model())
                =~= terms_model(v@).subrange(from as int, i + 1));
        }
        out.push(c);
        i = i + 1;
    }
    assert(terms_model(v@).subrange(from as int, i as int) =~= terms_model(v@).skip(from as int));
    out
}

impl Function {
    /// The function of `(define (name params...) body...)`: `left` is
    /// `(name params...)`, `right` holds `body...` from position `from` on.
    pub fn parse_from(left: &EvalTree, right: &Vec<AnyEval>, from: usize) -> (r: Result<Function, InterpreterError>)
        requires
            from <= right@.len(),
        ensures
            match defined_function(left.node_model(), terms_model(left.children@), terms_model(right@).skip(from as int)) {
                Some(f) => r is Ok && r->Ok_0.body.model(r->Ok_0.name@, r->Ok_0.arity) == f,
                None => r == Err::<Function, InterpreterError>(invalid_function()),
            },
    {
        let name = match &left.node {
            Some(n) => match &**n {
                AnyEval::Ident(s) => s.clone(),
                _ => {
                    return Err(InterpreterError::DeclaredFnError(DeclaredFunctionError::InvalidExpression));
                },
            },
            None => {
                return Err(InterpreterError::DeclaredFnError(DeclaredFunctionError::InvalidExpression));
            },
        };
        let mut args: Vec<String> = Vec::new();
        if !idents_of(&left.children, &mut args) {
            return Err(InterpreterError::DeclaredFnError(DeclaredFunctionError::InvalidExpression));
        }
        assert(Seq::<Seq<char>>::empty() + idents(terms_model(left.children@)).unwrap()
            =~= idents(terms_model(left.children@)).unwrap());
        proof {
            crate::value::lemma_names_model_index(args@);
        }
        let arity = args.len();
        let body = copy_terms_from(right, from);
        Ok(Function { name, body: FunctionBody { args, body }, arity: Some(arity) })
    }

    /// The function named `name` of a `(lambda (params...) body...)` tree.
    pub fn from_lambda(name: &String, tree: &EvalTree) -> (r: Result<Function, InterpreterError>)
        ensures
            match lambda_model(name@, tree.node_model(), terms_model(tree.children@)) {
                Some(f) => r is Ok && r->Ok_0.body.model(r->Ok_0.name@, r->Ok_0.arity) == f,
                None => r == Err::<Function, InterpreterError>(invalid_function()),
            },
    {
        let is_lambda = match &tree.node {
            Some(n) => match &**n {
                AnyEval::Ident(s) => {
                    assert(tree.node_model() == Some(Box::new(Term::Ident(s@))));
                    crate::native::is_named(s, "lambda")
                },
                _ => false,
            },
            None => false,
        };
        proof {
            lemma_terms_model_index(tree.children@);
        }
        if !is_lambda || tree.children.len() < 2 {
            return Err(InterpreterError::DeclaredFnError(DeclaredFunctionError::InvalidExpression));
        }
        let params = match &tree.children[0] {
            AnyEval::Expression(p) => match p.ident_vec() {
                Ok(v) => v,
                Err(e) => {
                    return Err(e);
                },
            },
            _ => {
                return Err(InterpreterError::DeclaredFnError(DeclaredFunctionError::InvalidExpression));
            },
        };
        proof {
            crate::value::lemma_names_model_index(params@);
        }
        let arity = params.len();
        let body = copy_terms_from(&tree.children, 1);
        Ok(Function { name: name.clone(), body: FunctionBody { args: params, body }, arity: Some(arity) })
    }
}

} // verus!
