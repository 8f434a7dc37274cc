//! Parameter substitution into user function bodies.
use vstd::prelude::*;
use crate::convert::{term_of_expr, term_of_value};
use crate::expr::{Expr, Tree, exprs_model, lemma_exprs_model_push};
use crate::expr::ExprModel;
use crate::value::{
    Any, AnyEval, EvalTree, FunctionBody, Term, Value, names_model, terms_model,
    lemma_names_model_index, lemma_terms_model_push, lemma_values_model_index, values_model,
};
use crate::vars::VarsStorage;

verus! {

/// `t` with each identifier bound in `m` replaced by the term of its value;
/// quoted terms are left as they are.
pub open spec fn subst(t: Term, m: Map<Seq<char>, Value>) -> Term
    decreases t,
{
    match t {
        Term::Ident(s) => if m.contains_key(s) {
            term_of_value(m[s])
        } else {
            t
        },
        Term::Tree(n, cs) => Term::Tree(
            match n {
                Some(b) => Some(Box::new(subst(*b, m))),
                None => None,
            },
            subst_all(cs, m),
        ),
        _ => t,
    }
}

pub open spec fn subst_all(s: Seq<Term>, m: Map<Seq<char>, Value>) -> Seq<Term>
    decreases s,
{
    if s.len() == 0 {
        Seq::empty()
    } else {
        subst_all(s.drop_last(), m).push(subst(s.last(), m))
    }
}

/// Parameters bound to arguments pairwise; a later parameter of the same name wins.
pub open spec fn param_map(params: Seq<Seq<char>>, args: Seq<Value>) -> Map<Seq<char>, Value>
    decreases params.len(),
{
    if params.len() == 0 || args.len() == 0 {
        Map::empty()
    } else {
        let n = if params.len() < args.len() { params.len() } else { args.len() };
        param_map(params.take(n - 1), args.take(n - 1)).insert(params[n - 1], args[n - 1])
    }
}

proof fn lemma_subst_all_push(s: Seq<Term>, x: Term, m: Map<Seq<char>, Value>)
    ensures
        subst_all(s.push(x), m) == subst_all(s, m).push(subst(x, m)),
{
    assert(s.push(x).drop_last() =~= s);
}

impl FunctionBody {
    /// Replaces the identifiers bound in `vars` inside `item`.
    pub fn substitute_needed(item: &AnyEval, vars: &VarsStorage) -> (r: AnyEval)
        ensures
            r.model() == subst(item.model(), vars@),
        decreases item,
    {
        match item {
            AnyEval::Ident(i) => match vars.get(i) {
                Some(v) => AnyEval::from_any(v),
                None => AnyEval::Ident(i.clone()),
            },
            AnyEval::Expression(e) => {
                let t = Self::substitute_tree(&**e, vars);
                AnyEval::Expression(Box::new(t))
            },
            other => other.make_static(),
        }
    }

    fn substitute_tree(e: &EvalTree, vars: &VarsStorage) -> (r: EvalTree)
        ensures
            r.node_model() == match e.node_model() {
                Some(b) => Some(Box::new(subst(*b, vars@))),
                None => None,
            },
            terms_model(r.children@) == subst_all(terms_model(e.children@), vars@),
        decreases e,
    {
        let node = match &e.node {
            Some(n) => Some(Box::new(Self::substitute_needed(&**n, vars))),
            None => None,
        };
        let mut children: Vec<AnyEval> = Vec::with_capacity(e.children.len());
        let mut i: usize = 0;
        while i < e.children.len()
            invariant
                i <= e.children@.len(),
                terms_model(children@) == subst_all(terms_model(e.children@.take(i as int)), vars@),
            decreases e.children@.len() - i,
        {
            let c = Self::substitute_needed(&e.children[i], vars);
            proof {
                lemma_terms_model_push(children@, c);
                lemma_terms_model_push(e.children@.take(i as int), e.children@[i as int]);
                lemma_subst_all_push(terms_model(e.children@.take(i as int)), e.children@[i as int].model(), vars@);
                assert(e.children@.take(i as int).push(e.children@[i as int]) =~= e.children@.take(i + 1));
            }
            children.push(c);
            i = i + 1;
        }
        assert(e.children@.take(i as int) =~= e.children@);
        EvalTree { node, children }
    }

    /// The body with each parameter replaced by its argument.
    pub fn prepare(&self, args: &Vec<Any>) -> (r: Vec<AnyEval>)
        ensures
            terms_model(r@) == subst_all(terms_model(self.body@),
                param_map(names_model(self.args@), values_model(args@))),
    {
        let ghost params = names_model(self.args@);
        let ghost vals = values_model(args@);
        proof {
            lemma_names_model_index(self.args@);
            lemma_values_model_index(args@);
        }
        let n: usize = if self.args.len() < args.len() { self.args.len() } else { args.len() };
        let mut map = VarsStorage::with_capacity(n);
        let mut i: usize = 0;
        while i < n
            invariant
                i <= n,
                n <= self.args@.len(),
                n <= args@.len(),
                n == self.args@.len() || n == args@.len(),
                params == names_model(self.args@),
                vals == values_model(args@),
                params.len() == self.args@.len(),
                vals.len() == args@.len(),
                forall|j: int| 0 <= j < self.args@.len() ==> #[trigger] params[j] == self.args@[j]@,
                forall|j: int| 0 <= j < args@.len() ==> #[trigger] vals[j] == args@[j].model(),
                map@ == param_map(params.take(i as int), vals.take(i as int)),
            decreases n - i,
        {
            map.insert(&self.args[i], args[i].make_static());
            proof {
                let p = params.take(i + 1);
                let a = vals.take(i + 1);
                assert(p.take(i as int) =~= params.take(i as int));
                assert(a.take(i as int) =~= vals.take(i as int));
            }
            i = i + 1;
        }
        proof {
            lemma_param_map_trim(params, vals, n as int);
        }
        let mut out: Vec<AnyEval> = Vec::with_capacity(self.body.len());
        let mut k: usize = 0;
        while k < self.body.len()
            invariant
                k <= self.body@.len(),
                terms_model(out@) == subst_all(terms_model(self.body@.take(k as int)), map@),
            decreases self.body@.len() - k,
        {
            let c = Self::substitute_needed(&self.body[k], &map);
            proof {
                lemma_terms_model_push(out@, c);
                lemma_terms_model_push(self.body@.take(k as int), self.body@[k as int]);
                lemma_subst_all_push(terms_model(self.body@.take(k as int)), self.body@[k as int].model(), map@);
                assert(self.body@.take(k as int).push(self.body@[k as int]) =~= self.body@.take(k + 1));
            }
            out.push(c);
            k = k + 1;
        }
        assert(self.body@.take(k as int) =~= self.body@);
        out
    }
}

/// Binding the first `n` pairs is binding all of them, where `n` is the shorter length.
proof fn lemma_param_map_trim(params: Seq<Seq<char>>, args: Seq<Value>, n: int)
    requires
        n == if params.len() < args.len() { params.len() as int } else { args.len() as int },
    ensures
        param_map(params, args) == param_map(params.take(n), args.take(n)),
{
    if n > 0 {
        let p = params.take(n);
        let a = args.take(n);
        assert(p.take(n - 1) =~= params.take(n - 1));
        assert(a.take(n - 1) =~= args.take(n - 1));
    }
}


/// The evaluation term of a parsed term, where an identifier bound in `vars`
/// (at the top, not inside a tree) becomes the term of its value.
pub open spec fn bound_term(e: ExprModel, vars: Map<Seq<char>, Value>) -> Term {
    match e {
        ExprModel::Ident(s) => if vars.contains_key(s) { term_of_value(vars[s]) } else { term_of_expr(e) },
        _ => term_of_expr(e),
    }
}

pub open spec fn bound_terms(s: Seq<ExprModel>, vars: Map<Seq<char>, Value>) -> Seq<Term>
    decreases s.len(),
{
    if s.len() == 0 {
        Seq::empty()
    } else {
        bound_terms(s.drop_last(), vars).push(bound_term(s.last(), vars))
    }
}

/// The evaluation term of `item`, an identifier bound in `vars` replaced by its value.
pub fn into_any(item: &Expr, vars: &VarsStorage) -> (r: AnyEval)
    ensures
        r.model() == bound_term(item.model(), vars@),
{
    match item {
        Expr::Ident(i) => match vars.get(i) {
            Some(v) => AnyEval::from_any(v),
            None => AnyEval::from_expr(item),
        },
        other => AnyEval::from_expr(other),
    }
}

impl EvalTree {
    /// The evaluation tree of a parsed tree, its node and operands passed through `into_any`.
    pub fn new(tree: &Tree, vars: &VarsStorage) -> (r: EvalTree)
        ensures
            r.node_model() == match tree.node_model() {
                Some(b) => Some(Box::new(bound_term(*b, vars@))),
                None => None,
            },
            terms_model(r.children@) == bound_terms(exprs_model(tree.children@), vars@),
    {
        let node = match &tree.node {
            Some(n) => Some(Box::new(into_any(&**n, vars))),
            None => None,
        };
        let mut children: Vec<AnyEval> = Vec::with_capacity(tree.children.len());
        let mut i: usize = 0;
        while i < tree.children.len()
            invariant
                i <= tree.children@.len(),
                terms_model(children@) == bound_terms(exprs_model(tree.children@.take(i as int)), vars@),
            decreases tree.children@.len() - i,
        {
            let c = into_any(&tree.children[i], vars);
            proof {
                lemma_terms_model_push(children@, c);
                lemma_exprs_model_push(tree.children@.take(i as int), tree.children@[i as int]);
                let s = exprs_model(tree.children@.take(i as int)).push(tree.children@[i as int].model());
                assert(s.drop_last() =~= exprs_model(tree.children@.take(i as int)));
                assert(tree.children@.take(i as int).push(tree.children@[i as int]) =~= tree.children@.take(i + 1));
            }
            children.push(c);
            i = i + 1;
        }
        assert(tree.children@.take(i as int) =~= tree.children@);
        EvalTree { node, children }
    }
}


/// Substitution keeps the number of terms.
pub proof fn lemma_subst_all_len(s: Seq<Term>, m: Map<Seq<char>, Value>)
    ensures
        subst_all(s, m).len() == s.len(),
    decreases s.len(),
{
    if s.len() > 0 {
        lemma_subst_all_len(s.drop_last(), m);
    }
}

} // verus!
