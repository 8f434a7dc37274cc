//! Conversions between syntax (`Expr`), evaluation terms (`AnyEval`) and values (`Any`).
use vstd::prelude::*;
use crate::expr::{Expr, ExprModel, Tree, exprs_model, lemma_exprs_model_push};
use crate::value::{
    Any, AnyEval, EvalTree, Term, Value, terms_model, lemma_terms_model_push,
};

verus! {

/// The value of a parsed term: literals evaluate to themselves, every other
/// term is kept as unevaluated data.
pub open spec fn value_of_expr(e: ExprModel) -> Value {
    match e {
        ExprModel::Prim(p) => Value::Prim(p),
        _ => Value::Expr(e),
    }
}

/// The term that a value stands for, if it has one.
pub open spec fn expr_of_value(v: Value) -> Option<ExprModel> {
    match v {
        Value::Expr(e) => Some(e),
        Value::Prim(p) => Some(ExprModel::Prim(p)),
        _ => None,
    }
}

/// The evaluation term of a parsed term.
pub open spec fn term_of_expr(e: ExprModel) -> Term
    decreases e,
{
    match e {
        ExprModel::Ident(s) => Term::Ident(s),
        ExprModel::Prim(p) => Term::Prim(p),
        ExprModel::Paren(n, cs) => Term::Tree(
            match n {
                Some(b) => Some(Box::new(term_of_expr(*b))),
                None => None,
            },
            terms_of_exprs(cs),
        ),
        ExprModel::Quoted(q) => Term::Quoted(Box::new(term_of_expr(*q))),
    }
}

pub open spec fn terms_of_exprs(s: Seq<ExprModel>) -> Seq<Term>
    decreases s,
{
    if s.len() == 0 {
        Seq::empty()
    } else {
        terms_of_exprs(s.drop_last()).push(term_of_expr(s.last()))
    }
}

/// The evaluation term of a value.
pub open spec fn term_of_value(v: Value) -> Term {
    match v {
        Value::Prim(p) => Term::Prim(p),
        Value::Expr(e) => term_of_expr(e),
        Value::Void => Term::Void,
        _ => Term::Composed(v),
    }
}

/// The parsed term that an evaluation term stands for; none where a value
/// that has no syntax (a list, a function, void) occurs in it.
pub open spec fn expr_of_term(t: Term) -> Option<ExprModel>
    decreases t,
{
    match t {
        Term::Tree(n, cs) => {
            let node: Option<Option<Box<ExprModel>>> = match n {
                Some(b) => match expr_of_term(*b) {
                    Some(e) => Some(Some(Box::new(e))),
                    None => None,
                },
                None => Some(None),
            };
            match (node, exprs_of_terms(cs)) {
                (Some(nd), Some(es)) => Some(ExprModel::Paren(nd, es)),
                _ => None,
            }
        },
        Term::Ident(s) => Some(ExprModel::Ident(s)),
        Term::Quoted(q) => match expr_of_term(*q) {
            Some(e) => Some(ExprModel::Quoted(Box::new(e))),
            None => None,
        },
        Term::Prim(p) => Some(ExprModel::Prim(p)),
        _ => None,
    }
}

pub open spec fn exprs_of_terms(s: Seq<Term>) -> Option<Seq<ExprModel>>
    decreases s,
{
    if s.len() == 0 {
        Some(Seq::empty())
    } else {
        match (exprs_of_terms(s.drop_last()), expr_of_term(s.last())) {
            (Some(a), Some(b)) => Some(a.push(b)),
            _ => None,
        }
    }
}

/// The value of an evaluation term that needs no further work, if it has one.
pub open spec fn value_of_term(t: Term) -> Option<Value> {
    match t {
        Term::Prim(p) => Some(Value::Prim(p)),
        Term::Composed(v) => Some(v),
        Term::Void => Some(Value::Void),
        _ => match expr_of_term(t) {
            Some(e) => Some(Value::Expr(e)),
            None => None,
        },
    }
}

proof fn lemma_terms_of_exprs_push(s: Seq<ExprModel>, x: ExprModel)
    ensures
        terms_of_exprs(s.push(x)) == terms_of_exprs(s).push(term_of_expr(x)),
{
    assert(s.push(x).drop_last() =~= s);
}

proof fn lemma_exprs_of_terms_push(s: Seq<Term>, x: Term)
    ensures
        exprs_of_terms(s.push(x)) == match (exprs_of_terms(s), expr_of_term(x)) {
            (Some(a), Some(b)) => Some(a.push(b)),
            _ => None,
        },
{
    assert(s.push(x).drop_last() =~= s);
}

proof fn lemma_take_push<A>(s: Seq<A>, i: int)
    requires
        0 <= i < s.len(),
    ensures
        s.take(i).push(s[i]) == s.take(i + 1),
{
    assert(s.take(i).push(s[i]) =~= s.take(i + 1));
}

impl Any {
    /// The value of a parsed term (literals self-evaluate).
    pub fn from_expr(value: Expr) -> (r: Any)
        ensures
            r.model() == value_of_expr(value.model()),
    {
        match value {
            Expr::Primitive(p) => Any::Primitive(p),
            other => Any::Expression(other),
        }
    }

    /// The term this value stands for; none for composed values and void.
    pub fn into_expr(self) -> (r: Option<Expr>)
        ensures
            match r {
                Some(e) => expr_of_value(self.model()) == Some(e.model()),
                None => expr_of_value(self.model()) is None,
            },
    {
        match self {
            Any::Expression(e) => Some(e),
            Any::Primitive(p) => Some(Expr::Primitive(p)),
            _ => None,
        }
    }

    /// The value of an evaluation term that needs no further work; none where
    /// a tree holds a value with no syntax.
    pub fn from_eval(value: &AnyEval) -> (r: Option<Any>)
        ensures
            match r {
                Some(a) => value_of_term(value.model()) == Some(a.model()),
                None => value_of_term(value.model()) is None,
            },
    {
        match value {
            AnyEval::Primitive(p) => Some(Any::Primitive(p.make_static())),
            AnyEval::Composed(c) => Some(Any::Composed(Box::new((**c).make_static()))),
            AnyEval::Void => Some(Any::Void),
            other => match other.to_expr() {
                Some(e) => Some(Any::Expression(e)),
                None => None,
            },
        }
    }
}

/// Evaluation terms of a sequence of parsed terms.
fn terms_from_exprs(v: &Vec<Expr>) -> (r: Vec<AnyEval>)
    ensures
        terms_model(r@) == terms_of_exprs(exprs_model(v@)),
    decreases v,
{
    let mut out: Vec<AnyEval> = Vec::with_capacity(v.len());
    let mut i: usize = 0;
    while i < v.len()
        invariant
            i <= v@.len(),
            terms_model(out@) == terms_of_exprs(exprs_model(v@.take(i as int))),
        decreases v@.len() - i,
    {
        let c = AnyEval::from_expr(&v[i]);
        proof {
            lemma_terms_model_push(out@, c);
            lemma_exprs_model_push(v@.take(i as int), v@[i as int]);
            lemma_terms_of_exprs_push(exprs_model(v@.take(i as int)), v@[i as int].model());
            lemma_take_push(v@, i as int);
        }
        out.push(c);
        i = i + 1;
    }
    assert(v@.take(i as int) =~= v@);
    out
}

/// Parsed terms of a sequence of evaluation terms, if each has one.
fn exprs_from_terms(v: &Vec<AnyEval>) -> (r: Option<Vec<Expr>>)
    ensures
        match r {
            Some(es) => exprs_of_terms(terms_model(v@)) == Some(exprs_model(es@)),
            None => exprs_of_terms(terms_model(v@)) is None,
        },
    decreases v,
{
    let mut out: Vec<Expr> = Vec::with_capacity(v.len());
    let mut i: usize = 0;
    while i < v.len()
        invariant
            i <= v@.len(),
            exprs_of_terms(terms_model(v@.take(i as int))) == Some(exprs_model(out@)),
        decreases v@.len() - i,
    {
        proof {
            lemma_terms_model_push(v@.take(i as int), v@[i as int]);
            lemma_exprs_of_terms_push(terms_model(v@.take(i as int)), v@[i as int].model());
            lemma_take_push(v@, i as int);
        }
        match v[i].to_expr() {
            Some(e) => {
                proof {
                    lemma_exprs_model_push(out@, e);
                }
                out.push(e);
            },
            None => {
                proof {
                    lemma_none_extends(v@, i as int + 1);
                }
                return None;
            },
        }
        i = i + 1;
    }
    assert(v@.take(i as int) =~= v@);
    Some(out)
}

proof fn lemma_none_extends(s: Seq<AnyEval>, k: int)
    requires
        0 <= k <= s.len(),
        exprs_of_terms(terms_model(s.take(k))) is None,
    ensures
        exprs_of_terms(terms_model(s)) is None,
    decreases s.len() - k,
{
    if k < s.len() {
        lemma_terms_model_push(s.take(k), s[k]);
        lemma_exprs_of_terms_push(terms_model(s.take(k)), s[k].model());
        lemma_take_push(s, k);
        lemma_none_extends(s, k + 1);
    } else {
        assert(s.take(k) =~= s);
    }
}

impl AnyEval {
    /// The evaluation term of a parsed term.
    pub fn from_expr(expr: &Expr) -> (r: AnyEval)
        ensures
            r.model() == term_of_expr(expr.model()),
        decreases expr,
    {
        match expr {
            Expr::Ident(i) => AnyEval::Ident(i.clone()),
            Expr::Primitive(p) => AnyEval::Primitive(p.make_static()),
            Expr::Parenthesized(t) => AnyEval::Expression(Box::new(EvalTree::new_singleton(t))),
            Expr::RawQuoted(q) => AnyEval::RawQuoted(Box::new(AnyEval::from_expr(&**q))),
        }
    }

    /// The evaluation term of a value.
    pub fn from_any(item: &Any) -> (r: AnyEval)
        ensures
            r.model() == term_of_value(item.model()),
    {
        match item {
            Any::Primitive(p) => AnyEval::Primitive(p.make_static()),
            Any::Composed(c) => AnyEval::Composed(Box::new((**c).make_static())),
            Any::Expression(e) => AnyEval::from_expr(e),
            Any::Void => AnyEval::Void,
        }
    }

    /// The parsed term this stands for; none where a value with no syntax occurs in it.
    pub fn to_expr(&self) -> (r: Option<Expr>)
        ensures
            match r {
                Some(e) => expr_of_term(self.model()) == Some(e.model()),
                None => expr_of_term(self.model()) is None,
            },
        decreases self,
    {
        match self {
            AnyEval::Expression(t) => {
                assert(self.model() == Term::Tree(t.node_model(), terms_model(t.children@)));
                let node = match &t.node {
                    Some(n) => match (**n).to_expr() {
                        Some(e) => Some(Box::new(e)),
                        None => {
                            assert(t.node_model() == Some(Box::new(n.model())));
                            return None;
                        },
                    },
                    None => None,
                };
                assert(match t.node_model() {
                    Some(b) => expr_of_term(*b) == Some(node.unwrap().model()),
                    None => node is None,
                });
                match exprs_from_terms(&t.children) {
                    Some(children) => Some(Expr::Parenthesized(Tree { node, children })),
                    None => None,
                }
            },
            AnyEval::Ident(i) => Some(Expr::Ident(i.clone())),
            AnyEval::RawQuoted(q) => match (**q).to_expr() {
                Some(e) => Some(Expr::RawQuoted(Box::new(e))),
                None => None,
            },
            AnyEval::Primitive(p) => Some(Expr::Primitive(p.make_static())),
            _ => None,
        }
    }
}

impl EvalTree {
    /// The evaluation tree of a parsed tree.
    pub fn new_singleton(source: &Tree) -> (r: EvalTree)
        ensures
            r.node_model() == match source.node_model() {
                Some(b) => Some(Box::new(term_of_expr(*b))),
                None => None,
            },
            terms_model(r.children@) == terms_of_exprs(exprs_model(source.children@)),
        decreases source,
    {
        let node = match &source.node {
            Some(n) => Some(Box::new(AnyEval::from_expr(&**n))),
            None => None,
        };
        EvalTree { node, children: terms_from_exprs(&source.children) }
    }
}

} // verus!

verus! {

/// Converting a parsed term to a value and back gives the same term. Every
/// term but a literal is kept as `Value::Expr`; a literal becomes a primitive
/// value (literals self-evaluate), from which the same literal comes back.
pub proof fn lemma_expr_value_round_trip(e: ExprModel)
    ensures
        expr_of_value(value_of_expr(e)) == Some(e),
        value_of_expr(e) is Prim <==> e is Prim,
        !(e is Prim) ==> value_of_expr(e) == Value::Expr(e),
{
}

/// Converting a parsed term to an evaluation term and back gives the same term.
pub proof fn lemma_expr_term_round_trip(e: ExprModel)
    ensures
        expr_of_term(term_of_expr(e)) == Some(e),
    decreases e,
{
    match e {
        ExprModel::Paren(n, cs) => {
            match n {
                Some(b) => lemma_expr_term_round_trip(*b),
                None => {},
            }
            lemma_exprs_terms_round_trip(cs);
        },
        ExprModel::Quoted(q) => lemma_expr_term_round_trip(*q),
        _ => {},
    }
}

/// Element-wise form of `lemma_expr_term_round_trip`.
pub proof fn lemma_exprs_terms_round_trip(s: Seq<ExprModel>)
    ensures
        exprs_of_terms(terms_of_exprs(s)) == Some(s),
    decreases s,
{
    if s.len() > 0 {
        lemma_exprs_terms_round_trip(s.drop_last());
        lemma_expr_term_round_trip(s.last());
        lemma_exprs_of_terms_push(terms_of_exprs(s.drop_last()), term_of_expr(s.last()));
        assert(s.drop_last().push(s.last()) =~= s);
    }
}

/// A value turned into an evaluation term and back is the same value, unless
/// it is a literal kept as an unevaluated term (which comes back as the literal).
pub proof fn lemma_value_term_round_trip(v: Value)
    requires
        !(v is Expr && v->Expr_0 is Prim),
    ensures
        value_of_term(term_of_value(v)) == Some(v),
{
    match v {
        Value::Expr(e) => {
            lemma_expr_term_round_trip(e);
        },
        _ => {},
    }
}

} // verus!
