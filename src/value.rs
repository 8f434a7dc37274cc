//! Runtime values, evaluation terms, and the conversions between them and syntax.
use vstd::prelude::*;
use crate::data_types::{DataType, Lit};
use crate::error::{Kind, kind_of};
use crate::expr::{Expr, ExprModel, Tree};

verus! {

/// An ordered sequence of values.
#[derive(Debug, PartialEq)]
pub struct List(pub Vec<Any>);

/// Parameter names and the body of a user function.
#[derive(Debug, PartialEq)]
pub struct FunctionBody {
    pub args: Vec<String>,
    pub body: Vec<AnyEval>,
}

/// A named user function.
#[derive(Debug, PartialEq)]
pub struct Function {
    pub name: String,
    pub body: FunctionBody,
    pub arity: Option<usize>,
}

/// An anonymous user function.
#[derive(Debug, PartialEq)]
pub struct LambdaFunction {
    pub arity: Option<usize>,
    pub body: FunctionBody,
}

/// A quoted symbol.
#[derive(Debug, PartialEq)]
pub struct Symbol(pub String);

/// A `cons` cell.
#[derive(Debug, PartialEq)]
pub struct Pair {
    pub left: Any,
    pub right: Any,
}

/// Values made of more than a single primitive.
#[derive(Debug, PartialEq)]
pub enum Composed {
    List(List),
    Function(Function),
    Lambda(LambdaFunction),
    Symbol(Symbol),
    Pair(Pair),
}

/// A runtime value.
#[derive(Debug, PartialEq)]
pub enum Any {
    Primitive(DataType),
    Composed(Box<Composed>),
    /// An unevaluated term, kept as data.
    Expression(Expr),
    /// The result of a form evaluated for its effect.
    Void,
}

/// A term as the evaluator walks it: syntax whose leaves may already be values.
#[derive(Debug, PartialEq)]
pub enum AnyEval {
    Primitive(DataType),
    Composed(Box<Composed>),
    Expression(Box<EvalTree>),
    Ident(String),
    RawQuoted(Box<AnyEval>),
    Void,
}

/// A call tree of evaluation terms.
#[derive(Debug, PartialEq)]
pub struct EvalTree {
    pub node: Option<Box<AnyEval>>,
    pub children: Vec<AnyEval>,
}

/// Model of a user function (a lambda has an empty name).
pub struct FnModel {
    pub name: Seq<char>,
    pub params: Seq<Seq<char>>,
    pub body: Seq<Term>,
    pub arity: Option<nat>,
}

/// Model of a runtime value.
pub enum Value {
    Prim(Lit),
    List(Seq<Value>),
    Pair(Box<Value>, Box<Value>),
    Symbol(Seq<char>),
    Func(FnModel),
    Lambda(FnModel),
    Expr(ExprModel),
    Void,
}

/// Model of an evaluation term.
pub enum Term {
    Prim(Lit),
    Composed(Value),
    Tree(Option<Box<Term>>, Seq<Term>),
    Ident(Seq<char>),
    Quoted(Box<Term>),
    Void,
}

pub open spec fn opt_nat(a: Option<usize>) -> Option<nat> {
    match a {
        Some(n) => Some(n as nat),
        None => None,
    }
}

pub open spec fn names_model(s: Seq<String>) -> Seq<Seq<char>>
    decreases s.len(),
{
    if s.len() == 0 {
        Seq::empty()
    } else {
        names_model(s.drop_last()).push(s.last()@)
    }
}

impl FunctionBody {
    pub open spec fn model(self, name: Seq<char>, arity: Option<usize>) -> FnModel
        decreases self,
    {
        FnModel {
            name,
            params: names_model(self.args@),
            body: terms_model(self.body@),
            arity: opt_nat(arity),
        }
    }
}

impl Composed {
    pub open spec fn model(self) -> Value
        decreases self,
    {
        match self {
            Composed::List(l) => Value::List(values_model(l.0@)),
            Composed::Function(f) => Value::Func(f.body.model(f.name@, f.arity)),
            Composed::Lambda(l) => Value::Lambda(l.body.model(Seq::empty(), l.arity)),
            Composed::Symbol(s) => Value::Symbol(s.0@),
            Composed::Pair(p) => Value::Pair(Box::new(p.left.model()), Box::new(p.right.model())),
        }
    }
}

impl Any {
    pub open spec fn model(self) -> Value
        decreases self,
    {
        match self {
            Any::Primitive(p) => Value::Prim(p@),
            Any::Composed(c) => c.model(),
            Any::Expression(e) => Value::Expr(e.model()),
            Any::Void => Value::Void,
        }
    }
}

impl AnyEval {
    pub open spec fn model(self) -> Term
        decreases self,
    {
        match self {
            AnyEval::Primitive(p) => Term::Prim(p@),
            AnyEval::Composed(c) => Term::Composed(c.model()),
            AnyEval::Expression(t) => Term::Tree(t.node_model(), terms_model(t.children@)),
            AnyEval::Ident(s) => Term::Ident(s@),
            AnyEval::RawQuoted(q) => Term::Quoted(Box::new(q.model())),
            AnyEval::Void => Term::Void,
        }
    }
}

impl EvalTree {
    pub open spec fn node_model(self) -> Option<Box<Term>>
        decreases self,
    {
        match self.node {
            Some(n) => Some(Box::new(n.model())),
            None => None,
        }
    }
}

pub open spec fn values_model(s: Seq<Any>) -> Seq<Value>
    decreases s,
{
    if s.len() == 0 {
        Seq::empty()
    } else {
        values_model(s.drop_last()).push(s.last().model())
    }
}

pub open spec fn terms_model(s: Seq<AnyEval>) -> Seq<Term>
    decreases s,
{
    if s.len() == 0 {
        Seq::empty()
    } else {
        terms_model(s.drop_last()).push(s.last().model())
    }
}

} // verus!

verus! {

pub proof fn lemma_values_model_push(s: Seq<Any>, x: Any)
    ensures
        values_model(s.push(x)) == values_model(s).push(x.model()),
{
    assert(s.push(x).drop_last() =~= s);
}

pub proof fn lemma_values_model_index(s: Seq<Any>)
    ensures
        values_model(s).len() == s.len(),
        forall|i: int| 0 <= i < s.len() ==> #[trigger] values_model(s)[i] == s[i].model(),
    decreases s.len(),
{
    if s.len() > 0 {
        lemma_values_model_index(s.drop_last());
    }
}

pub proof fn lemma_terms_model_push(s: Seq<AnyEval>, x: AnyEval)
    ensures
        terms_model(s.push(x)) == terms_model(s).push(x.model()),
{
    assert(s.push(x).drop_last() =~= s);
}

pub proof fn lemma_terms_model_index(s: Seq<AnyEval>)
    ensures
        terms_model(s).len() == s.len(),
        forall|i: int| 0 <= i < s.len() ==> #[trigger] terms_model(s)[i] == s[i].model(),
    decreases s.len(),
{
    if s.len() > 0 {
        lemma_terms_model_index(s.drop_last());
    }
}

pub proof fn lemma_names_model_push(s: Seq<String>, x: String)
    ensures
        names_model(s.push(x)) == names_model(s).push(x@),
{
    assert(s.push(x).drop_last() =~= s);
}

pub proof fn lemma_names_model_index(s: Seq<String>)
    ensures
        names_model(s).len() == s.len(),
        forall|i: int| 0 <= i < s.len() ==> #[trigger] names_model(s)[i] == s[i]@,
    decreases s.len(),
{
    if s.len() > 0 {
        lemma_names_model_index(s.drop_last());
    }
}

proof fn lemma_take_push<A>(s: Seq<A>, i: int)
    requires
        0 <= i < s.len(),
    ensures
        s.take(i).push(s[i]) == s.take(i + 1),
{
    assert(s.take(i).push(s[i]) =~= s.take(i + 1));
}

/// Copies a sequence of names.
pub fn copy_names(v: &Vec<String>) -> (r: Vec<String>)
    ensures
        names_model(r@) == names_model(v@),
{
    let mut out: Vec<String> = Vec::with_capacity(v.len());
    let mut i: usize = 0;
    while i < v.len()
        invariant
            i <= v@.len(),
            names_model(out@) == names_model(v@.take(i as int)),
        decreases v@.len() - i,
    {
        let c = v[i].clone();
        proof {
            lemma_names_model_push(out@, c);
            lemma_names_model_push(v@.take(i as int), v@[i as int]);
            lemma_take_push(v@, i as int);
        }
        out.push(c);
        i = i + 1;
    }
    assert(v@.take(i as int) =~= v@);
    out
}

/// Copies a sequence of values.
pub fn copy_values(v: &Vec<Any>) -> (r: Vec<Any>)
    ensures
        values_model(r@) == values_model(v@),
    decreases v,
{
    let mut out: Vec<Any> = Vec::with_capacity(v.len());
    let mut i: usize = 0;
    while i < v.len()
        invariant
            i <= v@.len(),
            values_model(out@) == values_model(v@.take(i as int)),
        decreases v@.len() - i,
    {
        let c = v[i].make_static();
        proof {
            lemma_values_model_push(out@, c);
            lemma_values_model_push(v@.take(i as int), v@[i as int]);
            lemma_take_push(v@, i as int);
        }
        out.push(c);
        i = i + 1;
    }
    assert(v@.take(i as int) =~= v@);
    out
}

/// Copies a sequence of terms.
pub fn copy_terms(v: &Vec<AnyEval>) -> (r: Vec<AnyEval>)
    ensures
        terms_model(r@) == terms_model(v@),
    decreases v,
{
    let mut out: Vec<AnyEval> = Vec::with_capacity(v.len());
    let mut i: usize = 0;
    while i < v.len()
        invariant
            i <= v@.len(),
            terms_model(out@) == terms_model(v@.take(i as int)),
        decreases v@.len() - i,
    {
        let c = v[i].make_static();
        proof {
            lemma_terms_model_push(out@, c);
            lemma_terms_model_push(v@.take(i as int), v@[i as int]);
            lemma_take_push(v@, i as int);
        }
        out.push(c);
        i = i + 1;
    }
    assert(v@.take(i as int) =~= v@);
    out
}

impl List {
    /// A copy with the same model.
    pub fn make_static(&self) -> (r: List)
        ensures
            values_model(r.0@) == values_model(self.0@),
        decreases self,
    {
        List(copy_values(&self.0))
    }
}

impl FunctionBody {
    /// A copy with the same model.
    pub fn make_static(&self) -> (r: FunctionBody)
        ensures
            names_model(r.args@) == names_model(self.args@),
            terms_model(r.body@) == terms_model(self.body@),
        decreases self,
    {
        FunctionBody { args: copy_names(&self.args), body: copy_terms(&self.body) }
    }
}

impl Function {
    /// A copy with the same model.
    pub fn make_static(&self) -> (r: Function)
        ensures
            r.name@ == self.name@,
            r.arity == self.arity,
            names_model(r.body.args@) == names_model(self.body.args@),
            terms_model(r.body.body@) == terms_model(self.body.body@),
        decreases self,
    {
        Function { name: self.name.clone(), body: self.body.make_static(), arity: self.arity }
    }
}

impl LambdaFunction {
    /// A copy with the same model.
    pub fn make_static(&self) -> (r: LambdaFunction)
        ensures
            r.arity == self.arity,
            names_model(r.body.args@) == names_model(self.body.args@),
            terms_model(r.body.body@) == terms_model(self.body.body@),
        decreases self,
    {
        LambdaFunction { arity: self.arity, body: self.body.make_static() }
    }
}

impl Symbol {
    pub fn make_static(&self) -> (r: Symbol)
        ensures
            r.0@ == self.0@,
    {
        Symbol(self.0.clone())
    }
}

impl Pair {
    /// A copy with the same model.
    pub fn make_static(&self) -> (r: Pair)
        ensures
            r.left.model() == self.left.model(),
            r.right.model() == self.right.model(),
        decreases self,
    {
        Pair { left: self.left.make_static(), right: self.right.make_static() }
    }
}

impl Composed {
    /// A copy with the same model.
    pub fn make_static(&self) -> (r: Composed)
        ensures
            r.model() == self.model(),
        decreases self,
    {
        match self {
            Composed::List(l) => Composed::List(l.make_static()),
            Composed::Function(f) => Composed::Function(f.make_static()),
            Composed::Lambda(l) => Composed::Lambda(l.make_static()),
            Composed::Symbol(s) => Composed::Symbol(s.make_static()),
            Composed::Pair(p) => Composed::Pair(p.make_static()),
        }
    }
}

impl Any {
    /// A copy with the same model.
    pub fn make_static(&self) -> (r: Any)
        ensures
            r.model() == self.model(),
        decreases self,
    {
        match self {
            Any::Primitive(p) => Any::Primitive(p.make_static()),
            Any::Composed(c) => Any::Composed(Box::new((**c).make_static())),
            Any::Expression(e) => Any::Expression(e.make_static()),
            Any::Void => Any::Void,
        }
    }
}

impl EvalTree {
    /// A copy with the same model.
    pub fn make_static(&self) -> (r: EvalTree)
        ensures
            r.node_model() == self.node_model(),
            terms_model(r.children@) == terms_model(self.children@),
        decreases self,
    {
        let node = match &self.node {
            Some(n) => Some(Box::new((**n).make_static())),
            None => None,
        };
        EvalTree { node, children: copy_terms(&self.children) }
    }
}

impl AnyEval {
    /// A copy with the same model.
    pub fn make_static(&self) -> (r: AnyEval)
        ensures
            r.model() == self.model(),
        decreases self,
    {
        match self {
            AnyEval::Primitive(p) => AnyEval::Primitive(p.make_static()),
            AnyEval::Composed(c) => AnyEval::Composed(Box::new((**c).make_static())),
            AnyEval::Expression(t) => AnyEval::Expression(Box::new((**t).make_static())),
            AnyEval::Ident(s) => AnyEval::Ident(s.clone()),
            AnyEval::RawQuoted(q) => AnyEval::RawQuoted(Box::new((**q).make_static())),
            AnyEval::Void => AnyEval::Void,
        }
    }
}

} // verus!

verus! {

impl Any {
    /// The kind of this value.
    pub fn kind(v: &Any) -> (r: Kind)
        ensures
            r == kind_of(v.model()),
    {
        match v {
            Any::Primitive(p) => match p {
                DataType::String(_) => Kind::String,
                DataType::Character(_) => Kind::Character,
                DataType::Integer(_) => Kind::Integer,
                DataType::Rational(_) => Kind::Rational,
                DataType::Complex(_) => Kind::Complex,
                DataType::Hex(_) => Kind::Hex,
                DataType::Octal(_) => Kind::Octal,
                DataType::Binary(_) => Kind::Binary,
                DataType::Bytes(_) => Kind::Bytes,
                DataType::Boolean(_) => Kind::Boolean,
            },
            Any::Composed(c) => match &**c {
                Composed::List(_) => Kind::List,
                Composed::Function(_) => Kind::Function,
                Composed::Lambda(_) => Kind::Lambda,
                Composed::Symbol(_) => Kind::Symbol,
                Composed::Pair(_) => Kind::Pair,
            },
            Any::Expression(_) => Kind::Expression,
            Any::Void => Kind::Void,
        }
    }
}

} // verus!
