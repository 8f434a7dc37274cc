//! Parsed syntax: expressions and call trees.
use vstd::prelude::*;
use crate::data_types::{DataType, Lit};

verus! {

/// A parsed term.
#[derive(Debug, PartialEq)]
pub enum Expr {
    /// A call or special form such as `(+ 2 3)`: a tree with node `+` and children `2 3`.
    Parenthesized(Tree),
    /// A literal.
    Primitive(DataType),
    /// A bare symbol reference.
    Ident(String),
    /// A quoted term, whose evaluation is suppressed.
    RawQuoted(Box<Expr>),
}

/// A parenthesized form: the operator position and the operands in order.
#[derive(Debug, PartialEq)]
pub struct Tree {
    pub node: Option<Box<Expr>>,
    pub children: Vec<Expr>,
}

/// Model of a parsed term.
pub enum ExprModel {
    Paren(Option<Box<ExprModel>>, Seq<ExprModel>),
    Prim(Lit),
    Ident(Seq<char>),
    Quoted(Box<ExprModel>),
}

impl Expr {
    pub open spec fn model(self) -> ExprModel
        decreases self,
    {
        match self {
            Expr::Parenthesized(t) => ExprModel::Paren(
                match t.node {
                    Some(n) => Some(Box::new(n.model())),
                    None => None,
                },
                exprs_model(t.children@),
            ),
            Expr::Primitive(p) => ExprModel::Prim(p@),
            Expr::Ident(s) => ExprModel::Ident(s@),
            Expr::RawQuoted(q) => ExprModel::Quoted(Box::new(q.model())),
        }
    }
}

/// Models of a sequence of terms, element by element.
pub open spec fn exprs_model(s: Seq<Expr>) -> Seq<ExprModel>
    decreases s,
{
    if s.len() == 0 {
        Seq::empty()
    } else {
        exprs_model(s.drop_last()).push(s.last().model())
    }
}

} // verus!

verus! {

pub proof fn lemma_exprs_model_push(s: Seq<Expr>, x: Expr)
    ensures
        exprs_model(s.push(x)) == exprs_model(s).push(x.model()),
{
    assert(s.push(x).drop_last() =~= s);
}

pub proof fn lemma_exprs_model_index(s: Seq<Expr>)
    ensures
        exprs_model(s).len() == s.len(),
        forall|i: int| 0 <= i < s.len() ==> #[trigger] exprs_model(s)[i] == s[i].model(),
    decreases s.len(),
{
    if s.len() > 0 {
        lemma_exprs_model_index(s.drop_last());
    }
}

impl Tree {
    pub open spec fn node_model(self) -> Option<Box<ExprModel>> {
        match self.node {
            Some(n) => Some(Box::new(n.model())),
            None => None,
        }
    }

    pub fn new() -> (r: Tree)
        ensures
            r.node is None,
            r.children@.len() == 0,
    {
        Tree { node: None, children: Vec::new() }
    }

    pub fn with_capacity(capacity: usize) -> (r: Tree)
        ensures
            r.node is None,
            r.children@.len() == 0,
    {
        Tree { node: None, children: Vec::with_capacity(capacity) }
    }

    /// Puts `item` in the operator position if it is empty, else appends it to the operands.
    pub fn push_auto(&mut self, item: Expr)
        ensures
            old(self).node is None ==> final(self).node == Some(Box::new(item))
                && final(self).children@ == old(self).children@,
            old(self).node is Some ==> final(self).node == old(self).node
                && final(self).children@ == old(self).children@.push(item),
    {
        if self.node.is_none() {
            self.set_node(item)
        } else {
            self.push(item)
        }
    }

    pub fn set_node(&mut self, item: Expr)
        ensures
            final(self).node == Some(Box::new(item)),
            final(self).children@ == old(self).children@,
    {
        self.node = Some(Box::new(item));
    }

    pub fn push(&mut self, item: Expr)
        ensures
            final(self).node == old(self).node,
            final(self).children@ == old(self).children@.push(item),
    {
        self.children.push(item)
    }

    /// A copy with the same model.
    pub fn make_static(&self) -> (r: Tree)
        ensures
            r.node_model() == self.node_model(),
            exprs_model(r.children@) == exprs_model(self.children@),
        decreases self,
    {
        let node = match &self.node {
            Some(n) => Some(Box::new((**n).make_static())),
            None => None,
        };
        let mut children: Vec<Expr> = Vec::with_capacity(self.children.len());
        let mut i: usize = 0;
        while i < self.children.len()
            invariant
                i <= self.children@.len(),
                exprs_model(children@) == exprs_model(self.children@.take(i as int)),
            decreases self.children@.len() - i,
        {
            let c = self.children[i].make_static();
            proof {
                lemma_exprs_model_push(children@, c);
                lemma_exprs_model_push(self.children@.take(i as int), self.children@[i as int]);
                assert(self.children@.take(i as int).push(self.children@[i as int])
                    =~= self.children@.take(i + 1));
            }
            children.push(c);
            i = i + 1;
        }
        assert(self.children@.take(i as int) =~= self.children@);
        Tree { node, children }
    }
}

impl Expr {
    /// A copy with the same model.
    pub fn make_static(&self) -> (r: Expr)
        ensures
            r.model() == self.model(),
        decreases self,
    {
        match self {
            Expr::Parenthesized(t) => Expr::Parenthesized(t.make_static()),
            Expr::Primitive(p) => Expr::Primitive(p.make_static()),
            Expr::Ident(s) => Expr::Ident(s.clone()),
            Expr::RawQuoted(q) => Expr::RawQuoted(Box::new((**q).make_static())),
        }
    }
}

} // verus!
