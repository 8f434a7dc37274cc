//! Reading tokens into expression trees.
use vstd::prelude::*;
use crate::expr::{Expr, Tree};
use crate::lexer::{Token, TokenModel, token_model};
use crate::expr::{ExprModel, exprs_model, lemma_exprs_model_push};

verus! {

/// Errors of reading.
#[derive(Debug, Clone, Copy, PartialEq, Eq)]
pub enum AstError {
    MissingClosingDelimiter,
    InvalidExpression,
    MissingToken,
}

/// The top-level forms of a program, in order.
#[derive(Debug)]
pub struct Ast {
    pub inner: Vec<Expr>,
}

pub open spec fn is_open(t: Token) -> bool {
    t is OpenParen || t is OpenBracket || t is OpenBraces
}

pub open spec fn is_close(t: Token) -> bool {
    t is CloseParen || t is CloseBracket || t is CloseBraces
}


/// The models of a sequence of tokens.
pub open spec fn token_models(ts: Seq<Token>) -> Seq<TokenModel> {
    ts.map_values(|t: Token| token_model(t))
}

pub open spec fn open_m(t: TokenModel) -> bool {
    t is Punct && is_open(t->Punct_0)
}

pub open spec fn close_m(t: TokenModel) -> bool {
    t is Punct && is_close(t->Punct_0)
}

pub open spec fn quote_m(t: TokenModel) -> bool {
    t is Punct && t->Punct_0 is SingleQuote
}

/// The term of a name or literal token.
pub open spec fn term_tok(t: TokenModel) -> Option<ExprModel> {
    match t {
        TokenModel::Lit(l) => Some(ExprModel::Prim(l)),
        TokenModel::Name(n) => Some(ExprModel::Ident(n)),
        TokenModel::Punct(_) => None,
    }
}

/// A tree with `e` added: in the operator position if it is empty, else as an operand.
pub open spec fn add_item(node: Option<Box<ExprModel>>, children: Seq<ExprModel>, e: ExprModel)
    -> (Option<Box<ExprModel>>, Seq<ExprModel>)
{
    match node {
        None => (Some(Box::new(e)), children),
        Some(n) => (Some(n), children.push(e)),
    }
}

/// The rest of a tree read from position `pos`, given what was read of it so
/// far; the tree and the position after its closing delimiter.
pub open spec fn read_tree(ts: Seq<TokenModel>, pos: int, node: Option<Box<ExprModel>>, children: Seq<ExprModel>)
    -> Result<(ExprModel, int), AstError>
    decreases ts.len() - pos, 0nat,
{
    if pos < 0 || pos >= ts.len() {
        Err(AstError::MissingClosingDelimiter)
    } else if close_m(ts[pos]) {
        Ok((ExprModel::Paren(node, children), pos + 1))
    } else if open_m(ts[pos]) {
        match read_tree(ts, pos + 1, None, Seq::empty()) {
            Err(e) => Err(e),
            Ok(p) => if pos < p.1 <= ts.len() {
                let a = add_item(node, children, p.0);
                read_tree(ts, p.1, a.0, a.1)
            } else {
                Err(AstError::MissingClosingDelimiter)
            },
        }
    } else if quote_m(ts[pos]) {
        match read_quoted(ts, pos + 1) {
            Err(e) => Err(e),
            Ok(p) => if pos < p.1 <= ts.len() {
                let a = add_item(node, children, p.0);
                read_tree(ts, p.1, a.0, a.1)
            } else {
                Err(AstError::MissingClosingDelimiter)
            },
        }
    } else {
        match term_tok(ts[pos]) {
            Some(e) => {
                let a = add_item(node, children, e);
                read_tree(ts, pos + 1, a.0, a.1)
            },
            None => read_tree(ts, pos + 1, node, children),
        }
    }
}

/// The quoted term whose first token is at `pos`.
pub open spec fn read_quoted(ts: Seq<TokenModel>, pos: int) -> Result<(ExprModel, int), AstError>
    decreases ts.len() - pos, 1nat,
{
    if pos < 0 || pos >= ts.len() {
        Err(AstError::MissingToken)
    } else if open_m(ts[pos]) {
        match read_tree(ts, pos + 1, None, Seq::empty()) {
            Err(e) => Err(e),
            Ok(p) => Ok((ExprModel::Quoted(Box::new(p.0)), p.1)),
        }
    } else {
        match term_tok(ts[pos]) {
            Some(e) => Ok((ExprModel::Quoted(Box::new(e)), pos + 1)),
            None => Err(AstError::InvalidExpression),
        }
    }
}

/// The top-level form starting at `pos`; none at the end or at a token that starts no form.
pub open spec fn read_expr(ts: Seq<TokenModel>, pos: int) -> Result<Option<(ExprModel, int)>, AstError>
    decreases ts.len() - pos, 2nat,
{
    if pos < 0 || pos >= ts.len() {
        Ok(None)
    } else if open_m(ts[pos]) {
        match read_tree(ts, pos + 1, None, Seq::empty()) {
            Err(e) => Err(e),
            Ok(p) => Ok(Some(p)),
        }
    } else if quote_m(ts[pos]) {
        match read_expr(ts, pos + 1) {
            Err(e) => Err(e),
            Ok(None) => Ok(None),
            Ok(Some(p)) => Ok(Some((ExprModel::Quoted(Box::new(p.0)), p.1))),
        }
    } else {
        match term_tok(ts[pos]) {
            Some(e) => Ok(Some((e, pos + 1))),
            None => Ok(None),
        }
    }
}

/// The forms read one after another from `pos`.
pub open spec fn read_all(ts: Seq<TokenModel>, pos: int) -> Result<Seq<ExprModel>, AstError>
    decreases ts.len() - pos,
{
    match read_expr(ts, pos) {
        Err(e) => Err(e),
        Ok(None) => Ok(Seq::empty()),
        Ok(Some(p)) => if pos < p.1 <= ts.len() {
            match read_all(ts, p.1) {
                Err(e) => Err(e),
                Ok(es) => Ok(seq![p.0] + es),
            }
        } else {
            Ok(Seq::empty())
        },
    }
}

fn open_token(t: &Token) -> (r: bool)
    ensures
        r == is_open(*t),
{
    match t {
        Token::OpenParen | Token::OpenBracket | Token::OpenBraces => true,
        _ => false,
    }
}

fn close_token(t: &Token) -> (r: bool)
    ensures
        r == is_close(*t),
{
    match t {
        Token::CloseParen | Token::CloseBracket | Token::CloseBraces => true,
        _ => false,
    }
}

impl Ast {
    pub fn empty() -> (r: Ast)
        ensures
            r.inner@.len() == 0,
    {
        Ast { inner: Vec::new() }
    }

    /// The term of a name or literal token; none for any other token.
    pub fn parse_token(token: &Token) -> (r: Option<Expr>)
        ensures
            match term_tok(token_model(*token)) {
                Some(e) => r is Some && r.unwrap().model() == e,
                None => r is None,
            },
    {
        match token {
            Token::Ident(s) => Some(Expr::Ident(s.clone())),
            Token::Primitive(p) => Some(Expr::Primitive(p.make_static())),
            _ => None,
        }
    }

    /// The quoted term whose first token is at `pos` (just after the quote).
    fn parse_quoted(tokens: &Vec<Token>, pos: usize) -> (r: Result<(Expr, usize), AstError>)
        requires
            pos <= tokens@.len(),
        ensures
            r is Ok ==> pos < r->Ok_0.1 <= tokens@.len(),
            match read_quoted(token_models(tokens@), pos as int) {
                Ok(p) => r is Ok && r->Ok_0.0.model() == p.0 && r->Ok_0.1 == p.1,
                Err(e) => r == Err::<(Expr, usize), AstError>(e),
            },
        decreases tokens@.len() - pos, 1nat,
    {
        if pos >= tokens.len() {
            return Err(AstError::MissingToken);
        }
        let next = &tokens[pos];
        if open_token(next) {
            match Self::parse_tree(tokens, pos + 1) {
                Ok((t, end)) => {
                    let inner = Expr::Parenthesized(t);
                    assert(inner.model() == ExprModel::Paren(t.node_model(), exprs_model(t.children@)));
                    let q = Expr::RawQuoted(Box::new(inner));
                    assert(q.model() == ExprModel::Quoted(Box::new(inner.model())));
                    Ok((q, end))
                },
                Err(e) => Err(e),
            }
        } else {
            match Self::parse_token(next) {
                Some(e) => Ok((Expr::RawQuoted(Box::new(e)), pos + 1)),
                None => Err(AstError::InvalidExpression),
            }
        }
    }

    /// The tree whose opening delimiter is just before `pos`, up to its
    /// closing delimiter; the position after that is returned. Dots are skipped.
    fn parse_tree(tokens: &Vec<Token>, pos: usize) -> (r: Result<(Tree, usize), AstError>)
        requires
            pos <= tokens@.len(),
        ensures
            r is Ok ==> pos < r->Ok_0.1 <= tokens@.len(),
            match read_tree(token_models(tokens@), pos as int, None, Seq::empty()) {
                Ok(p) => r is Ok && ExprModel::Paren(r->Ok_0.0.node_model(), exprs_model(r->Ok_0.0.children@)) == p.0
                    && r->Ok_0.1 == p.1,
                Err(e) => r == Err::<(Tree, usize), AstError>(e),
            },
        decreases tokens@.len() - pos, 0nat,
    {
        let ghost ts = token_models(tokens@);
        let mut tree = Tree::new();
        assert(exprs_model(tree.children@) =~= Seq::<ExprModel>::empty());
        let mut i = pos;
        while i < tokens.len()
            invariant
                pos <= i <= tokens@.len(),
                ts == token_models(tokens@),
                read_tree(ts, pos as int, None, Seq::empty())
                    == read_tree(ts, i as int, tree.node_model(), exprs_model(tree.children@)),
            decreases tokens@.len() - i,
        {
            let token = &tokens[i];
            if close_token(token) {
                return Ok((tree, i + 1));
            }
            if open_token(token) {
                match Self::parse_tree(tokens, i + 1) {
                    Ok((t, end)) => {
                        let item = Expr::Parenthesized(t);
                        proof {
                            lemma_exprs_model_push(tree.children@, item);
                        }
                        tree.push_auto(item);
                        i = end;
                    },
                    Err(e) => {
                        return Err(e);
                    },
                }
            } else if matches!(token, Token::SingleQuote) {
                match Self::parse_quoted(tokens, i + 1) {
                    Ok((q, end)) => {
                        proof {
                            lemma_exprs_model_push(tree.children@, q);
                        }
                        tree.push_auto(q);
                        i = end;
                    },
                    Err(e) => {
                        return Err(e);
                    },
                }
            } else {
                match Self::parse_token(token) {
                    Some(e) => {
                        proof {
                            lemma_exprs_model_push(tree.children@, e);
                        }
                        tree.push_auto(e);
                    },
                    None => {},
                }
                i = i + 1;
            }
        }
        Err(AstError::MissingClosingDelimiter)
    }

    /// The top-level form starting at `pos`; none at the end of the tokens or
    /// at a token that starts no form.
    fn parse_expr(tokens: &Vec<Token>, pos: usize) -> (r: Result<Option<(Expr, usize)>, AstError>)
        requires
            pos <= tokens@.len(),
        ensures
            r matches Ok(Some(p)) ==> pos < p.1 <= tokens@.len(),
            match read_expr(token_models(tokens@), pos as int) {
                Ok(Some(p)) => r is Ok && r->Ok_0 is Some && r->Ok_0->Some_0.0.model() == p.0 && r->Ok_0->Some_0.1 == p.1,
                Ok(None) => r == Ok::<Option<(Expr, usize)>, AstError>(None),
                Err(e) => r == Err::<Option<(Expr, usize)>, AstError>(e),
            },
        decreases tokens@.len() - pos, 2nat,
    {
        if pos >= tokens.len() {
            return Ok(None);
        }
        let token = &tokens[pos];
        if open_token(token) {
            match Self::parse_tree(tokens, pos + 1) {
                Ok((t, end)) => Ok(Some((Expr::Parenthesized(t), end))),
                Err(e) => Err(e),
            }
        } else if matches!(token, Token::SingleQuote) {
            match Self::parse_expr(tokens, pos + 1) {
                Ok(Some((e, end))) => Ok(Some((Expr::RawQuoted(Box::new(e)), end))),
                Ok(None) => Ok(None),
                Err(e) => Err(e),
            }
        } else {
            match Self::parse_token(token) {
                Some(e) => Ok(Some((e, pos + 1))),
                None => Ok(None),
            }
        }
    }

    /// The forms read one after another until the tokens end or a token starts no form.
    pub fn parse(tokens: &Vec<Token>) -> (r: Result<Vec<Expr>, AstError>)
        ensures
            match read_all(token_models(tokens@), 0) {
                Ok(es) => r is Ok && exprs_model(r->Ok_0@) == es,
                Err(e) => r == Err::<Vec<Expr>, AstError>(e),
            },
    {
        let ghost ts = token_models(tokens@);
        let mut out: Vec<Expr> = Vec::with_capacity(tokens.len() / 4);
        proof {
            match read_all(ts, 0) {
                Ok(es) => {
                    assert(exprs_model(out@) + es =~= es);
                },
                Err(_) => {},
            }
        }
        let mut i: usize = 0;
        loop
            invariant
                i <= tokens@.len(),
                ts == token_models(tokens@),
                read_all(ts, 0) == match read_all(ts, i as int) {
                    Ok(es) => Ok(exprs_model(out@) + es),
                    Err(e) => Err::<Seq<ExprModel>, AstError>(e),
                },
            decreases tokens@.len() - i,
        {
            match Self::parse_expr(tokens, i) {
                Ok(Some((e, end))) => {
                    proof {
                        lemma_exprs_model_push(out@, e);
                        match read_all(ts, end as int) {
                            Ok(es) => {
                                assert(exprs_model(out@) + (seq![e.model()] + es)
                                    =~= exprs_model(out@).push(e.model()) + es);
                            },
                            Err(_) => {},
                        }
                    }
                    out.push(e);
                    i = end;
                },
                Ok(None) => {
                    assert(exprs_model(out@) + Seq::<ExprModel>::empty() =~= exprs_model(out@));
                    return Ok(out);
                },
                Err(e) => {
                    return Err(e);
                },
            }
        }
    }

    /// The program that the tokens spell.
    pub fn try_from(value: &Vec<Token>) -> (r: Result<Ast, AstError>)
        ensures
            match read_all(token_models(value@), 0) {
                Ok(es) => r is Ok && exprs_model(r->Ok_0.inner@) == es,
                Err(e) => r is Err && r->Err_0 == e,
            },
    {
        match Self::parse(value) {
            Ok(inner) => Ok(Ast { inner }),
            Err(e) => Err(e),
        }
    }
}

} // verus!
