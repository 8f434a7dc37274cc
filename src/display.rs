//! Rendering values and terms as text.
use vstd::prelude::*;
use crate::data_types::{DataType, Lit};
use crate::expr::{Expr, ExprModel, Tree, exprs_model, lemma_exprs_model_index};
use crate::lexer::text_of;
use crate::value::{Any, Composed, Value, values_model, lemma_values_model_index};

verus! {

/// The decimal digit character of `d`.
pub open spec fn digit(d: nat) -> char {
    ((48 + d) as u8) as char
}

/// The decimal digits of `n`.
pub open spec fn nat_text(n: nat) -> Seq<char>
    decreases n,
{
    if n < 10 {
        seq![digit(n)]
    } else {
        nat_text(n / 10).push(digit(n % 10))
    }
}

pub open spec fn int_text(i: i32) -> Seq<char> {
    if i < 0 {
        seq!['-'] + nat_text((-(i as int)) as nat)
    } else {
        nat_text(i as nat)
    }
}

/// A literal as source text.
pub open spec fn lit_text(l: Lit) -> Seq<char> {
    match l {
        Lit::Str(s) => seq!['"'] + s + seq!['"'],
        Lit::Char(s) => seq!['#', '\\'] + s,
        Lit::Int(i) => int_text(i),
        Lit::Rational(r) => int_text(r.left) + seq!['/'] + int_text(r.right),
        Lit::Complex(c) => int_text(c.real) + (if c.imaginary >= 0 { seq!['+'] } else { Seq::empty() })
            + int_text(c.imaginary) + seq!['i'],
        Lit::Number(_, s) => s,
        Lit::Bytes(b) => seq!['#', '"'] + b.map_values(|x: u8| x as char) + seq!['"'],
        Lit::Bool(b) => if b { seq!['#', 't'] } else { seq!['#', 'f'] },
    }
}

/// A term as source text; each operand is preceded by a space.
pub open spec fn expr_text(e: ExprModel) -> Seq<char>
    decreases e,
{
    match e {
        ExprModel::Prim(l) => lit_text(l),
        ExprModel::Ident(s) => s,
        ExprModel::Quoted(q) => seq!['\''] + expr_text(*q),
        ExprModel::Paren(n, cs) => seq!['('] + match n {
            Some(b) => expr_text(*b),
            None => Seq::empty(),
        } + operands_text(cs) + seq![')'],
    }
}

pub open spec fn operands_text(cs: Seq<ExprModel>) -> Seq<char>
    decreases cs,
{
    if cs.len() == 0 {
        Seq::empty()
    } else {
        operands_text(cs.drop_last()) + seq![' '] + expr_text(cs.last())
    }
}

/// A value as text: lists in parentheses, pairs with a dot, void as nothing.
pub open spec fn value_text(v: Value) -> Seq<char>
    decreases v,
{
    match v {
        Value::Prim(l) => lit_text(l),
        Value::List(items) => seq!['('] + items_text(items) + seq![')'],
        Value::Pair(l, r) => seq!['('] + value_text(*l) + seq![' ', '.', ' '] + value_text(*r) + seq![')'],
        Value::Symbol(s) => s,
        Value::Func(f) => seq!['#', '<', 'p', 'r', 'o', 'c', 'e', 'd', 'u', 'r', 'e', ':'] + f.name + seq!['>'],
        Value::Lambda(_) => seq!['#', '<', 'p', 'r', 'o', 'c', 'e', 'd', 'u', 'r', 'e', '>'],
        Value::Expr(e) => expr_text(e),
        Value::Void => Seq::empty(),
    }
}

/// Values as text, separated by single spaces.
pub open spec fn items_text(items: Seq<Value>) -> Seq<char>
    decreases items,
{
    if items.len() == 0 {
        Seq::empty()
    } else if items.len() == 1 {
        value_text(items[0])
    } else {
        items_text(items.drop_last()) + seq![' '] + value_text(items.last())
    }
}

fn digit_char(d: u32) -> (r: char)
    requires
        d < 10,
    ensures
        r == digit(d as nat),
{
    ((48u32 + d) as u8) as char
}

fn push_all(out: &mut Vec<char>, s: &Vec<char>)
    ensures
        final(out)@ == old(out)@ + s@,
{
    let mut i: usize = 0;
    while i < s.len()
        invariant
            i <= s@.len(),
            out@ == old(out)@ + s@.take(i as int),
        decreases s@.len() - i,
    {
        out.push(s[i]);
        assert(out@ =~= old(out)@ + s@.take(i + 1));
        i = i + 1;
    }
    assert(s@.take(i as int) =~= s@);
}

fn push_str(out: &mut Vec<char>, s: &String)
    ensures
        final(out)@ == old(out)@ + s@,
{
    let n = s.as_str().unicode_len();
    let mut i: usize = 0;
    while i < n
        invariant
            i <= n,
            n == s@.len(),
            out@ == old(out)@ + s@.take(i as int),
        decreases n - i,
    {
        let c = s.as_str().get_char(i);
        out.push(c);
        assert(out@ =~= old(out)@ + s@.take(i + 1));
        i = i + 1;
    }
    assert(s@.take(i as int) =~= s@);
}

fn nat_digits(n: u32) -> (r: Vec<char>)
    ensures
        r@ == nat_text(n as nat),
    decreases n,
{
    if n < 10 {
        let mut v: Vec<char> = Vec::new();
        v.push(digit_char(n));
        assert(v@ =~= seq![digit(n as nat)]);
        v
    } else {
        let mut v = nat_digits(n / 10);
        v.push(digit_char(n % 10));
        v
    }
}

fn push_int(out: &mut Vec<char>, i: i32)
    ensures
        final(out)@ == old(out)@ + int_text(i),
{
    if i < 0 {
        out.push('-');
        let m: u32 = if i == i32::MIN { 0x8000_0000u32 } else { (-i) as u32 };
        let d = nat_digits(m);
        push_all(out, &d);
        assert(out@ =~= old(out)@ + int_text(i));
    } else {
        let d = nat_digits(i as u32);
        push_all(out, &d);
    }
}

impl DataType {
    /// Appends the literal as source text.
    pub fn write_text(&self, out: &mut Vec<char>)
        ensures
            final(out)@ == old(out)@ + lit_text(self@),
    {
        match self {
            DataType::String(s) => {
                out.push('"');
                push_str(out, s);
                out.push('"');
            },
            DataType::Character(s) => {
                out.push('#');
                out.push('\\');
                push_str(out, s);
            },
            DataType::Integer(i) => push_int(out, *i),
            DataType::Rational(r) => {
                push_int(out, r.left);
                out.push('/');
                push_int(out, r.right);
            },
            DataType::Complex(c) => {
                push_int(out, c.real);
                if c.imaginary >= 0 {
                    out.push('+');
                }
                push_int(out, c.imaginary);
                out.push('i');
            },
            DataType::Hex(n) | DataType::Octal(n) | DataType::Binary(n) => push_str(out, &n.inner),
            DataType::Bytes(b) => {
                out.push('#');
                out.push('"');
                let ghost start = out@;
                let mut i: usize = 0;
                while i < b.len()
                    invariant
                        i <= b@.len(),
                        out@ == start + b@.take(i as int).map_values(|x: u8| x as char),
                    decreases b@.len() - i,
                {
                    out.push(b[i] as char);
                    assert(out@ =~= start + b@.take(i + 1).map_values(|x: u8| x as char));
                    i = i + 1;
                }
                assert(b@.take(i as int) =~= b@);
                out.push('"');
            },
            DataType::Boolean(b) => {
                out.push('#');
                out.push(if *b { 't' } else { 'f' });
            },
        }
        assert(out@ =~= old(out)@ + lit_text(self@));
    }
}

impl Tree {
    /// Appends the tree as source text.
    pub fn write_text(&self, out: &mut Vec<char>)
        ensures
            final(out)@ == old(out)@ + expr_text(ExprModel::Paren(self.node_model(), exprs_model(self.children@))),
        decreases self,
    {
        let ghost start = old(out)@;
        out.push('(');
        match &self.node {
            Some(n) => (**n).write_text(out),
            None => {},
        }
        let ghost head = out@;
        proof {
            lemma_exprs_model_index(self.children@);
        }
        let mut i: usize = 0;
        while i < self.children.len()
            invariant
                i <= self.children@.len(),
                out@ == head + operands_text(exprs_model(self.children@).take(i as int)),
                exprs_model(self.children@).len() == self.children@.len(),
                forall|j: int| 0 <= j < self.children@.len()
                    ==> #[trigger] exprs_model(self.children@)[j] == self.children@[j].model(),
            decreases self.children@.len() - i,
        {
            out.push(' ');
            self.children[i].write_text(out);
            proof {
                let cs = exprs_model(self.children@);
                assert(cs.take(i + 1).drop_last() =~= cs.take(i as int));
            }
            assert(out@ =~= head + operands_text(exprs_model(self.children@).take(i + 1)));
            i = i + 1;
        }
        assert(exprs_model(self.children@).take(i as int) =~= exprs_model(self.children@));
        out.push(')');
        assert(out@ =~= start + expr_text(ExprModel::Paren(self.node_model(), exprs_model(self.children@))));
    }
}

impl Expr {
    /// Appends the term as source text.
    pub fn write_text(&self, out: &mut Vec<char>)
        ensures
            final(out)@ == old(out)@ + expr_text(self.model()),
        decreases self,
    {
        match self {
            Expr::Primitive(p) => p.write_text(out),
            Expr::Ident(s) => push_str(out, s),
            Expr::RawQuoted(q) => {
                out.push('\'');
                (**q).write_text(out);
                assert(out@ =~= old(out)@ + expr_text(self.model()));
            },
            Expr::Parenthesized(t) => t.write_text(out),
        }
    }

    /// The term as source text.
    pub fn to_text(&self) -> (r: String)
        ensures
            r@ == expr_text(self.model()),
    {
        let mut out: Vec<char> = Vec::new();
        self.write_text(&mut out);
        assert(out@ =~= expr_text(self.model()));
        let n = out.len();
        text_of(&out, 0, n)
    }
}

fn write_items(items: &Vec<Any>, out: &mut Vec<char>)
    ensures
        final(out)@ == old(out)@ + items_text(values_model(items@)),
    decreases items,
{
    proof {
        lemma_values_model_index(items@);
    }
    let ghost start = old(out)@;
    let ghost vals = values_model(items@);
    let mut i: usize = 0;
    while i < items.len()
        invariant
            i <= items@.len(),
            vals == values_model(items@),
            vals.len() == items@.len(),
            forall|j: int| 0 <= j < items@.len() ==> #[trigger] vals[j] == items@[j].model(),
            out@ == start + items_text(vals.take(i as int)),
        decreases items@.len() - i,
    {
        if i > 0 {
            out.push(' ');
        }
        items[i].write_text(out);
        proof {
            assert(vals.take(i + 1).drop_last() =~= vals.take(i as int));
            if i == 0 {
                assert(vals.take(1) =~= seq![vals[0]]);
            }
        }
        assert(out@ =~= start + items_text(vals.take(i + 1)));
        i = i + 1;
    }
    assert(vals.take(i as int) =~= vals);
}

impl Any {
    /// Appends the value as text.
    pub fn write_text(&self, out: &mut Vec<char>)
        ensures
            final(out)@ == old(out)@ + value_text(self.model()),
        decreases self,
    {
        match self {
            Any::Primitive(p) => p.write_text(out),
            Any::Expression(e) => e.write_text(out),
            Any::Void => {
                assert(out@ =~= old(out)@ + value_text(self.model()));
            },
            Any::Composed(c) => match &**c {
                Composed::List(l) => {
                    out.push('(');
                    write_items(&l.0, out);
                    out.push(')');
                    assert(out@ =~= old(out)@ + value_text(self.model()));
                },
                Composed::Pair(p) => {
                    out.push('(');
                    p.left.write_text(out);
                    out.push(' ');
                    out.push('.');
                    out.push(' ');
                    p.right.write_text(out);
                    out.push(')');
                    assert(out@ =~= old(out)@ + value_text(self.model()));
                },
                Composed::Symbol(s) => push_str(out, &s.0),
                Composed::Function(f) => {
                    assert(self.model() == Value::Func(f.body.model(f.name@, f.arity)));
                    assert(f.body.model(f.name@, f.arity).name == f.name@);
                    out.push('#');
                    out.push('<');
                    out.push('p');
                    out.push('r');
                    out.push('o');
                    out.push('c');
                    out.push('e');
                    out.push('d');
                    out.push('u');
                    out.push('r');
                    out.push('e');
                    out.push(':');
                    push_str(out, &f.name);
                    out.push('>');
                    assert(out@ =~= old(out)@ + value_text(self.model()));
                },
                Composed::Lambda(_) => {
                    out.push('#');
                    out.push('<');
                    out.push('p');
                    out.push('r');
                    out.push('o');
                    out.push('c');
                    out.push('e');
                    out.push('d');
                    out.push('u');
                    out.push('r');
                    out.push('e');
                    out.push('>');
                    assert(out@ =~= old(out)@ + value_text(self.model()));
                },
            },
        }
    }

    /// The value as text.
    pub fn to_text(&self) -> (r: String)
        ensures
            r@ == value_text(self.model()),
    {
        let mut out: Vec<char> = Vec::new();
        self.write_text(&mut out);
        assert(out@ =~= value_text(self.model()));
        let n = out.len();
        text_of(&out, 0, n)
    }
}


impl DataType {
    /// The length of the literal as source text.
    pub fn len(&self) -> (r: usize)
        ensures
            r == lit_text(self@).len(),
    {
        let mut out: Vec<char> = Vec::new();
        self.write_text(&mut out);
        out.len()
    }
}

impl crate::lexer::Token {
    /// The length of the token as source text.
    pub fn token_len(&self) -> (r: usize)
        ensures
            match *self {
                crate::lexer::Token::Ident(s) => r == s@.len(),
                crate::lexer::Token::Primitive(p) => r == lit_text(p@).len(),
                _ => r == 1,
            },
    {
        match self {
            crate::lexer::Token::Ident(s) => s.as_str().unicode_len(),
            crate::lexer::Token::Primitive(p) => p.len(),
            _ => 1,
        }
    }
}

} // verus!
