//! Literal (primitive) data read from source text.
use vstd::prelude::*;

verus! {

/// Ratio of two integers, written `a/b`.
#[derive(Debug, Clone, Copy, PartialEq, Eq)]
pub struct Rational {
    pub left: i32,
    pub right: i32,
}

/// Complex number `a+bi`.
#[derive(Debug, Clone, Copy, PartialEq, Eq)]
pub struct Complex {
    pub includes_prefix: bool,
    pub real: i32,
    pub imaginary: i32,
}

/// Radix of a prefixed number literal.
#[derive(Debug, Clone, Copy, PartialEq, Eq)]
pub enum Repr {
    Hex,
    Octal,
    Binary,
}

/// A prefixed number literal (`#x1f`, `#o17`, `#b101`), kept as written.
#[derive(Debug, Clone, PartialEq)]
pub struct LiteralNumber {
    pub inner: String,
    pub repr: Repr,
}

/// A primitive literal.
#[derive(Debug, Clone, PartialEq)]
pub enum DataType {
    String(String),
    Character(String),
    Integer(i32),
    Rational(Rational),
    Complex(Complex),
    Hex(LiteralNumber),
    Octal(LiteralNumber),
    Binary(LiteralNumber),
    Bytes(Vec<u8>),
    Boolean(bool),
}

/// Mathematical model of a literal: text becomes a sequence of characters.
pub enum Lit {
    Str(Seq<char>),
    Char(Seq<char>),
    Int(i32),
    Rational(Rational),
    Complex(Complex),
    Number(Repr, Seq<char>),
    Bytes(Seq<u8>),
    Bool(bool),
}

impl View for DataType {
    type V = Lit;

    open spec fn view(&self) -> Lit {
        match self {
            DataType::String(s) => Lit::Str(s@),
            DataType::Character(s) => Lit::Char(s@),
            DataType::Integer(i) => Lit::Int(*i),
            DataType::Rational(r) => Lit::Rational(*r),
            DataType::Complex(c) => Lit::Complex(*c),
            DataType::Hex(n) => Lit::Number(Repr::Hex, n.inner@),
            DataType::Octal(n) => Lit::Number(Repr::Octal, n.inner@),
            DataType::Binary(n) => Lit::Number(Repr::Binary, n.inner@),
            DataType::Bytes(b) => Lit::Bytes(b@),
            DataType::Boolean(b) => Lit::Bool(*b),
        }
    }
}

impl LiteralNumber {
    pub fn make_static(&self) -> (r: LiteralNumber)
        ensures
            r.inner@ == self.inner@,
            r.repr == self.repr,
    {
        LiteralNumber { inner: self.inner.clone(), repr: self.repr }
    }
}

impl DataType {
    /// A copy with the same model.
    pub fn make_static(&self) -> (r: DataType)
        ensures
            r@ == self@,
    {
        match self {
            DataType::String(s) => DataType::String(s.clone()),
            DataType::Character(s) => DataType::Character(s.clone()),
            DataType::Integer(i) => DataType::Integer(*i),
            DataType::Rational(r) => DataType::Rational(*r),
            DataType::Complex(c) => DataType::Complex(*c),
            DataType::Hex(n) => DataType::Hex(n.make_static()),
            DataType::Octal(n) => DataType::Octal(n.make_static()),
            DataType::Binary(n) => DataType::Binary(n.make_static()),
            DataType::Bytes(b) => DataType::Bytes(b.clone()),
            DataType::Boolean(b) => DataType::Boolean(*b),
        }
    }
}

} // verus!
