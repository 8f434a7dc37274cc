//! Errors raised while evaluating.
use vstd::prelude::*;
use crate::data_types::Lit;
use crate::value::Value;

verus! {

/// Built-in functions of the interpreter.
#[derive(Debug, Clone, Copy, PartialEq, Eq)]
pub enum Native {
    Cons,
    List,
    Define,
    Exit,
    Eq,
    Gt,
    Lt,
    Ge,
    Le,
    Add,
    Sub,
    Mul,
    Div,
    MapList,
    Foldr,
    Foldl,
    Filter,
    IsString,
    StringAppend,
    MakeString,
    StringToList,
    ListToString,
    StringLength,
    StringRef,
    Substring,
    Length,
    ListRef,
    ListTail,
    Append,
    Reverse,
    If,
    Cond,
    And,
    Or,
    Not,
    Xor,
}

/// The kind of a runtime value, or of what a function expects in its place.
#[derive(Debug, Clone, Copy, PartialEq, Eq)]
pub enum Kind {
    String,
    Character,
    Integer,
    Rational,
    Complex,
    Hex,
    Octal,
    Binary,
    Bytes,
    Boolean,
    List,
    Function,
    Lambda,
    Symbol,
    Pair,
    Expression,
    Void,
    NonNegativeInteger,
    Number,
    Callable,
}

/// The kind of a value.
pub open spec fn kind_of(v: Value) -> Kind {
    match v {
        Value::Prim(p) => match p {
            Lit::Str(_) => Kind::String,
            Lit::Char(_) => Kind::Character,
            Lit::Int(_) => Kind::Integer,
            Lit::Rational(_) => Kind::Rational,
            Lit::Complex(_) => Kind::Complex,
            Lit::Number(r, _) => match r {
                crate::data_types::Repr::Hex => Kind::Hex,
                crate::data_types::Repr::Octal => Kind::Octal,
                crate::data_types::Repr::Binary => Kind::Binary,
            },
            Lit::Bytes(_) => Kind::Bytes,
            Lit::Bool(_) => Kind::Boolean,
        },
        Value::List(_) => Kind::List,
        Value::Pair(_, _) => Kind::Pair,
        Value::Symbol(_) => Kind::Symbol,
        Value::Func(_) => Kind::Function,
        Value::Lambda(_) => Kind::Lambda,
        Value::Expr(_) => Kind::Expression,
        Value::Void => Kind::Void,
    }
}

/// Errors of built-in functions.
#[derive(Debug, Clone, Copy, PartialEq, Eq)]
#[allow(inconsistent_fields)]
pub enum NativeFnError {
    ArityMismatch { expected: usize, got: usize },
    IdentifierExpectedIn { call: Native },
    UnexpectedType { function: Native, argument_position: usize, got: Kind, expected: Kind },
    NotYetImplemented,
    InvalidType { got: Kind },
    Overflow,
    DivisionByZero,
}

/// Errors of user-declared functions.
#[derive(Debug, Clone, Copy, PartialEq, Eq)]
pub enum DeclaredFunctionError {
    ArityMismatch { expected: usize, got: usize },
    InvalidExpression,
}

/// Any error of evaluation.
#[derive(Debug, Clone, PartialEq, Eq)]
pub enum InterpreterError {
    UndefinedFunction(String),
    MissingTreeNode,
    NativeError(NativeFnError),
    DeclaredFnError(DeclaredFunctionError),
    UnknownIdentifier(String),
    OutOfBounds { length: usize, got: usize },
    InvalidRange { start: usize, end: usize },
    InvalidExpression,
    /// Evaluation nested deeper than the depth it was given.
    RecursionLimit,
    /// The program asked to stop.
    Exit,
}

} // verus!
