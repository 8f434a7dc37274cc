//! String built-ins.
use vstd::prelude::*;
use vstd::string::{StrSliceExecFns, StringExecFns};
use crate::context::Context;
use crate::data_types::{DataType, Lit};
use crate::error::{InterpreterError, Kind, Native, NativeFnError};
use crate::lists::{non_negative_int, unexpected};
use crate::native::{arity_error, eval_arg};
use crate::value::{Any, AnyEval, Value, values_model, lemma_values_model_index};
use crate::lists::{list_value, require_list};
use crate::error::kind_of;
use crate::vars::OwnedStorage;
use crate::semantics::{lemma_prepend_cat, outcome, prepend, sem_is_string, sem_list_to_string, sem_make_string, sem_string_append, sem_string_append_from, sem_string_length, sem_string_ref, sem_string_to_list, sem_substring};

verus! {

/// The text of an evaluated operand that must be a string.
pub fn require_string(v: &Any, f: Native, position: usize) -> (r: Result<String, InterpreterError>)
    ensures
        match v.model() {
            Value::Prim(Lit::Str(s)) => r is Ok && r->Ok_0@ == s,
            _ => r == Err::<String, InterpreterError>(unexpected(f, position as int, v.model(), Kind::String)),
        },
{
    match v {
        Any::Primitive(DataType::String(s)) => Ok(s.clone()),
        _ => Err(InterpreterError::NativeError(NativeFnError::UnexpectedType {
            function: f,
            argument_position: position,
            got: Any::kind(v),
            expected: Kind::String,
        })),
    }
}

/// The number of characters, as an integer value.
pub fn string_length_of(s: &String) -> (r: Result<Any, InterpreterError>)
    ensures
        s@.len() <= i32::MAX ==> r == Ok::<Any, InterpreterError>(Any::Primitive(DataType::Integer(s@.len() as i32))),
        s@.len() > i32::MAX ==> r == Err::<Any, InterpreterError>(InterpreterError::NativeError(NativeFnError::Overflow)),
{
    let n = s.as_str().unicode_len();
    if n <= 0x7fff_ffff {
        Ok(Any::Primitive(DataType::Integer(n as i32)))
    } else {
        Err(InterpreterError::NativeError(NativeFnError::Overflow))
    }
}

/// The character at `index`, as a character value.
pub fn string_ref_of(s: &String, index: usize) -> (r: Result<Any, InterpreterError>)
    ensures
        index < s@.len() ==> r is Ok && r->Ok_0.model() == Value::Prim(Lit::Char(seq![s@[index as int]])),
        index >= s@.len() ==> r == Err::<Any, InterpreterError>(
            InterpreterError::OutOfBounds { length: s@.len() as usize, got: index }),
{
    let n = s.as_str().unicode_len();
    if index < n {
        let c = s.as_str().substring_char(index, index + 1).to_owned();
        assert(c@ =~= seq![s@[index as int]]);
        Ok(Any::Primitive(DataType::Character(c)))
    } else {
        Err(InterpreterError::OutOfBounds { length: n, got: index })
    }
}

/// The characters from `start` up to `end` (to the end when none is given).
pub fn substring_of(s: &String, start: usize, end: Option<usize>) -> (r: Result<Any, InterpreterError>)
    ensures
        ({
            let e: int = match end { Some(e) => e as int, None => s@.len() as int };
            if e < start {
                r == Err::<Any, InterpreterError>(InterpreterError::InvalidRange { start, end: e as usize })
            } else if e > s@.len() {
                r == Err::<Any, InterpreterError>(InterpreterError::OutOfBounds { length: s@.len() as usize, got: e as usize })
            } else {
                r is Ok && r->Ok_0.model() == Value::Prim(Lit::Str(s@.subrange(start as int, e)))
            }
        }),
{
    let n = s.as_str().unicode_len();
    let e = match end {
        Some(e) => e,
        None => n,
    };
    if e < start {
        Err(InterpreterError::InvalidRange { start, end: e })
    } else if e > n {
        Err(InterpreterError::OutOfBounds { length: n, got: e })
    } else {
        let sub = s.as_str().substring_char(start, e).to_owned();
        Ok(Any::Primitive(DataType::String(sub)))
    }
}

fn arity_mismatch(expected: usize, got: usize) -> (r: Result<Any, InterpreterError>)
    ensures
        r == arity_error(expected, got as int),
{
    Err(InterpreterError::NativeError(NativeFnError::ArityMismatch { expected, got }))
}

/// `(string? v)`.
pub fn is_string(cx: &Context, globals: &mut OwnedStorage, fuel: usize, args: &Vec<AnyEval>) -> (r: Result<Any, InterpreterError>)
    ensures
        final(globals)@ == old(globals)@,
        outcome(r) == sem_is_string(fuel as nat, cx.local_variables@, old(globals)@, crate::value::terms_model(args@)),
    decreases fuel, 3nat,
{
    proof {
        crate::value::lemma_terms_model_index(args@);
    }
    if args.len() != 1 {
        return arity_mismatch(1, args.len());
    }
    match eval_arg(cx, globals, fuel, &args[0]) {
        Ok(Any::Primitive(DataType::String(_))) => Ok(Any::Primitive(DataType::Boolean(true))),
        Ok(_) => Ok(Any::Primitive(DataType::Boolean(false))),
        Err(e) => Err(e),
    }
}

/// `(string-append s t ...)`: the strings joined in order.
#[verifier::loop_isolation(false)]
pub fn string_append(cx: &Context, globals: &mut OwnedStorage, fuel: usize, args: &Vec<AnyEval>) -> (r: Result<Any, InterpreterError>)
    ensures
        final(globals)@ == old(globals)@,
        outcome(r) == sem_string_append(fuel as nat, cx.local_variables@, old(globals)@, crate::value::terms_model(args@)),
    decreases fuel, 3nat,
{
    proof {
        crate::value::lemma_terms_model_index(args@);
    }
    if args.len() < 2 {
        return arity_mismatch(2, args.len());
    }
    let ghost l = cx.local_variables@;
    let ghost g = old(globals)@;
    let ghost ts = crate::value::terms_model(args@);
    let mut joined = String::new();
    proof {
        lemma_prepend_cat(Seq::<char>::empty(), Seq::<char>::empty(), sem_string_append_from(fuel as nat, l, g, ts, 0));
        assert(Seq::<char>::empty() + Seq::<char>::empty() =~= Seq::<char>::empty());
    }
    let mut i: usize = 0;
    while i < args.len()
        invariant
            i <= args@.len(),
            globals@ == g,
            ts == crate::value::terms_model(args@),
            ts.len() == args@.len(),
            forall|j: int| 0 <= j < args@.len() ==> #[trigger] ts[j] == args@[j].model(),
            sem_string_append_from(fuel as nat, l, g, ts, 0)
                == prepend(joined@, sem_string_append_from(fuel as nat, l, g, ts, i as int)),
        decreases args@.len() - i,
    {
        let v = match eval_arg(cx, globals, fuel, &args[i]) {
            Ok(v) => v,
            Err(e) => { return Err(e); },
        };
        let s = match require_string(&v, Native::StringAppend, i + 1) {
            Ok(s) => s,
            Err(e) => { return Err(e); },
        };
        proof {
            lemma_prepend_cat(joined@, s@, sem_string_append_from(fuel as nat, l, g, ts, i + 1));
        }
        joined.append(s.as_str());
        i = i + 1;
    }
    proof {
        lemma_prepend_cat(joined@, Seq::<char>::empty(), Ok(Seq::empty()));
    }
    Ok(Any::Primitive(DataType::String(joined)))
}

/// `(string-length s)`.
pub fn string_length(cx: &Context, globals: &mut OwnedStorage, fuel: usize, args: &Vec<AnyEval>) -> (r: Result<Any, InterpreterError>)
    ensures
        final(globals)@ == old(globals)@,
        outcome(r) == sem_string_length(fuel as nat, cx.local_variables@, old(globals)@, crate::value::terms_model(args@)),
    decreases fuel, 3nat,
{
    proof {
        crate::value::lemma_terms_model_index(args@);
    }
    if args.len() != 1 {
        return arity_mismatch(1, args.len());
    }
    let v = match eval_arg(cx, globals, fuel, &args[0]) {
        Ok(v) => v,
        Err(e) => { return Err(e); },
    };
    match require_string(&v, Native::StringLength, 1) {
        Ok(s) => string_length_of(&s),
        Err(e) => Err(e),
    }
}

/// `(string-ref s k)`.
pub fn string_ref(cx: &Context, globals: &mut OwnedStorage, fuel: usize, args: &Vec<AnyEval>) -> (r: Result<Any, InterpreterError>)
    ensures
        final(globals)@ == old(globals)@,
        outcome(r) == sem_string_ref(fuel as nat, cx.local_variables@, old(globals)@, crate::value::terms_model(args@)),
    decreases fuel, 3nat,
{
    proof {
        crate::value::lemma_terms_model_index(args@);
    }
    if args.len() != 2 {
        return arity_mismatch(2, args.len());
    }
    let v = match eval_arg(cx, globals, fuel, &args[0]) {
        Ok(v) => v,
        Err(e) => { return Err(e); },
    };
    let s = match require_string(&v, Native::StringRef, 1) {
        Ok(s) => s,
        Err(e) => { return Err(e); },
    };
    let iv = match eval_arg(cx, globals, fuel, &args[1]) {
        Ok(v) => v,
        Err(e) => { return Err(e); },
    };
    match non_negative_int(&iv, Native::StringRef, 2) {
        Ok(index) => string_ref_of(&s, index),
        Err(e) => Err(e),
    }
}

/// `(substring s start [end])`.
pub fn substring(cx: &Context, globals: &mut OwnedStorage, fuel: usize, args: &Vec<AnyEval>) -> (r: Result<Any, InterpreterError>)
    ensures
        final(globals)@ == old(globals)@,
        outcome(r) == sem_substring(fuel as nat, cx.local_variables@, old(globals)@, crate::value::terms_model(args@)),
    decreases fuel, 3nat,
{
    proof {
        crate::value::lemma_terms_model_index(args@);
    }
    if args.len() != 2 && args.len() != 3 {
        return arity_mismatch(3, args.len());
    }
    let v = match eval_arg(cx, globals, fuel, &args[0]) {
        Ok(v) => v,
        Err(e) => { return Err(e); },
    };
    let s = match require_string(&v, Native::Substring, 1) {
        Ok(s) => s,
        Err(e) => { return Err(e); },
    };
    let sv = match eval_arg(cx, globals, fuel, &args[1]) {
        Ok(v) => v,
        Err(e) => { return Err(e); },
    };
    let start = match non_negative_int(&sv, Native::Substring, 2) {
        Ok(i) => i,
        Err(e) => { return Err(e); },
    };
    let end = if args.len() == 3 {
        let ev = match eval_arg(cx, globals, fuel, &args[2]) {
            Ok(v) => v,
            Err(e) => { return Err(e); },
        };
        match non_negative_int(&ev, Native::Substring, 3) {
            Ok(i) => Some(i),
            Err(e) => { return Err(e); },
        }
    } else {
        None
    };
    substring_of(&s, start, end)
}


/// `s` written `n` times.
pub open spec fn repeat(s: Seq<char>, n: nat) -> Seq<char>
    decreases n,
{
    if n == 0 {
        Seq::empty()
    } else {
        repeat(s, (n - 1) as nat) + s
    }
}

/// The character values of each character of a text, in order.
pub open spec fn char_values(s: Seq<char>) -> Seq<Value> {
    s.map_values(|c: char| Value::Prim(Lit::Char(seq![c])))
}

/// The texts of character values joined; an error names the first value that is no character.
pub open spec fn join_chars(vals: Seq<Value>) -> Result<Seq<char>, NativeFnError>
    decreases vals.len(),
{
    if vals.len() == 0 {
        Ok(Seq::empty())
    } else {
        match join_chars(vals.drop_last()) {
            Err(e) => Err(e),
            Ok(prefix) => match vals.last() {
                Value::Prim(Lit::Char(t)) => Ok(prefix + t),
                other => Err(NativeFnError::InvalidType { got: kind_of(other) }),
            },
        }
    }
}

/// The text `c` repeated `n` times.
pub fn make_string_of(n: usize, c: &String) -> (r: String)
    ensures
        r@ == repeat(c@, n as nat),
{
    let mut out = String::new();
    let mut i: usize = 0;
    while i < n
        invariant
            i <= n,
            out@ == repeat(c@, i as nat),
        decreases n - i,
    {
        out.append(c.as_str());
        i = i + 1;
    }
    out
}

/// A character value for each character of `s`.
pub fn string_to_list_of(s: &String) -> (r: Vec<Any>)
    ensures
        values_model(r@) == char_values(s@),
{
    let n = s.as_str().unicode_len();
    let mut out: Vec<Any> = Vec::with_capacity(n);
    let mut i: usize = 0;
    while i < n
        invariant
            i <= n,
            n == s@.len(),
            out@.len() == i,
            forall|j: int| 0 <= j < i ==> #[trigger] out@[j].model() == Value::Prim(Lit::Char(seq![s@[j]])),
        decreases n - i,
    {
        let c = s.as_str().substring_char(i, i + 1).to_owned();
        assert(c@ =~= seq![s@[i as int]]);
        out.push(Any::Primitive(DataType::Character(c)));
        i = i + 1;
    }
    proof {
        lemma_values_model_index(out@);
        assert(values_model(out@) =~= char_values(s@));
    }
    out
}

/// The texts of character values joined in order.
pub fn list_to_string_of(items: &Vec<Any>) -> (r: Result<String, InterpreterError>)
    ensures
        match join_chars(values_model(items@)) {
            Ok(t) => r is Ok && r->Ok_0@ == t,
            Err(e) => r == Err::<String, InterpreterError>(InterpreterError::NativeError(e)),
        },
{
    let ghost vals = values_model(items@);
    proof {
        lemma_values_model_index(items@);
    }
    let mut out = String::new();
    let mut i: usize = 0;
    while i < items.len()
        invariant
            i <= items@.len(),
            vals == values_model(items@),
            vals.len() == items@.len(),
            forall|j: int| 0 <= j < items@.len() ==> #[trigger] vals[j] == items@[j].model(),
            join_chars(vals.take(i as int)) == Ok::<Seq<char>, NativeFnError>(out@),
        decreases items@.len() - i,
    {
        assert(vals.take(i + 1).drop_last() =~= vals.take(i as int));
        match &items[i] {
            Any::Primitive(DataType::Character(t)) => {
                out.append(t.as_str());
            },
            other => {
                proof {
                    lemma_join_prefix_err(vals, i + 1);
                }
                return Err(InterpreterError::NativeError(NativeFnError::InvalidType { got: Any::kind(other) }));
            },
        }
        i = i + 1;
    }
    assert(vals.take(i as int) =~= vals);
    Ok(out)
}

proof fn lemma_join_prefix_err(vals: Seq<Value>, k: int)
    requires
        0 <= k <= vals.len(),
        join_chars(vals.take(k)) is Err,
    ensures
        join_chars(vals) == join_chars(vals.take(k)),
    decreases vals.len() - k,
{
    if k < vals.len() {
        assert(vals.take(k + 1).drop_last() =~= vals.take(k));
        lemma_join_prefix_err(vals, k + 1);
    } else {
        assert(vals.take(k) =~= vals);
    }
}

/// `(make-string k c)`: the character `c` repeated `k` times.
pub fn make_string(cx: &Context, globals: &mut OwnedStorage, fuel: usize, args: &Vec<AnyEval>) -> (r: Result<Any, InterpreterError>)
    ensures
        final(globals)@ == old(globals)@,
        outcome(r) == sem_make_string(fuel as nat, cx.local_variables@, old(globals)@, crate::value::terms_model(args@)),
    decreases fuel, 3nat,
{
    proof {
        crate::value::lemma_terms_model_index(args@);
    }
    if args.len() != 2 {
        return arity_mismatch(2, args.len());
    }
    let nv = match eval_arg(cx, globals, fuel, &args[0]) {
        Ok(v) => v,
        Err(e) => { return Err(e); },
    };
    let times = match non_negative_int(&nv, Native::MakeString, 1) {
        Ok(i) => i,
        Err(e) => { return Err(e); },
    };
    let cv = match eval_arg(cx, globals, fuel, &args[1]) {
        Ok(v) => v,
        Err(e) => { return Err(e); },
    };
    match &cv {
        Any::Primitive(DataType::Character(c)) => Ok(Any::Primitive(DataType::String(make_string_of(times, c)))),
        other => Err(InterpreterError::NativeError(NativeFnError::UnexpectedType {
            function: Native::MakeString,
            argument_position: 2,
            got: Any::kind(other),
            expected: Kind::Character,
        })),
    }
}

/// `(string->list s)`: the characters of `s`, in order.
pub fn string_to_list(cx: &Context, globals: &mut OwnedStorage, fuel: usize, args: &Vec<AnyEval>) -> (r: Result<Any, InterpreterError>)
    ensures
        final(globals)@ == old(globals)@,
        outcome(r) == sem_string_to_list(fuel as nat, cx.local_variables@, old(globals)@, crate::value::terms_model(args@)),
    decreases fuel, 3nat,
{
    proof {
        crate::value::lemma_terms_model_index(args@);
    }
    if args.len() != 1 {
        return arity_mismatch(1, args.len());
    }
    let v = match eval_arg(cx, globals, fuel, &args[0]) {
        Ok(v) => v,
        Err(e) => { return Err(e); },
    };
    match require_string(&v, Native::StringToList, 1) {
        Ok(s) => {
            let items = string_to_list_of(&s);
            assert(values_model(items@) == char_values(s@));
            Ok(list_value(items))
        },
        Err(e) => Err(e),
    }
}

/// `(list->string list)`: the characters of a list joined.
pub fn list_to_string(cx: &Context, globals: &mut OwnedStorage, fuel: usize, args: &Vec<AnyEval>) -> (r: Result<Any, InterpreterError>)
    ensures
        final(globals)@ == old(globals)@,
        outcome(r) == sem_list_to_string(fuel as nat, cx.local_variables@, old(globals)@, crate::value::terms_model(args@)),
    decreases fuel, 3nat,
{
    proof {
        crate::value::lemma_terms_model_index(args@);
    }
    if args.len() != 1 {
        return arity_mismatch(1, args.len());
    }
    let v = match eval_arg(cx, globals, fuel, &args[0]) {
        Ok(v) => v,
        Err(e) => { return Err(e); },
    };
    let items = match require_list(&v, Native::ListToString, 1) {
        Ok(items) => items,
        Err(e) => { return Err(e); },
    };
    match list_to_string_of(&items) {
        Ok(s) => Ok(Any::Primitive(DataType::String(s))),
        Err(e) => Err(e),
    }
}

} // verus!
