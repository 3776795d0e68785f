use vstd::prelude::*;

use crate::num::{num_eq, num_lt, spec_num_eq, spec_num_lt};

verus! {

/// Heap-backed runtime objects; the only kind so far is an owned string.
#[derive(Debug, Clone, PartialEq)]
pub enum Obj {
    String(String),
}

/// A runtime value: a number (kept as the bit pattern of an IEEE 754
/// binary64), a boolean, nil, or an object.
#[derive(Debug, Clone, PartialEq)]
pub enum Value {
    Number(u64),
    Bool(bool),
    Nil,
    Obj(Obj),
}

/// Mathematical image of a runtime value; strings become character sequences.
pub enum SpecValue {
    Number(u64),
    Bool(bool),
    Nil,
    Str(Seq<char>),
}

impl View for Obj {
    type V = SpecValue;

    open spec fn view(&self) -> SpecValue {
        match self {
            Obj::String(s) => SpecValue::Str(s@),
        }
    }
}

impl View for Value {
    type V = SpecValue;

    open spec fn view(&self) -> SpecValue {
        match self {
            Value::Number(bits) => SpecValue::Number(*bits),
            Value::Bool(b) => SpecValue::Bool(*b),
            Value::Nil => SpecValue::Nil,
            Value::Obj(o) => o@,
        }
    }
}

impl DeepView for Value {
    type V = SpecValue;

    open spec fn deep_view(&self) -> SpecValue {
        self@
    }
}

/// Only nil and false are falsey.
pub open spec fn spec_falsey(v: SpecValue) -> bool {
    v matches SpecValue::Nil || v matches SpecValue::Bool(false)
}

impl Value {
    /// An exact copy, by value.
    pub fn duplicate(&self) -> (v: Value)
        ensures
            v@ == self@,
    {
        match self {
            Value::Number(bits) => Value::Number(*bits),
            Value::Bool(b) => Value::Bool(*b),
            Value::Nil => Value::Nil,
            Value::Obj(Obj::String(s)) => Value::Obj(Obj::String(s.clone())),
        }
    }

    pub fn is_falsey(&self) -> (r: bool)
        ensures
            r == spec_falsey(self@),
    {
        match self {
            Value::Nil => true,
            Value::Bool(b) => !*b,
            _ => false,
        }
    }
}

/// Strict lexicographic order on character sequences, by code point.
pub open spec fn lex_lt(a: Seq<char>, b: Seq<char>) -> bool
    decreases a.len(),
{
    if b.len() == 0 {
        false
    } else if a.len() == 0 {
        true
    } else if a[0] != b[0] {
        a[0] < b[0]
    } else {
        lex_lt(a.drop_first(), b.drop_first())
    }
}

/// Equality between two values: defined within a variant, false across
/// variants.  Numbers compare as IEEE 754 values, strings by their characters.
pub open spec fn spec_value_eq(a: SpecValue, b: SpecValue) -> bool {
    match (a, b) {
        (SpecValue::Number(x), SpecValue::Number(y)) => spec_num_eq(x, y),
        (SpecValue::Bool(x), SpecValue::Bool(y)) => x == y,
        (SpecValue::Nil, SpecValue::Nil) => true,
        (SpecValue::Str(x), SpecValue::Str(y)) => x == y,
        _ => false,
    }
}

/// Strict order between two values: IEEE 754 order on numbers, false before
/// true, lexicographic order on strings; false across variants and on nil.
pub open spec fn spec_value_lt(a: SpecValue, b: SpecValue) -> bool {
    match (a, b) {
        (SpecValue::Number(x), SpecValue::Number(y)) => spec_num_lt(x, y),
        (SpecValue::Bool(x), SpecValue::Bool(y)) => !x && y,
        (SpecValue::Str(x), SpecValue::Str(y)) => lex_lt(x, y),
        _ => false,
    }
}

pub open spec fn spec_value_gt(a: SpecValue, b: SpecValue) -> bool {
    spec_value_lt(b, a)
}

/// Compares two strings lexicographically by code point.
fn str_lt(a: &str, b: &str) -> (r: bool)
    ensures
        r == lex_lt(a@, b@),
{
    let la = a.unicode_len();
    let lb = b.unicode_len();
    let mut i: usize = 0;
    proof {
        assert(a@.skip(0) =~= a@);
        assert(b@.skip(0) =~= b@);
    }
    loop
        invariant
            i <= la,
            i <= lb,
            la == a@.len(),
            lb == b@.len(),
            lex_lt(a@, b@) == lex_lt(a@.skip(i as int), b@.skip(i as int)),
        decreases la - i,
    {
        if i >= lb {
            proof {
                assert(b@.skip(i as int).len() == 0);
            }
            return false;
        }
        if i >= la {
            proof {
                assert(a@.skip(i as int).len() == 0);
                assert(b@.skip(i as int).len() > 0);
            }
            return true;
        }
        let ca = a.get_char(i);
        let cb = b.get_char(i);
        proof {
            assert(a@.skip(i as int)[0] == a@[i as int]);
            assert(b@.skip(i as int)[0] == b@[i as int]);
        }
        if ca != cb {
            return ca < cb;
        }
        proof {
            assert(a@.skip(i as int).drop_first() =~= a@.skip(i + 1));
            assert(b@.skip(i as int).drop_first() =~= b@.skip(i + 1));
        }
        i = i + 1;
    }
}

/// Equality as the `Equal` instruction sees it.
pub fn value_eq(a: &Value, b: &Value) -> (r: bool)
    ensures
        r == spec_value_eq(a@, b@),
{
    match (a, b) {
        (Value::Number(x), Value::Number(y)) => num_eq(*x, *y),
        (Value::Bool(x), Value::Bool(y)) => *x == *y,
        (Value::Nil, Value::Nil) => true,
        (Value::Obj(Obj::String(x)), Value::Obj(Obj::String(y))) => *x == *y,
        _ => false,
    }
}

/// Strict order as the `Less` instruction sees it.
pub fn value_lt(a: &Value, b: &Value) -> (r: bool)
    ensures
        r == spec_value_lt(a@, b@),
{
    match (a, b) {
        (Value::Number(x), Value::Number(y)) => num_lt(*x, *y),
        (Value::Bool(x), Value::Bool(y)) => !*x && *y,
        (Value::Obj(Obj::String(x)), Value::Obj(Obj::String(y))) => str_lt(x.as_str(), y.as_str()),
        _ => false,
    }
}

/// Strict order as the `Greater` instruction sees it.
pub fn value_gt(a: &Value, b: &Value) -> (r: bool)
    ensures
        r == spec_value_gt(a@, b@),
{
    value_lt(b, a)
}

} // verus!
