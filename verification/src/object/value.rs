//! The mathematical model of values, and what the operations on them give.
//!
//! A float is modelled by the 64 bits of its IEEE-754 double representation.

use crate::error::RuntimeError;
use vstd::prelude::*;

verus! {

/// What a runtime value is.
pub enum Value {
    Null,
    True,
    False,
    Integer(i64),
    /// The bits of an IEEE-754 double.
    Float(u64),
    Str(Seq<char>),
    Tuple(Seq<Value>),
    SetValue(Seq<Value>),
    Function {
        code: Seq<u8>,
        locals: nat,
        required: u16,
        optional: u16,
        captured: Seq<Value>,
    },
}

/// The sign bit of a double.
pub const FLOAT_SIGN: u64 = 0x8000_0000_0000_0000;

/// The exponent and fraction bits of a double.
pub const FLOAT_MAGNITUDE: u64 = 0x7fff_ffff_ffff_ffff;

/// The bits of positive infinity: all exponent bits and no other.
pub const FLOAT_INFINITY: u64 = 0x7ff0_0000_0000_0000;

/// Whether the bits are a NaN: all exponent bits set and a fraction that is
/// not zero, that is a magnitude above that of infinity.
pub open spec fn float_is_nan(bits: u64) -> bool {
    (bits & FLOAT_MAGNITUDE) > FLOAT_INFINITY
}

/// Whether the bits are positive or negative zero.
pub open spec fn float_is_zero(bits: u64) -> bool {
    (bits & FLOAT_MAGNITUDE) == 0
}

/// IEEE-754 equality: a NaN equals nothing, the two zeros equal each other,
/// and any other two floats are equal when their bits are.
pub open spec fn float_equals(a: u64, b: u64) -> bool {
    &&& !float_is_nan(a)
    &&& !float_is_nan(b)
    &&& (a == b || (float_is_zero(a) && float_is_zero(b)))
}

/// IEEE-754 negation: the sign bit flipped.
pub open spec fn float_negate(bits: u64) -> u64 {
    bits ^ FLOAT_SIGN
}

/// The value that stands for a truth value.
pub open spec fn truth(b: bool) -> Value {
    if b {
        Value::True
    } else {
        Value::False
    }
}

/// Truthiness: `True`, a number that is not zero, a string, tuple or set that
/// is not empty, and any function.
pub open spec fn truthy(v: Value) -> bool {
    match v {
        Value::Null => false,
        Value::True => true,
        Value::False => false,
        Value::Integer(n) => n != 0,
        Value::Float(bits) => !float_is_zero(bits),
        Value::Str(s) => s.len() > 0,
        Value::Tuple(els) => els.len() > 0,
        Value::SetValue(els) => els.len() > 0,
        Value::Function { .. } => true,
    }
}

/// Logical negation, defined on the two truth values only.
pub open spec fn not(v: Value) -> Result<Value, RuntimeError> {
    match v {
        Value::True => Ok(Value::False),
        Value::False => Ok(Value::True),
        _ => Err(RuntimeError::TypeError),
    }
}

/// Arithmetic negation, defined on numbers only. The smallest integer is its
/// own negation.
pub open spec fn negate(v: Value) -> Result<Value, RuntimeError> {
    match v {
        Value::Integer(n) => Ok(
            Value::Integer(
                if n == i64::MIN {
                    n
                } else {
                    (-n) as i64
                },
            ),
        ),
        Value::Float(bits) => Ok(Value::Float(float_negate(bits))),
        _ => Err(RuntimeError::TypeError),
    }
}

/// Structural equality: two values are equal when they are of the same kind
/// and their parts are equal, floats by IEEE-754 equality and the elements of
/// tuples and sets one by one, in order.
pub open spec fn equals(a: Value, b: Value) -> bool
    decreases a,
{
    match (a, b) {
        (Value::Null, Value::Null) => true,
        (Value::True, Value::True) => true,
        (Value::False, Value::False) => true,
        (Value::Integer(x), Value::Integer(y)) => x == y,
        (Value::Float(x), Value::Float(y)) => float_equals(x, y),
        (Value::Str(x), Value::Str(y)) => x == y,
        (Value::Tuple(xs), Value::Tuple(ys)) => all_equal(xs, ys),
        (Value::SetValue(xs), Value::SetValue(ys)) => all_equal(xs, ys),
        (
            Value::Function { code: c1, locals: l1, required: r1, optional: o1, captured: v1 },
            Value::Function { code: c2, locals: l2, required: r2, optional: o2, captured: v2 },
        ) => c1 == c2 && l1 == l2 && r1 == r2 && o1 == o2 && all_equal(v1, v2),
        _ => false,
    }
}

/// Two sequences of values are equal when they are as long as each other and
/// equal at each position.
pub open spec fn all_equal(xs: Seq<Value>, ys: Seq<Value>) -> bool
    decreases xs,
{
    &&& xs.len() == ys.len()
    &&& forall|i: int| 0 <= i < xs.len() ==> equals(#[trigger] xs[i], ys[i])
}

/// Indexing: the character of a string or the element of a tuple at a
/// position counted from zero.
pub open spec fn index_of(container: Value, key: Value) -> Result<Value, RuntimeError> {
    match (container, key) {
        (Value::Str(s), Value::Integer(i)) => if 0 <= i < s.len() {
            Ok(Value::Str(seq![s[i as int]]))
        } else {
            Err(RuntimeError::IndexError)
        },
        (Value::Tuple(els), Value::Integer(i)) => if 0 <= i < els.len() {
            Ok(els[i as int])
        } else {
            Err(RuntimeError::IndexError)
        },
        _ => Err(RuntimeError::TypeError),
    }
}

/// Whether a NaN occurs anywhere inside the value.
pub open spec fn has_nan(v: Value) -> bool
    decreases v,
{
    match v {
        Value::Float(bits) => float_is_nan(bits),
        Value::Tuple(els) => exists|i: int| 0 <= i < els.len() && has_nan(#[trigger] els[i]),
        Value::SetValue(els) => exists|i: int| 0 <= i < els.len() && has_nan(#[trigger] els[i]),
        Value::Function { captured, .. } => exists|i: int|
            0 <= i < captured.len() && has_nan(#[trigger] captured[i]),
        _ => false,
    }
}

/// Negating a truth value twice gives it back.
pub proof fn lemma_not_involution(v: Value)
    requires
        v is True || v is False,
    ensures
        not(v) is Ok,
        not(not(v)->Ok_0) == Ok::<Value, RuntimeError>(v),
{
}

/// On anything but a truth value, negation fails with a type error.
pub proof fn lemma_not_rejects_others(v: Value)
    requires
        !(v is True) && !(v is False),
    ensures
        not(v) == Err::<Value, RuntimeError>(RuntimeError::TypeError),
{
}

/// Two values are unequal exactly when they are not equal: the truth value
/// of the one is the negation of the truth value of the other.
pub proof fn lemma_unequal_is_not_equal(a: Value, b: Value)
    ensures
        not(truth(equals(a, b))) == Ok::<Value, RuntimeError>(truth(!equals(a, b))),
        truthy(truth(equals(a, b))) == equals(a, b),
{
}

/// A value that holds no NaN equals itself.
pub proof fn lemma_equals_reflexive(v: Value)
    requires
        !has_nan(v),
    ensures
        equals(v, v),
    decreases v,
{
    match v {
        Value::Tuple(els) => {
            assert forall|i: int| 0 <= i < els.len() implies equals(#[trigger] els[i], els[i]) by {
                lemma_equals_reflexive(els[i]);
            }
        },
        Value::SetValue(els) => {
            assert forall|i: int| 0 <= i < els.len() implies equals(#[trigger] els[i], els[i]) by {
                lemma_equals_reflexive(els[i]);
            }
        },
        Value::Function { captured, .. } => {
            assert forall|i: int| 0 <= i < captured.len() implies equals(
                #[trigger] captured[i],
                captured[i],
            ) by {
                lemma_equals_reflexive(captured[i]);
            }
        },
        _ => {},
    }
}

/// Equality is symmetric.
pub proof fn lemma_equals_symmetric(a: Value, b: Value)
    ensures
        equals(a, b) == equals(b, a),
    decreases a,
{
    match (a, b) {
        (Value::Tuple(xs), Value::Tuple(ys)) => {
            lemma_all_equal_symmetric(xs, ys);
        },
        (Value::SetValue(xs), Value::SetValue(ys)) => {
            lemma_all_equal_symmetric(xs, ys);
        },
        (Value::Function { captured: xs, .. }, Value::Function { captured: ys, .. }) => {
            lemma_all_equal_symmetric(xs, ys);
        },
        _ => {},
    }
}

/// Equality of sequences of values is symmetric.
pub proof fn lemma_all_equal_symmetric(xs: Seq<Value>, ys: Seq<Value>)
    ensures
        all_equal(xs, ys) == all_equal(ys, xs),
    decreases xs,
{
    if xs.len() == ys.len() {
        assert forall|i: int| 0 <= i < xs.len() implies equals(#[trigger] xs[i], ys[i]) == equals(
            ys[i],
            xs[i],
        ) by {
            lemma_equals_symmetric(xs[i], ys[i]);
        }
        if all_equal(xs, ys) {
            assert forall|i: int| 0 <= i < ys.len() implies equals(#[trigger] ys[i], xs[i]) by {
                assert(equals(xs[i], ys[i]));
            }
        }
        if all_equal(ys, xs) {
            assert forall|i: int| 0 <= i < xs.len() implies equals(#[trigger] xs[i], ys[i]) by {
                assert(equals(ys[i], xs[i]));
            }
        }
    }
}

} // verus!
