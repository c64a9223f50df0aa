//! The arithmetic and relational kernel.
//!
//! Integer arithmetic wraps around on overflow. What needs floating-point
//! arithmetic is not computed here: the kernel decides that the operation is
//! defined and hands the operands out as a `FloatRequest`.

use super::object::{BaseObject, ObjectOps};
use super::value::{float_is_zero, negate, truth, Value, FLOAT_MAGNITUDE, FLOAT_SIGN};
use crate::code::code::{Add, Div, Exp, IntDiv, Lt, Lteq, Mult, OpCode, Subtract};
use crate::error::RuntimeError;
use std::rc::Rc;
use vstd::arithmetic::div_mod::lemma_mul_mod_noop_general;
use vstd::arithmetic::power::{lemma_pow0, lemma_pow_mod_noop, lemma_pow_multiplies, pow};
use vstd::prelude::*;
use vstd::wrapping::i64_specs::{signed_crop, wrapping_add, wrapping_mul, wrapping_sub};

verus! {

/// An operand of a floating-point operation.
#[derive(Debug, Clone, Copy, PartialEq, Eq, Structural)]
pub enum Number {
    Integer(i64),
    /// The bits of an IEEE-754 double.
    Float(u64),
}

/// A floating-point operation that is left to the host: `left op right` in
/// IEEE-754 double arithmetic, each integer operand converted to a double
/// first.
#[derive(Debug, Clone, Copy, PartialEq, Eq, Structural)]
pub struct FloatRequest {
    /// The opcode: one of `Add`, `Subtract`, `Mult`, `Div`, `Exp`, `Lt`, `Lteq`.
    pub op: u8,
    pub left: Number,
    pub right: Number,
}

/// The host's answer to a `FloatRequest`.
#[derive(Debug, Clone, Copy, PartialEq, Eq, Structural)]
pub enum FloatAnswer {
    /// The bits of the double that an arithmetic operation gave.
    Number(u64),
    /// What a comparison gave.
    Truth(bool),
}

/// What the kernel makes of an operation that is defined.
pub enum Outcome {
    /// The result.
    Done(Value),
    /// The operation that the host has to carry out.
    Deferred(FloatRequest),
}

/// What `math_op` returns for an operation that is defined.
#[derive(Debug)]
pub enum Computed {
    /// The result.
    Value(BaseObject),
    /// The operation that the host has to carry out.
    Float(FloatRequest),
}

impl View for Computed {
    type V = Outcome;

    open spec fn view(&self) -> Outcome {
        match self {
            Computed::Value(v) => Outcome::Done(v@),
            Computed::Float(request) => Outcome::Deferred(*request),
        }
    }
}

/// The value that a host's answer stands for.
pub open spec fn answer_value(answer: FloatAnswer) -> Value {
    match answer {
        FloatAnswer::Number(bits) => Value::Float(bits),
        FloatAnswer::Truth(b) => truth(b),
    }
}

/// Division that rounds toward zero, for a divisor that is not zero.
pub open spec fn truncating_div(x: int, d: int) -> int {
    if x >= 0 && d > 0 {
        x / d
    } else if x < 0 && d < 0 {
        (-x) / (-d)
    } else if x < 0 {
        -((-x) / d)
    } else {
        -(x / (-d))
    }
}

/// The exponent that a right operand stands for: its low 32 bits.
pub open spec fn exponent_of(right: i64) -> u32 {
    right as u32
}

/// Integer power, wrapped around to 64 bits.
pub open spec fn wrapping_pow(base: i64, exponent: u32) -> i64 {
    signed_crop(pow(base as int, exponent as nat))
}

/// The kernel on two integers.
pub open spec fn int_binary(op: u8, left: i64, right: i64) -> Result<Outcome, RuntimeError> {
    if op == Add::byte() {
        Ok(Outcome::Done(Value::Integer(wrapping_add(left, right))))
    } else if op == Subtract::byte() {
        Ok(Outcome::Done(Value::Integer(wrapping_sub(left, right))))
    } else if op == Mult::byte() {
        Ok(Outcome::Done(Value::Integer(wrapping_mul(left, right))))
    } else if op == Div::byte() {
        if right == 0 {
            Err(RuntimeError::DivByZero)
        } else {
            Ok(
                Outcome::Deferred(
                    FloatRequest {
                        op,
                        left: Number::Integer(left),
                        right: Number::Integer(right),
                    },
                ),
            )
        }
    } else if op == IntDiv::byte() {
        if right == 0 {
            Err(RuntimeError::DivByZero)
        } else {
            Ok(Outcome::Done(Value::Integer(signed_crop(truncating_div(left as int, right as int)))))
        }
    } else if op == Exp::byte() {
        Ok(Outcome::Done(Value::Integer(wrapping_pow(left, exponent_of(right)))))
    } else if op == Lt::byte() {
        Ok(Outcome::Done(truth(left < right)))
    } else if op == Lteq::byte() {
        Ok(Outcome::Done(truth(left <= right)))
    } else {
        Err(RuntimeError::TypeError)
    }
}

/// Whether a number is zero.
pub open spec fn number_is_zero(n: Number) -> bool {
    match n {
        Number::Integer(i) => i == 0,
        Number::Float(bits) => float_is_zero(bits),
    }
}

/// The kernel on two numbers of which at least one is a float.
pub open spec fn float_binary(op: u8, left: Number, right: Number) -> Result<
    Outcome,
    RuntimeError,
> {
    if op == Div::byte() && number_is_zero(right) {
        Err(RuntimeError::DivByZero)
    } else if op == Add::byte() || op == Subtract::byte() || op == Mult::byte() || op
        == Div::byte() || op == Exp::byte() || op == Lt::byte() || op == Lteq::byte() {
        Ok(Outcome::Deferred(FloatRequest { op, left, right }))
    } else {
        Err(RuntimeError::TypeError)
    }
}

/// The kernel: what `left op right` is. Two integers are computed with; a
/// float and an integer, or two floats, are handed to the host; anything else
/// is a type error.
pub open spec fn binary(op: u8, left: Value, right: Value) -> Result<Outcome, RuntimeError> {
    match (left, right) {
        (Value::Integer(l), Value::Integer(r)) => int_binary(op, l, r),
        (Value::Integer(l), Value::Float(r)) => float_binary(
            op,
            Number::Integer(l),
            Number::Float(r),
        ),
        (Value::Float(l), Value::Integer(r)) => float_binary(
            op,
            Number::Float(l),
            Number::Integer(r),
        ),
        (Value::Float(l), Value::Float(r)) => float_binary(op, Number::Float(l), Number::Float(r)),
        _ => Err(RuntimeError::TypeError),
    }
}

/// Arithmetic negation.
pub trait ObjectMath: ObjectOps {
    fn negate(&self) -> (r: Result<Self, RuntimeError>)
        ensures
            match r {
                Ok(v) => negate(self.value()) == Ok::<Value, RuntimeError>(v.value()),
                Err(e) => negate(self.value()) == Err::<Value, RuntimeError>(e),
            },
    ;
}

/// Two integers that agree modulo 2^64 wrap around to the same integer.
proof fn lemma_crop_congruent(x: int, y: int)
    requires
        x % 0x1_0000_0000_0000_0000 == y % 0x1_0000_0000_0000_0000,
    ensures
        signed_crop(x) == signed_crop(y),
{
}

/// Wrapping around keeps the remainder modulo 2^64.
proof fn lemma_crop_mod(x: int)
    ensures
        (signed_crop(x) as int) % 0x1_0000_0000_0000_0000 == x % 0x1_0000_0000_0000_0000,
{
    let m = 0x1_0000_0000_0000_0000int;
    let r = x % m;
    if r > i64::MAX as int {
        vstd::arithmetic::div_mod::lemma_mod_sub_multiples_vanish(r, m);
        vstd::arithmetic::div_mod::lemma_small_mod(r as nat, m as nat);
    } else {
        vstd::arithmetic::div_mod::lemma_small_mod(r as nat, m as nat);
    }
}

/// One step of exponentiation by squaring keeps what the loop computes.
proof fn lemma_pow_step(result: i64, b: i64, e: u32, target: int)
    requires
        e > 0,
        (result as int * pow(b as int, e as nat)) % 0x1_0000_0000_0000_0000 == target
            % 0x1_0000_0000_0000_0000,
    ensures
        ({
            let r2 = if e % 2 == 1 {
                wrapping_mul(result, b)
            } else {
                result
            };
            (r2 as int * pow(wrapping_mul(b, b) as int, (e / 2) as nat)) % 0x1_0000_0000_0000_0000
                == target % 0x1_0000_0000_0000_0000
        }),
{
    let m = 0x1_0000_0000_0000_0000int;
    let k = (e / 2) as nat;
    let bi = b as int;
    let ri = result as int;
    let sq = wrapping_mul(b, b) as int;
    // pow(sq, k) agrees with pow(b * b, k) modulo m
    lemma_crop_mod(bi * bi);
    lemma_pow_mod_noop(sq, k, m);
    lemma_pow_mod_noop(bi * bi, k, m);
    assert(pow(sq, k) % m == pow(bi * bi, k) % m);
    // pow(b * b, k) == pow(b, 2 * k)
    assert(pow(bi, 2) == bi * bi) by {
        reveal_with_fuel(pow, 3);
    }
    lemma_pow_multiplies(bi, 2, k);
    assert(pow(bi * bi, k) == pow(bi, 2 * k));
    if e % 2 == 1 {
        assert(e as nat == 2 * k + 1);
        assert(pow(bi, e as nat) == bi * pow(bi, 2 * k)) by {
            reveal_with_fuel(pow, 2);
        }
        let r2 = wrapping_mul(result, b) as int;
        lemma_crop_mod(ri * bi);
        // r2 * pow(sq, k) == ri * bi * pow(b, 2k) modulo m
        lemma_mul_mod_noop_general(r2, pow(sq, k), m);
        lemma_mul_mod_noop_general(ri * bi, pow(bi * bi, k), m);
        assert((r2 * pow(sq, k)) % m == ((ri * bi) * pow(bi * bi, k)) % m);
        assert((ri * bi) * pow(bi, 2 * k) == ri * (bi * pow(bi, 2 * k))) by (nonlinear_arith);
    } else {
        assert(e as nat == 2 * k);
        lemma_mul_mod_noop_general(ri, pow(sq, k), m);
        lemma_mul_mod_noop_general(ri, pow(bi * bi, k), m);
    }
}

/// Integer power by repeated squaring, wrapped around to 64 bits.
pub fn int_pow(base: i64, exponent: u32) -> (power: i64)
    ensures
        power == wrapping_pow(base, exponent),
{
    let mut result: i64 = 1;
    let mut b: i64 = base;
    let mut e: u32 = exponent;
    let ghost target = pow(base as int, exponent as nat);
    assert(1 * pow(base as int, exponent as nat) == target);
    while e > 0
        invariant
            target == pow(base as int, exponent as nat),
            (result as int * pow(b as int, e as nat)) % 0x1_0000_0000_0000_0000 == target
                % 0x1_0000_0000_0000_0000,
        decreases e,
    {
        proof {
            lemma_pow_step(result, b, e, target);
        }
        if e % 2 == 1 {
            result = result.wrapping_mul(b);
        }
        b = b.wrapping_mul(b);
        e = e / 2;
    }
    proof {
        lemma_pow0(b as int);
        assert(result as int * 1 == result as int);
        lemma_crop_mod(result as int);
        lemma_crop_congruent(result as int, target);
        assert(signed_crop(result as int) == result) by {
            vstd::arithmetic::div_mod::lemma_small_mod(
                (if result >= 0 {
                    result as int
                } else {
                    result as int + 0x1_0000_0000_0000_0000
                }) as nat,
                0x1_0000_0000_0000_0000nat,
            );
            if result < 0 {
                vstd::arithmetic::div_mod::lemma_mod_add_multiples_vanish(
                    result as int,
                    0x1_0000_0000_0000_0000int,
                );
            }
        }
    }
    result
}

/// The kernel on two integers.
pub fn int_math(left: i64, right: i64, op: u8) -> (r: Result<Computed, RuntimeError>)
    ensures
        match r {
            Ok(c) => int_binary(op, left, right) == Ok::<Outcome, RuntimeError>(c@),
            Err(e) => int_binary(op, left, right) == Err::<Outcome, RuntimeError>(e),
        },
{
    proof {
        Add::val_is_byte();
        Subtract::val_is_byte();
        Mult::val_is_byte();
        Div::val_is_byte();
        IntDiv::val_is_byte();
        Exp::val_is_byte();
        Lt::val_is_byte();
        Lteq::val_is_byte();
    }
    if op == Add::VAL {
        Ok(Computed::Value(BaseObject::Integer(left.wrapping_add(right))))
    } else if op == Subtract::VAL {
        Ok(Computed::Value(BaseObject::Integer(left.wrapping_sub(right))))
    } else if op == Mult::VAL {
        Ok(Computed::Value(BaseObject::Integer(left.wrapping_mul(right))))
    } else if op == Div::VAL {
        if right == 0 {
            Err(RuntimeError::DivByZero)
        } else {
            Ok(
                Computed::Float(
                    FloatRequest {
                        op,
                        left: Number::Integer(left),
                        right: Number::Integer(right),
                    },
                ),
            )
        }
    } else if op == IntDiv::VAL {
        if right == 0 {
            Err(RuntimeError::DivByZero)
        } else {
            let quotient = match left.checked_div(right) {
                Some(q) => q,
                None => i64::MIN,
            };
            proof {
                lemma_truncating_div_crop(left, right);
            }
            Ok(Computed::Value(BaseObject::Integer(quotient)))
        }
    } else if op == Exp::VAL {
        Ok(Computed::Value(BaseObject::Integer(int_pow(left, #[verifier::truncate] (right as u32)))))
    } else if op == Lt::VAL {
        Ok(Computed::Value(if left < right { BaseObject::True } else { BaseObject::False }))
    } else if op == Lteq::VAL {
        Ok(Computed::Value(if left <= right { BaseObject::True } else { BaseObject::False }))
    } else {
        Err(RuntimeError::TypeError)
    }
}

/// Wrapping the quotient around changes it in one case only: the smallest
/// integer divided by minus one.
proof fn lemma_truncating_div_crop(left: i64, right: i64)
    requires
        right != 0,
    ensures
        ({
            let q = truncating_div(left as int, right as int);
            if i64::MIN <= q <= i64::MAX {
                signed_crop(q) == q
            } else {
                signed_crop(q) == i64::MIN
            }
        }),
        left.checked_div(right) matches Some(q) ==> q == truncating_div(left as int, right as int),
        left.checked_div(right) is None ==> !(i64::MIN <= truncating_div(left as int, right as int)
            <= i64::MAX),
{
    let m = 0x1_0000_0000_0000_0000int;
    let q = truncating_div(left as int, right as int);
    let x = left as int;
    let d = right as int;
    // the quotient is no larger in magnitude than the dividend
    if x >= 0 && d > 0 {
        vstd::arithmetic::div_mod::lemma_div_nonincreasing(x, d);
        vstd::arithmetic::div_mod::lemma_div_pos_is_pos(x, d);
    } else if x < 0 && d < 0 {
        vstd::arithmetic::div_mod::lemma_div_nonincreasing(-x, -d);
        vstd::arithmetic::div_mod::lemma_div_pos_is_pos(-x, -d);
        if d < -1 {
            vstd::arithmetic::div_mod::lemma_div_decreases(-x, -d);
        }
    } else if x < 0 {
        vstd::arithmetic::div_mod::lemma_div_nonincreasing(-x, d);
        vstd::arithmetic::div_mod::lemma_div_pos_is_pos(-x, d);
    } else {
        vstd::arithmetic::div_mod::lemma_div_nonincreasing(x, -d);
        vstd::arithmetic::div_mod::lemma_div_pos_is_pos(x, -d);
    }
    assert(-0x8000_0000_0000_0000 <= q <= 0x8000_0000_0000_0000);
    if q >= 0 {
        vstd::arithmetic::div_mod::lemma_small_mod(q as nat, m as nat);
    } else {
        vstd::arithmetic::div_mod::lemma_small_mod((q + m) as nat, m as nat);
        vstd::arithmetic::div_mod::lemma_mod_add_multiples_vanish(q, m);
    }
}

/// The kernel on two numbers of which at least one is a float.
pub fn float_math(left: Number, right: Number, op: u8) -> (r: Result<Computed, RuntimeError>)
    ensures
        match r {
            Ok(c) => float_binary(op, left, right) == Ok::<Outcome, RuntimeError>(c@),
            Err(e) => float_binary(op, left, right) == Err::<Outcome, RuntimeError>(e),
        },
{
    proof {
        Add::val_is_byte();
        Subtract::val_is_byte();
        Mult::val_is_byte();
        Div::val_is_byte();
        Exp::val_is_byte();
        Lt::val_is_byte();
        Lteq::val_is_byte();
    }
    let zero = match right {
        Number::Integer(i) => i == 0,
        Number::Float(bits) => (bits & FLOAT_MAGNITUDE) == 0,
    };
    if op == Div::VAL && zero {
        Err(RuntimeError::DivByZero)
    } else if op == Add::VAL || op == Subtract::VAL || op == Mult::VAL || op == Div::VAL || op
        == Exp::VAL || op == Lt::VAL || op == Lteq::VAL {
        Ok(Computed::Float(FloatRequest { op, left, right }))
    } else {
        Err(RuntimeError::TypeError)
    }
}

impl ObjectMath for BaseObject {
    fn negate(&self) -> (r: Result<BaseObject, RuntimeError>) {
        match self {
            BaseObject::Integer(value) => Ok(
                BaseObject::Integer(
                    if *value == i64::MIN {
                        *value
                    } else {
                        -*value
                    },
                ),
            ),
            BaseObject::Float(bits) => Ok(BaseObject::Float(*bits ^ FLOAT_SIGN)),
            _ => Err(RuntimeError::TypeError),
        }
    }
}

/// The kernel's single entry: `left op right`.
pub fn math_op(left: &Rc<BaseObject>, right: &Rc<BaseObject>, op: u8) -> (r: Result<
    Computed,
    RuntimeError,
>)
    ensures
        match r {
            Ok(c) => binary(op, left@, right@) == Ok::<Outcome, RuntimeError>(c@),
            Err(e) => binary(op, left@, right@) == Err::<Outcome, RuntimeError>(e),
        },
{
    match (&**left, &**right) {
        (BaseObject::Integer(l), BaseObject::Integer(r)) => int_math(*l, *r, op),
        (BaseObject::Integer(l), BaseObject::Float(r)) => float_math(
            Number::Integer(*l),
            Number::Float(*r),
            op,
        ),
        (BaseObject::Float(l), BaseObject::Integer(r)) => float_math(
            Number::Float(*l),
            Number::Integer(*r),
            op,
        ),
        (BaseObject::Float(l), BaseObject::Float(r)) => float_math(
            Number::Float(*l),
            Number::Float(*r),
            op,
        ),
        _ => Err(RuntimeError::TypeError),
    }
}

} // verus!
