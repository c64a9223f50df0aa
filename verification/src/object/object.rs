//! Runtime values. A `BaseObject` is the value itself; an `Object` is a
//! shared handle to one, cheap to duplicate.

use super::value::{
    all_equal, equals, float_equals, index_of, not, truthy, Value,
    FLOAT_INFINITY, FLOAT_MAGNITUDE,
};
use crate::buffer::{bytes_eq, frozen_bytes};
use crate::error::RuntimeError;
use bytes::Bytes;
use std::rc::Rc;
use vstd::prelude::*;
use vstd::std_specs::cmp::PartialEqSpecImpl;
use vstd::string::StrSliceExecFns;

verus! {

/// The operations that both a value and a handle to it offer.
pub trait ObjectOps: Sized {
    /// The value that this stands for.
    spec fn value(&self) -> Value;

    /// Logical negation.
    fn not(&self) -> (r: Result<Self, RuntimeError>)
        ensures
            match r {
                Ok(v) => not(self.value()) == Ok::<Value, RuntimeError>(v.value()),
                Err(e) => not(self.value()) == Err::<Value, RuntimeError>(e),
            },
    ;

    /// Truthiness.
    fn truthy(&self) -> (r: bool)
        ensures
            r == truthy(self.value()),
    ;

    /// Whether the value is an integer.
    fn is_int(&self) -> (r: bool)
        ensures
            r == (self.value() is Integer),
    ;

    /// The character or element at a position.
    fn get_index(&self, index: &Object) -> (r: Result<Object, RuntimeError>)
        ensures
            match r {
                Ok(v) => index_of(self.value(), index@) == Ok::<Value, RuntimeError>(v@),
                Err(e) => index_of(self.value(), index@) == Err::<Value, RuntimeError>(e),
            },
    ;
}

/// A value.
#[derive(Debug)]
pub enum BaseObject {
    Null,
    True,
    False,
    Integer(i64),
    /// The bits of an IEEE-754 double.
    Float(u64),
    String(String),
    Tuple(Vec<Object>),
    SetValue(Vec<Object>),
    Function {
        ins: Rc<Bytes>,
        locals: usize,
        req_params: u16,
        opt_params: u16,
        locked_values: Vec<Object>,
    },
}

/// A shared handle to a value.
#[derive(Debug)]
pub struct Object {
    pub inner: Rc<BaseObject>,
}

/// The value of a `BaseObject`.
pub open spec fn value_of(o: BaseObject) -> Value
    decreases o,
{
    match o {
        BaseObject::Null => Value::Null,
        BaseObject::True => Value::True,
        BaseObject::False => Value::False,
        BaseObject::Integer(n) => Value::Integer(n),
        BaseObject::Float(bits) => Value::Float(bits),
        BaseObject::String(s) => Value::Str(s@),
        BaseObject::Tuple(els) => Value::Tuple(
            Seq::new(
                els@.len(),
                |i: int|
                    if 0 <= i < els@.len() {
                        value_of(*els@[i].inner)
                    } else {
                        Value::Null
                    },
            ),
        ),
        BaseObject::SetValue(els) => Value::SetValue(
            Seq::new(
                els@.len(),
                |i: int|
                    if 0 <= i < els@.len() {
                        value_of(*els@[i].inner)
                    } else {
                        Value::Null
                    },
            ),
        ),
        BaseObject::Function { ins, locals, req_params, opt_params, locked_values } => {
            Value::Function {
                code: frozen_bytes(*ins),
                locals: locals as nat,
                required: req_params,
                optional: opt_params,
                captured: Seq::new(
                    locked_values@.len(),
                    |i: int|
                        if 0 <= i < locked_values@.len() {
                            value_of(*locked_values@[i].inner)
                        } else {
                            Value::Null
                        },
                ),
            }
        },
    }
}

/// The values of a sequence of handles.
pub open spec fn values_of(objects: Seq<Object>) -> Seq<Value> {
    Seq::new(objects.len(), |i: int| objects[i]@)
}

impl View for BaseObject {
    type V = Value;

    open spec fn view(&self) -> Value {
        value_of(*self)
    }
}

impl View for Object {
    type V = Value;

    open spec fn view(&self) -> Value {
        value_of(*self.inner)
    }
}

/// The value of a tuple, a set or a function holds the values of its elements.
pub proof fn lemma_value_of_elements(o: &BaseObject)
    ensures
        o matches BaseObject::Tuple(els) ==> o@ == Value::Tuple(values_of(els@)),
        o matches BaseObject::SetValue(els) ==> o@ == Value::SetValue(values_of(els@)),
        o matches BaseObject::Function { locked_values, .. } ==> o@->captured == values_of(
            locked_values@,
        ),
{
    match o {
        BaseObject::Tuple(els) => {
            assert(o@->Tuple_0 =~= values_of(els@));
        },
        BaseObject::SetValue(els) => {
            assert(o@->SetValue_0 =~= values_of(els@));
        },
        BaseObject::Function { locked_values, .. } => {
            assert(o@->captured =~= values_of(locked_values@));
        },
        _ => {},
    }
}

/// Taking the values of handles commutes with pushing, cutting, joining and
/// replacing.
pub proof fn lemma_values_of(xs: Seq<Object>, ys: Seq<Object>, o: Object, i: int, j: int)
    ensures
        values_of(xs.push(o)) == values_of(xs).push(o@),
        values_of(xs + ys) == values_of(xs) + values_of(ys),
        0 <= i <= j <= xs.len() ==> values_of(xs.subrange(i, j)) == values_of(xs).subrange(i, j),
        0 <= i < xs.len() ==> values_of(xs.update(i, o)) == values_of(xs).update(i, o@),
        values_of(Seq::<Object>::empty()) == Seq::<Value>::empty(),
{
    assert(values_of(xs.push(o)) =~= values_of(xs).push(o@));
    assert(values_of(xs + ys) =~= values_of(xs) + values_of(ys));
    if 0 <= i <= j <= xs.len() {
        assert(values_of(xs.subrange(i, j)) =~= values_of(xs).subrange(i, j));
    }
    if 0 <= i < xs.len() {
        assert(values_of(xs.update(i, o)) =~= values_of(xs).update(i, o@));
    }
    assert(values_of(Seq::<Object>::empty()) =~= Seq::<Value>::empty());
}

/// `Rc::clone`: another handle to the same value.
#[verifier::external_body]
pub(crate) fn share<T>(handle: &Rc<T>) -> (other: Rc<T>)
    ensures
        other == *handle,
{
    handle.clone()
}

/// Whether the floats with these bits are equal.
pub fn float_bits_equal(a: u64, b: u64) -> (same: bool)
    ensures
        same == float_equals(a, b),
{
    let ma = a & FLOAT_MAGNITUDE;
    let mb = b & FLOAT_MAGNITUDE;
    ma <= FLOAT_INFINITY && mb <= FLOAT_INFINITY && (a == b || (ma == 0 && mb == 0))
}

/// Whether two lists of handles hold equal values at each position.
pub fn objects_equal(xs: &Vec<Object>, ys: &Vec<Object>) -> (same: bool)
    ensures
        same == all_equal(values_of(xs@), values_of(ys@)),
    decreases xs,
{
    if xs.len() != ys.len() {
        return false;
    }
    let mut i: usize = 0;
    while i < xs.len()
        invariant
            i <= xs.len(),
            xs.len() == ys.len(),
            forall|j: int| 0 <= j < i ==> equals(#[trigger] values_of(xs@)[j], values_of(ys@)[j]),
        decreases xs.len() - i,
    {
        if !xs[i].inner.equals(&ys[i].inner) {
            assert(!equals(values_of(xs@)[i as int], values_of(ys@)[i as int]));
            return false;
        }
        i += 1;
    }
    true
}

impl BaseObject {
    /// Wraps the value in a handle.
    pub fn wrap(self) -> (o: Object)
        ensures
            *o.inner == self,
            o@ == self@,
    {
        Object { inner: Rc::new(self) }
    }

    /// Structural equality.
    pub fn equals(&self, other: &BaseObject) -> (same: bool)
        ensures
            same == equals(self@, other@),
        decreases self,
    {
        proof {
            lemma_value_of_elements(self);
            lemma_value_of_elements(other);
        }
        match (self, other) {
            (BaseObject::Null, BaseObject::Null) => true,
            (BaseObject::True, BaseObject::True) => true,
            (BaseObject::False, BaseObject::False) => true,
            (BaseObject::Integer(x), BaseObject::Integer(y)) => *x == *y,
            (BaseObject::Float(x), BaseObject::Float(y)) => float_bits_equal(*x, *y),
            (BaseObject::String(x), BaseObject::String(y)) => *x == *y,
            (BaseObject::Tuple(xs), BaseObject::Tuple(ys)) => objects_equal(xs, ys),
            (BaseObject::SetValue(xs), BaseObject::SetValue(ys)) => objects_equal(xs, ys),
            (
                BaseObject::Function {
                    ins: c1,
                    locals: l1,
                    req_params: r1,
                    opt_params: o1,
                    locked_values: v1,
                },
                BaseObject::Function {
                    ins: c2,
                    locals: l2,
                    req_params: r2,
                    opt_params: o2,
                    locked_values: v2,
                },
            ) => bytes_eq(c1, c2) && *l1 == *l2 && *r1 == *r2 && *o1 == *o2 && objects_equal(
                v1,
                v2,
            ),
            _ => false,
        }
    }
}

impl ObjectOps for BaseObject {
    open spec fn value(&self) -> Value {
        self@
    }

    fn not(&self) -> (r: Result<BaseObject, RuntimeError>) {
        match self {
            BaseObject::True => Ok(BaseObject::False),
            BaseObject::False => Ok(BaseObject::True),
            _ => Err(RuntimeError::TypeError),
        }
    }

    fn truthy(&self) -> (r: bool) {
        match self {
            BaseObject::True => true,
            BaseObject::False => false,
            BaseObject::Null => false,
            BaseObject::Integer(val) => *val != 0,
            BaseObject::Float(bits) => (*bits & FLOAT_MAGNITUDE) != 0,
            BaseObject::String(str) => !str.as_str().is_empty(),
            BaseObject::Tuple(els) => els.len() > 0,
            BaseObject::SetValue(els) => els.len() > 0,
            BaseObject::Function { .. } => true,
        }
    }

    fn is_int(&self) -> (r: bool) {
        match self {
            BaseObject::Integer(_) => true,
            _ => false,
        }
    }

    fn get_index(&self, index: &Object) -> (r: Result<Object, RuntimeError>) {
        proof {
            lemma_value_of_elements(self);
        }
        match self {
            BaseObject::String(str) => {
                if let BaseObject::Integer(val) = &*index.inner {
                    let len = str.as_str().unicode_len();
                    if *val < 0 || (*val as u64) >= (len as u64) {
                        return Err(RuntimeError::IndexError);
                    }
                    let at = *val as usize;
                    let ch = str.as_str().substring_char(at, at + 1).to_owned();
                    assert(ch@ =~= seq![str@[at as int]]);
                    Ok(BaseObject::String(ch).wrap())
                } else {
                    Err(RuntimeError::TypeError)
                }
            },
            BaseObject::Tuple(elements) => {
                if let BaseObject::Integer(val) = &*index.inner {
                    if *val < 0 || (*val as u64) >= (elements.len() as u64) {
                        return Err(RuntimeError::IndexError);
                    }
                    Ok(elements[*val as usize].reference())
                } else {
                    Err(RuntimeError::TypeError)
                }
            },
            _ => Err(RuntimeError::TypeError),
        }
    }
}

impl Object {
    /// Another handle to the same value.
    pub fn reference(&self) -> (other: Object)
        ensures
            other == *self,
            other@ == self@,
    {
        Object { inner: share(&self.inner) }
    }
}

impl ObjectOps for Object {
    open spec fn value(&self) -> Value {
        self@
    }

    fn not(&self) -> (r: Result<Object, RuntimeError>) {
        match self.inner.not() {
            Ok(v) => Ok(v.wrap()),
            Err(e) => Err(e),
        }
    }

    fn truthy(&self) -> (r: bool) {
        self.inner.truthy()
    }

    fn is_int(&self) -> (r: bool) {
        self.inner.is_int()
    }

    fn get_index(&self, index: &Object) -> (r: Result<Object, RuntimeError>) {
        self.inner.get_index(index)
    }
}

impl PartialEq for BaseObject {
    fn eq(&self, other: &BaseObject) -> (same: bool) {
        self.equals(other)
    }
}

impl PartialEqSpecImpl for BaseObject {
    open spec fn obeys_eq_spec() -> bool {
        true
    }

    open spec fn eq_spec(&self, other: &BaseObject) -> bool {
        equals(self@, other@)
    }
}

impl PartialEq for Object {
    fn eq(&self, other: &Object) -> (same: bool) {
        self.inner.equals(&other.inner)
    }
}

impl PartialEqSpecImpl for Object {
    open spec fn obeys_eq_spec() -> bool {
        true
    }

    open spec fn eq_spec(&self, other: &Object) -> bool {
        equals(self@, other@)
    }
}

} // verus!
