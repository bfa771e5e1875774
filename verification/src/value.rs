//! The values that a program computes with.

use vstd::prelude::*;
use crate::value::function::{Function, FunctionView, NativeFault};

pub mod function;
pub mod object;

verus! {

/// A double-precision number, held as its IEEE 754 bit pattern.
///
/// The interpreter core only stores and moves numbers; arithmetic on them is
/// the business of the native functions that a host supplies.
#[derive(Debug, Clone, Copy, PartialEq, Eq, Structural)]
pub struct Number {
    pub bits: u64,
}

impl Number {
    /// The number whose bit pattern is `bits`.
    pub fn from_bits(bits: u64) -> (n: Self)
        ensures
            n.bits == bits,
    {
        Number { bits }
    }

    /// The bit pattern of this number.
    pub fn to_bits(self) -> (bits: u64)
        ensures
            bits == self.bits,
    {
        self.bits
    }
}

/// A shared reference to an object. Copies of the reference name the same
/// object, so a mutation made through one holder is seen by all of them.
#[derive(Debug, Clone, Copy, PartialEq, Eq, Structural)]
pub struct ObjectRef(pub u64);

/// A runtime value.
#[derive(Debug)]
pub enum Value {
    /// The absence of a value; what the language writes `none`.
    Nil,
    Bool(bool),
    Number(Number),
    String(String),
    Object(ObjectRef),
    Function(Function),
}

/// What a [`Value`] stands for: text as a sequence of characters, a function as
/// its arity and what executes it.
pub enum ValueView {
    Nil,
    Bool(bool),
    Number(Number),
    String(Seq<char>),
    Object(ObjectRef),
    Function(FunctionView),
}

impl View for Value {
    type V = ValueView;

    open spec fn view(&self) -> ValueView {
        match *self {
            Value::Nil => ValueView::Nil,
            Value::Bool(b) => ValueView::Bool(b),
            Value::Number(n) => ValueView::Number(n),
            Value::String(s) => ValueView::String(s@),
            Value::Object(o) => ValueView::Object(o),
            Value::Function(f) => ValueView::Function(f@),
        }
    }
}

/// Whether `value` is no function defined in the language.
pub open spec fn plain(value: ValueView) -> bool {
    !(value matches ValueView::Function(function) && function.executor is Constructed)
}

/// The views of a run of values, in order.
pub open spec fn values_of(values: Seq<Value>) -> Seq<ValueView> {
    Seq::new(values.len(), |i: int| values[i]@)
}

/// The view of what a host answered.
pub open spec fn answer_of(answer: Result<Value, NativeFault>) -> Result<ValueView, NativeFault> {
    match answer {
        Ok(value) => Ok(value@),
        Err(fault) => Err(fault),
    }
}

impl Clone for Value {
    fn clone(&self) -> (copy: Self)
        ensures
            copy@ == self@,
    {
        match self {
            Value::Nil => Value::Nil,
            Value::Bool(b) => Value::Bool(*b),
            Value::Number(n) => Value::Number(*n),
            Value::String(s) => Value::String(s.clone()),
            Value::Object(o) => Value::Object(*o),
            Value::Function(f) => Value::Function(f.clone()),
        }
    }
}

impl Value {
    /// The boolean held, if this is a boolean.
    pub fn as_bool(&self) -> (held: Option<bool>)
        ensures
            held == (match *self {
                Value::Bool(b) => Some(b),
                _ => None,
            }),
    {
        match self {
            Value::Bool(b) => Some(*b),
            _ => None,
        }
    }

    /// The number held, if this is a number.
    pub fn as_number(&self) -> (held: Option<Number>)
        ensures
            held == (match *self {
                Value::Number(n) => Some(n),
                _ => None,
            }),
    {
        match self {
            Value::Number(n) => Some(*n),
            _ => None,
        }
    }

    /// The text held, if this is a string.
    pub fn as_string(&self) -> (held: Option<&str>)
        ensures
            held is Some <==> *self is String,
            held matches Some(text) ==> text@ == self->String_0@,
    {
        match self {
            Value::String(s) => Some(s.as_str()),
            _ => None,
        }
    }

    /// The object referred to, if this is an object reference.
    pub fn as_object(&self) -> (held: Option<ObjectRef>)
        ensures
            held == (match *self {
                Value::Object(o) => Some(o),
                _ => None,
            }),
    {
        match self {
            Value::Object(o) => Some(*o),
            _ => None,
        }
    }

    /// The object reference held, to be changed in place, if this is an object
    /// reference.
    pub fn as_object_mut(&mut self) -> (held: Option<&mut ObjectRef>)
        ensures
            match held {
                Some(object) => *old(self) == Value::Object(*object) && *final(self)
                    == Value::Object(*final(object)),
                None => !(*old(self) is Object) && *final(self) == *old(self),
            },
    {
        match self {
            Value::Object(o) => Some(o),
            _ => None,
        }
    }

    /// The function held, if this is a function.
    pub fn as_function(&self) -> (held: Option<&Function>)
        ensures
            held == (match *self {
                Value::Function(f) => Some(&f),
                _ => None,
            }),
            held matches Some(f) ==> self@ == ValueView::Function(f@),
    {
        match self {
            Value::Function(function) => Some(function),
            _ => None,
        }
    }
}

impl Value {
    /// The string value that holds `text`.
    pub fn text(text: &str) -> (value: Self)
        ensures
            value@ == ValueView::String(text@),
    {
        Value::String(text.to_owned())
    }
}

impl From<bool> for Value {
    fn from(value: bool) -> (converted: Self) {
        Value::Bool(value)
    }
}

impl vstd::std_specs::convert::FromSpecImpl<bool> for Value {
    open spec fn obeys_from_spec() -> bool {
        true
    }

    open spec fn from_spec(value: bool) -> Self {
        Value::Bool(value)
    }
}

impl From<Number> for Value {
    fn from(value: Number) -> (converted: Self) {
        Value::Number(value)
    }
}

impl vstd::std_specs::convert::FromSpecImpl<Number> for Value {
    open spec fn obeys_from_spec() -> bool {
        true
    }

    open spec fn from_spec(value: Number) -> Self {
        Value::Number(value)
    }
}

impl From<String> for Value {
    fn from(value: String) -> (converted: Self) {
        Value::String(value)
    }
}

impl vstd::std_specs::convert::FromSpecImpl<String> for Value {
    open spec fn obeys_from_spec() -> bool {
        true
    }

    open spec fn from_spec(value: String) -> Self {
        Value::String(value)
    }
}

impl From<Function> for Value {
    fn from(value: Function) -> (converted: Self) {
        Value::Function(value)
    }
}

impl vstd::std_specs::convert::FromSpecImpl<Function> for Value {
    open spec fn obeys_from_spec() -> bool {
        true
    }

    open spec fn from_spec(value: Function) -> Self {
        Value::Function(value)
    }
}

} // verus!
