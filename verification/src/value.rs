//! A value together with its type.

use crate::declaration::Type;
use crate::yarn_value::{truth_of, InvalidCastError, YarnValue, YarnValueView};
use vstd::prelude::*;
use vstd::std_specs::convert::{FromSpecImpl, TryFromSpecImpl};

verus! {

/// The type of a value.
pub open spec fn type_of(value: YarnValueView) -> Type {
    match value {
        YarnValueView::Number(_) => Type::Number,
        YarnValueView::String(_) => Type::String,
        YarnValueView::Boolean(_) => Type::Boolean,
    }
}

/// A value together with its type.
#[derive(Debug, PartialEq, Eq)]
pub struct Value {
    pub value_type: Type,
    pub internal_value: YarnValue,
}

/// The mathematical value of a [`Value`].
pub struct ValueView {
    pub value_type: Type,
    pub internal_value: YarnValueView,
}

impl View for Value {
    type V = ValueView;

    open spec fn view(&self) -> ValueView {
        ValueView { value_type: self.value_type, internal_value: self.internal_value@ }
    }
}

impl Clone for Value {
    fn clone(&self) -> (copy: Value)
        ensures
            copy@ == self@,
    {
        Value { value_type: self.value_type, internal_value: self.internal_value.clone() }
    }
}

/// The type of a value.
pub open spec fn type_of_value(value: YarnValue) -> Type {
    type_of(value@)
}

impl From<YarnValue> for Value {
    /// The value with the type that it has.
    fn from(value: YarnValue) -> (typed: Value)
        ensures
            typed@ == (ValueView { value_type: type_of(value@), internal_value: value@ }),
    {
        let value_type = match &value {
            YarnValue::Number(_) => Type::Number,
            YarnValue::String(_) => Type::String,
            YarnValue::Boolean(_) => Type::Boolean,
        };
        Value { value_type, internal_value: value }
    }
}

impl FromSpecImpl<YarnValue> for Value {
    open spec fn obeys_from_spec() -> bool {
        true
    }

    open spec fn from_spec(value: YarnValue) -> Value {
        Value { value_type: type_of_value(value), internal_value: value }
    }
}

impl From<String> for Value {
    /// A string, typed as one.
    fn from(value: String) -> (typed: Value)
        ensures
            typed@ == (ValueView {
                value_type: Type::String,
                internal_value: YarnValueView::String(value@),
            }),
    {
        Value { value_type: Type::String, internal_value: YarnValue::String(value) }
    }
}

impl FromSpecImpl<String> for Value {
    open spec fn obeys_from_spec() -> bool {
        true
    }

    open spec fn from_spec(value: String) -> Value {
        Value { value_type: Type::String, internal_value: YarnValue::String(value) }
    }
}

impl From<&str> for Value {
    /// A string, typed as one.
    fn from(value: &str) -> (typed: Value)
        ensures
            typed@ == (ValueView {
                value_type: Type::String,
                internal_value: YarnValueView::String(value@),
            }),
    {
        Value { value_type: Type::String, internal_value: YarnValue::String(value.to_owned()) }
    }
}

/// No specification can name the owned string that the conversion makes, so
/// it is bound by the contract of `from` above alone.
impl FromSpecImpl<&str> for Value {
    open spec fn obeys_from_spec() -> bool {
        false
    }

    open spec fn from_spec(value: &str) -> Value {
        arbitrary()
    }
}

impl From<bool> for Value {
    /// A truth value, typed as one.
    fn from(value: bool) -> (typed: Value)
        ensures
            typed@ == (ValueView {
                value_type: Type::Boolean,
                internal_value: YarnValueView::Boolean(value),
            }),
    {
        Value { value_type: Type::Boolean, internal_value: YarnValue::Boolean(value) }
    }
}

impl FromSpecImpl<bool> for Value {
    open spec fn obeys_from_spec() -> bool {
        true
    }

    open spec fn from_spec(value: bool) -> Value {
        Value { value_type: Type::Boolean, internal_value: YarnValue::Boolean(value) }
    }
}

impl TryFrom<Value> for bool {
    type Error = InvalidCastError;

    /// The truth value that the value stands for.
    fn try_from(value: Value) -> (result: Result<bool, InvalidCastError>)
        ensures
            match result {
                Ok(truth) => truth_of(value@.internal_value) == Some(truth),
                Err(error) => truth_of(value@.internal_value) is None && error is ParseBoolError,
            },
    {
        bool::try_from(value.internal_value)
    }
}

/// Bound by the contract of `try_from` above alone, as the conversion of the
/// value that is held.
impl TryFromSpecImpl<Value> for bool {
    open spec fn obeys_try_from_spec() -> bool {
        false
    }

    open spec fn try_from_spec(value: Value) -> Result<bool, InvalidCastError> {
        arbitrary()
    }
}

} // verus!
