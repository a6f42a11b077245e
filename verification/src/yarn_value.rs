//! The values that a Yarn variable can take.

use std::num::{ParseFloatError, ParseIntError};
use std::str::ParseBoolError;
use vstd::prelude::*;
use vstd::std_specs::convert::{FromSpecImpl, TryFromSpecImpl};

verus! {

/// `std::num::ParseFloatError`, carried as it is.
#[verifier::external_type_specification]
#[verifier::external_body]
pub struct ExParseFloatError(ParseFloatError);

/// `std::num::ParseIntError`, carried as it is.
#[verifier::external_type_specification]
#[verifier::external_body]
pub struct ExParseIntError(ParseIntError);

/// `std::str::ParseBoolError`, carried as it is.
#[verifier::external_type_specification]
#[verifier::external_body]
pub struct ExParseBoolError(ParseBoolError);

/// A value of a Yarn variable.
///
/// A number is held as the bit pattern of its single-precision form.
#[derive(Debug, PartialEq, Eq)]
pub enum YarnValue {
    /// A number, by its bits.
    Number(u32),
    /// A string.
    String(String),
    /// A truth value.
    Boolean(bool),
}

/// The mathematical value of a [`YarnValue`].
pub enum YarnValueView {
    Number(u32),
    String(Seq<char>),
    Boolean(bool),
}

impl View for YarnValue {
    type V = YarnValueView;

    open spec fn view(&self) -> YarnValueView {
        match self {
            YarnValue::Number(bits) => YarnValueView::Number(*bits),
            YarnValue::String(text) => YarnValueView::String(text@),
            YarnValue::Boolean(truth) => YarnValueView::Boolean(*truth),
        }
    }
}

impl DeepView for YarnValue {
    type V = YarnValueView;

    open spec fn deep_view(&self) -> YarnValueView {
        self@
    }
}

impl Clone for YarnValue {
    fn clone(&self) -> (copy: YarnValue)
        ensures
            copy@ == self@,
    {
        match self {
            YarnValue::Number(bits) => YarnValue::Number(*bits),
            YarnValue::String(text) => YarnValue::String(text.clone()),
            YarnValue::Boolean(truth) => YarnValue::Boolean(*truth),
        }
    }
}

/// The bits of the number zero.
pub const ZERO: u32 = 0;

/// A failure to convert one variant of [`YarnValue`] to a base type.
#[derive(Debug)]
pub enum InvalidCastError {
    ParseFloatError(ParseFloatError),
    ParseIntError(ParseIntError),
    ParseBoolError(ParseBoolError),
}

impl From<ParseFloatError> for InvalidCastError {
    fn from(error: ParseFloatError) -> (cast_error: InvalidCastError) {
        InvalidCastError::ParseFloatError(error)
    }
}

impl FromSpecImpl<ParseFloatError> for InvalidCastError {
    open spec fn obeys_from_spec() -> bool {
        true
    }

    open spec fn from_spec(error: ParseFloatError) -> InvalidCastError {
        InvalidCastError::ParseFloatError(error)
    }
}

impl From<ParseIntError> for InvalidCastError {
    fn from(error: ParseIntError) -> (cast_error: InvalidCastError) {
        InvalidCastError::ParseIntError(error)
    }
}

impl FromSpecImpl<ParseIntError> for InvalidCastError {
    open spec fn obeys_from_spec() -> bool {
        true
    }

    open spec fn from_spec(error: ParseIntError) -> InvalidCastError {
        InvalidCastError::ParseIntError(error)
    }
}

impl From<ParseBoolError> for InvalidCastError {
    fn from(error: ParseBoolError) -> (cast_error: InvalidCastError) {
        InvalidCastError::ParseBoolError(error)
    }
}

impl FromSpecImpl<ParseBoolError> for InvalidCastError {
    open spec fn obeys_from_spec() -> bool {
        true
    }

    open spec fn from_spec(error: ParseBoolError) -> InvalidCastError {
        InvalidCastError::ParseBoolError(error)
    }
}

/// A type whose values can be turned into a [`YarnValue`], but that is not
/// [`YarnValue`] itself.
pub trait IntoYarnValueFromNonYarnValue: Sized {
    /// The value that `self` turns into.
    spec fn untyped_value(self) -> YarnValueView;

    fn into_untyped_value(self) -> (value: YarnValue)
        ensures
            value@ == self.untyped_value(),
    ;
}

impl From<String> for YarnValue {
    fn from(value: String) -> (yarn_value: YarnValue) {
        YarnValue::String(value)
    }
}

impl FromSpecImpl<String> for YarnValue {
    open spec fn obeys_from_spec() -> bool {
        true
    }

    open spec fn from_spec(value: String) -> YarnValue {
        YarnValue::String(value)
    }
}

impl From<&str> for YarnValue {
    fn from(value: &str) -> (yarn_value: YarnValue)
        ensures
            yarn_value@ == YarnValueView::String(value@),
    {
        YarnValue::String(value.to_owned())
    }
}

/// No specification can name the owned string that the conversion makes, so
/// it is bound by the contract of `from` above alone.
impl FromSpecImpl<&str> for YarnValue {
    open spec fn obeys_from_spec() -> bool {
        false
    }

    open spec fn from_spec(value: &str) -> YarnValue {
        arbitrary()
    }
}

impl IntoYarnValueFromNonYarnValue for String {
    open spec fn untyped_value(self) -> YarnValueView {
        YarnValueView::String(self@)
    }

    fn into_untyped_value(self) -> (value: YarnValue) {
        YarnValue::from(self)
    }
}

impl From<bool> for YarnValue {
    fn from(value: bool) -> (yarn_value: YarnValue) {
        YarnValue::Boolean(value)
    }
}

impl FromSpecImpl<bool> for YarnValue {
    open spec fn obeys_from_spec() -> bool {
        true
    }

    open spec fn from_spec(value: bool) -> YarnValue {
        YarnValue::Boolean(value)
    }
}

impl IntoYarnValueFromNonYarnValue for bool {
    open spec fn untyped_value(self) -> YarnValueView {
        YarnValueView::Boolean(self)
    }

    fn into_untyped_value(self) -> (value: YarnValue) {
        YarnValue::from(self)
    }
}

/// Whether the bits are those of a zero, positive or negative.
pub open spec fn is_zero(bits: u32) -> bool {
    bits == 0 || bits == 0x8000_0000
}

/// The truth value that a text spells out.
pub open spec fn spelled_truth(text: Seq<char>) -> Option<bool> {
    if text == "true"@ {
        Some(true)
    } else if text == "false"@ {
        Some(false)
    } else {
        None
    }
}

/// The truth value that a value stands for: a number is true unless it is
/// zero, a string is true or false where it spells that out, and a truth
/// value is itself.
pub open spec fn truth_of(value: YarnValueView) -> Option<bool> {
    match value {
        YarnValueView::Number(bits) => Some(!is_zero(bits)),
        YarnValueView::String(text) => spelled_truth(text),
        YarnValueView::Boolean(truth) => Some(truth),
    }
}

/// `str::parse` for `bool`: accepts `true` and `false` and nothing else.
#[verifier::external_body]
fn parse_bool(text: &str) -> (result: Result<bool, ParseBoolError>)
    ensures
        match result {
            Ok(truth) => spelled_truth(text@) == Some(truth),
            Err(_) => spelled_truth(text@) is None,
        },
{
    text.parse::<bool>()
}

impl TryFrom<YarnValue> for bool {
    type Error = InvalidCastError;

    /// The truth value that the value stands for. A string that spells out
    /// neither `true` nor `false` fails to parse.
    fn try_from(value: YarnValue) -> (result: Result<bool, InvalidCastError>)
        ensures
            match result {
                Ok(truth) => truth_of(value@) == Some(truth),
                Err(error) => truth_of(value@) is None && error is ParseBoolError,
            },
    {
        match value {
            YarnValue::Number(bits) => Ok(bits != 0 && bits != 0x8000_0000),
            YarnValue::String(text) => match parse_bool(text.as_str()) {
                Ok(truth) => Ok(truth),
                Err(error) => Err(InvalidCastError::from(error)),
            },
            YarnValue::Boolean(truth) => Ok(truth),
        }
    }
}

/// The error of a string that spells out no truth value cannot be named in a
/// specification, so the conversion is bound by the contract of `try_from`
/// above alone.
impl TryFromSpecImpl<YarnValue> for bool {
    open spec fn obeys_try_from_spec() -> bool {
        false
    }

    open spec fn try_from_spec(value: YarnValue) -> Result<bool, InvalidCastError> {
        arbitrary()
    }
}

} // verus!
