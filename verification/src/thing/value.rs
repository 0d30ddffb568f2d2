use chrono::NaiveDateTime;
use crate::encoding::value_type::{ValueType, ValueTypeID};
use crate::error::ConceptReadError;
use std::borrow::Cow;
use vstd::prelude::*;
use vstd::slice::slice_to_vec;

verus! {

/// A date and a time of day without a time zone, as `chrono` holds them. The library carries
/// such a value and never looks into it.
#[verifier::external_type_specification]
#[verifier::external_body]
pub struct ExNaiveDateTime(NaiveDateTime);

/// The value of a struct: the identifier of its value type and its fields in the order of
/// their numbers, each as the bytes that are stored for it.
#[derive(Debug, PartialEq, Eq)]
pub struct StructValue {
    pub value_type: ValueTypeID,
    pub fields: Vec<Vec<u8>>,
}

impl View for StructValue {
    type V = (ValueTypeID, Seq<Seq<u8>>);

    open spec fn view(&self) -> (ValueTypeID, Seq<Seq<u8>>) {
        (self.value_type, Seq::new(self.fields@.len(), |i: int| self.fields@[i]@))
    }
}

impl Clone for StructValue {
    fn clone(&self) -> (copy: Self)
        ensures
            copy@ == self@,
    {
        let mut fields: Vec<Vec<u8>> = Vec::new();
        let mut i: usize = 0;
        while i < self.fields.len()
            invariant
                0 <= i <= self.fields@.len(),
                fields@.len() == i,
                forall|t: int| 0 <= t < i ==> (#[trigger] fields@[t])@ == self.fields@[t]@,
            decreases self.fields@.len() - i,
        {
            fields.push(slice_to_vec(self.fields[i].as_slice()));
            i += 1;
        }
        let copy = StructValue { value_type: self.value_type, fields };
        assert(copy@.1 =~= self@.1);
        copy
    }
}

/// One value of an attribute. A string or a struct is either owned by the value or borrowed
/// from where it is kept, so that reading does not copy it.
///
/// A double is held as the sixty-four bits of its IEEE 754 form: the library hands the
/// number on and never computes with it.
#[derive(Debug, PartialEq)]
pub enum Value<'a> {
    Boolean(bool),
    Long(i64),
    Double(u64),
    DateTime(NaiveDateTime),
    String(Cow<'a, str>),
    Struct(Cow<'a, StructValue>),
}

/// The struct that is owned or borrowed.
pub open spec fn struct_of(held: Cow<'_, StructValue>) -> StructValue {
    match held {
        Cow::Borrowed(borrowed) => *borrowed,
        Cow::Owned(owned) => owned,
    }
}

/// Whether two values are the same value, whoever owns their strings and structs.
pub open spec fn same_value(left: Value<'_>, right: Value<'_>) -> bool {
    match (left, right) {
        (Value::Boolean(left), Value::Boolean(right)) => left == right,
        (Value::Long(left), Value::Long(right)) => left == right,
        (Value::Double(left), Value::Double(right)) => left == right,
        (Value::DateTime(left), Value::DateTime(right)) => left == right,
        (Value::String(left), Value::String(right)) => left@ == right@,
        (Value::Struct(left), Value::Struct(right)) => struct_of(left)@ == struct_of(right)@,
        _ => false,
    }
}

/// The built-in value type that the value is of; a struct names its own.
pub open spec fn value_type_id_of(value: Value<'_>) -> ValueTypeID {
    match value {
        Value::Boolean(_) => ValueTypeID { id: 0 },
        Value::Long(_) => ValueTypeID { id: 1 },
        Value::Double(_) => ValueTypeID { id: 2 },
        Value::String(_) => ValueTypeID { id: 3 },
        Value::DateTime(_) => ValueTypeID { id: 4 },
        Value::Struct(held) => struct_of(held).value_type,
    }
}

impl<'a> Clone for Value<'a> {
    /// A copy of the value. What was borrowed stays borrowed, what was owned is copied.
    fn clone(&self) -> (copy: Self)
        ensures
            same_value(copy, *self),
    {
        match self {
            Value::Boolean(boolean) => Value::Boolean(*boolean),
            Value::Long(long) => Value::Long(*long),
            Value::Double(double) => Value::Double(*double),
            Value::DateTime(date_time) => Value::DateTime(*date_time),
            Value::String(string) => match string {
                Cow::Borrowed(borrowed) => Value::String(Cow::Borrowed(*borrowed)),
                Cow::Owned(owned) => Value::String(Cow::Owned(owned.clone())),
            },
            Value::Struct(held) => match held {
                Cow::Borrowed(borrowed) => Value::Struct(Cow::Borrowed(*borrowed)),
                Cow::Owned(owned) => Value::Struct(Cow::Owned(owned.clone())),
            },
        }
    }
}

impl<'a> Value<'a> {
    /// The same value, with its string or struct borrowed from this one.
    pub fn as_reference(&self) -> (reference: Value<'_>)
        ensures
            same_value(reference, *self),
            !(reference matches Value::String(Cow::Owned(_))),
            !(reference matches Value::Struct(Cow::Owned(_))),
    {
        match self {
            Value::Boolean(boolean) => Value::Boolean(*boolean),
            Value::Long(long) => Value::Long(*long),
            Value::Double(double) => Value::Double(*double),
            Value::DateTime(date_time) => Value::DateTime(*date_time),
            Value::String(string) => match string {
                Cow::Borrowed(borrowed) => Value::String(Cow::Borrowed(*borrowed)),
                Cow::Owned(owned) => Value::String(Cow::Borrowed(owned.as_str())),
            },
            Value::Struct(held) => match held {
                Cow::Borrowed(borrowed) => Value::Struct(Cow::Borrowed(*borrowed)),
                Cow::Owned(owned) => Value::Struct(Cow::Borrowed(owned)),
            },
        }
    }

    /// The identifier of the value type that the value is of.
    pub fn value_type_id(&self) -> (id: ValueTypeID)
        ensures
            id == value_type_id_of(*self),
    {
        match self {
            Value::Boolean(_) => ValueType::Boolean.value_type_id(),
            Value::Long(_) => ValueType::Long.value_type_id(),
            Value::Double(_) => ValueType::Double.value_type_id(),
            Value::String(_) => ValueType::String.value_type_id(),
            Value::DateTime(_) => ValueType::DateTime.value_type_id(),
            Value::Struct(held) => match held {
                Cow::Borrowed(borrowed) => borrowed.value_type,
                Cow::Owned(owned) => owned.value_type,
            },
        }
    }

    /// The boolean that the value holds; any other value is refused.
    pub fn unwrap_boolean(self) -> (boolean: Result<bool, ConceptReadError>)
        ensures
            match boolean {
                Ok(boolean) => self == Value::Boolean(boolean),
                Err(error) => error == ConceptReadError::ValueTypeMismatch && !(self is Boolean),
            },
    {
        match self {
            Value::Boolean(boolean) => Ok(boolean),
            _ => Err(ConceptReadError::ValueTypeMismatch),
        }
    }

    /// The integer that the value holds; any other value is refused.
    pub fn unwrap_long(self) -> (long: Result<i64, ConceptReadError>)
        ensures
            match long {
                Ok(long) => self == Value::Long(long),
                Err(error) => error == ConceptReadError::ValueTypeMismatch && !(self is Long),
            },
    {
        match self {
            Value::Long(long) => Ok(long),
            _ => Err(ConceptReadError::ValueTypeMismatch),
        }
    }

    /// The bits of the double that the value holds; any other value is refused.
    pub fn unwrap_double(self) -> (double: Result<u64, ConceptReadError>)
        ensures
            match double {
                Ok(double) => self == Value::Double(double),
                Err(error) => error == ConceptReadError::ValueTypeMismatch && !(self is Double),
            },
    {
        match self {
            Value::Double(double) => Ok(double),
            _ => Err(ConceptReadError::ValueTypeMismatch),
        }
    }

    /// The date and time that the value holds; any other value is refused.
    pub fn unwrap_date_time(self) -> (date_time: Result<NaiveDateTime, ConceptReadError>)
        ensures
            match date_time {
                Ok(date_time) => self == Value::DateTime(date_time),
                Err(error) => error == ConceptReadError::ValueTypeMismatch && !(self is DateTime),
            },
    {
        match self {
            Value::DateTime(date_time) => Ok(date_time),
            _ => Err(ConceptReadError::ValueTypeMismatch),
        }
    }

    /// The string that the value holds; any other value is refused.
    pub fn unwrap_string(self) -> (string: Result<Cow<'a, str>, ConceptReadError>)
        ensures
            match string {
                Ok(string) => self == Value::String(string),
                Err(error) => error == ConceptReadError::ValueTypeMismatch && !(self is String),
            },
    {
        match self {
            Value::String(string) => Ok(string),
            _ => Err(ConceptReadError::ValueTypeMismatch),
        }
    }

    /// The struct that the value holds; any other value is refused.
    pub fn unwrap_struct(self) -> (held: Result<Cow<'a, StructValue>, ConceptReadError>)
        ensures
            match held {
                Ok(held) => self == Value::Struct(held),
                Err(error) => error == ConceptReadError::ValueTypeMismatch && !(self is Struct),
            },
    {
        match self {
            Value::Struct(held) => Ok(held),
            _ => Err(ConceptReadError::ValueTypeMismatch),
        }
    }
}

} // verus!
