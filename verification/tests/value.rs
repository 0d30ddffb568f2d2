use std::borrow::Cow;

use chrono::NaiveDate;
use concept::encoding::value_type::{
    StructDefinition, StructFieldDefinition, ValueType, ValueTypeID,
};
use concept::error::ConceptReadError;
use concept::thing::value::{StructValue, Value};

fn noon() -> chrono::NaiveDateTime {
    NaiveDate::from_ymd_opt(2024, 2, 29).unwrap().and_hms_opt(12, 0, 0).unwrap()
}

#[test]
fn values_unwrap_to_what_they_hold() {
    assert_eq!(Value::Boolean(true).unwrap_boolean(), Ok(true));
    assert_eq!(Value::Long(-7).unwrap_long(), Ok(-7));
    assert_eq!(Value::Double(1.5f64.to_bits()).unwrap_double().map(f64::from_bits), Ok(1.5));
    assert_eq!(Value::DateTime(noon()).unwrap_date_time(), Ok(noon()));
    assert_eq!(Value::String(Cow::Borrowed("a")).unwrap_string(), Ok(Cow::Borrowed("a")));
    let held = StructValue { value_type: ValueTypeID::build(9), fields: vec![vec![1, 2]] };
    assert_eq!(
        Value::Struct(Cow::Owned(held.clone())).unwrap_struct().map(Cow::into_owned),
        Ok(held)
    );
}

#[test]
fn values_refuse_to_unwrap_as_another_type() {
    let mismatch = ConceptReadError::ValueTypeMismatch;
    assert_eq!(Value::Long(1).unwrap_boolean(), Err(mismatch));
    assert_eq!(Value::Boolean(true).unwrap_long(), Err(mismatch));
    assert_eq!(Value::Long(1).unwrap_double(), Err(mismatch));
    assert_eq!(Value::Long(1).unwrap_date_time(), Err(mismatch));
    assert_eq!(Value::DateTime(noon()).unwrap_string(), Err(mismatch));
    assert_eq!(Value::String(Cow::Borrowed("a")).unwrap_struct(), Err(mismatch));
}

#[test]
fn a_reference_borrows_and_equals() {
    let owned = Value::String(Cow::Owned("spouse".to_string()));
    let reference = owned.as_reference();
    assert!(matches!(reference, Value::String(Cow::Borrowed("spouse"))));
    assert_eq!(reference, owned);
    let held = StructValue { value_type: ValueTypeID::build(9), fields: vec![vec![7]] };
    let owned = Value::Struct(Cow::Owned(held));
    assert!(matches!(owned.as_reference(), Value::Struct(Cow::Borrowed(_))));
    assert_eq!(owned.as_reference(), owned);
    assert_eq!(Value::Double(7).as_reference(), Value::Double(7));
    assert_eq!(Value::DateTime(noon()).as_reference(), Value::DateTime(noon()));
    assert_eq!(owned.clone(), owned);
    assert!(matches!(owned.clone(), Value::Struct(Cow::Owned(_))));
}

#[test]
fn values_know_their_value_type() {
    assert_eq!(Value::Boolean(false).value_type_id(), ValueType::Boolean.value_type_id());
    assert_eq!(Value::Long(0).value_type_id(), ValueType::Long.value_type_id());
    assert_eq!(Value::Double(0).value_type_id(), ValueType::Double.value_type_id());
    assert_eq!(Value::DateTime(noon()).value_type_id(), ValueType::DateTime.value_type_id());
    assert_eq!(Value::String(Cow::Borrowed("")).value_type_id(), ValueType::String.value_type_id());
    let held = StructValue { value_type: ValueTypeID::build(9), fields: vec![] };
    assert_eq!(Value::Struct(Cow::Owned(held)).value_type_id(), ValueTypeID::build(9));
}

#[test]
fn struct_value_types_are_copied_whole() {
    let definition = StructDefinition {
        name: "point".to_string(),
        fields: vec![
            StructFieldDefinition { optional: false, value_type: ValueType::Long },
            StructFieldDefinition { optional: true, value_type: ValueType::String },
        ],
        field_names: vec!["x".to_string(), "label".to_string()],
    };
    let value_type = ValueType::Struct { id: ValueTypeID::build(9), definition };
    let copy = value_type.clone();
    assert_eq!(copy, value_type);
    assert_eq!(copy.value_type_id(), ValueTypeID::build(9));
    assert_eq!(ValueType::from_value_type_id(copy.value_type_id()), None);
}
