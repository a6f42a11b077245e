use yarn_slinger::declaration::Type;
use yarn_slinger::library::Library;
use yarn_slinger::value::Value;
use yarn_slinger::yarn_value::{
    IntoYarnValueFromNonYarnValue, InvalidCastError, YarnValue, ZERO,
};

#[test]
fn zero_has_the_bits_of_the_number_zero() {
    assert_eq!(ZERO, 0.0f32.to_bits());
}

#[test]
fn numbers_are_true_unless_zero() {
    assert_eq!(bool::try_from(YarnValue::Number(0.0f32.to_bits())).unwrap(), false);
    assert_eq!(bool::try_from(YarnValue::Number((-0.0f32).to_bits())).unwrap(), false);
    assert_eq!(bool::try_from(YarnValue::Number(1.0f32.to_bits())).unwrap(), true);
    assert_eq!(bool::try_from(YarnValue::Number((-2.5f32).to_bits())).unwrap(), true);
    assert_eq!(bool::try_from(YarnValue::Number(f32::NAN.to_bits())).unwrap(), true);
    assert_eq!(bool::try_from(YarnValue::Number(f32::MIN_POSITIVE.to_bits())).unwrap(), true);
    for number in [0.0f32, -0.0, 1.0, -2.5, f32::NAN, f32::INFINITY, 1e-40] {
        assert_eq!(bool::try_from(YarnValue::Number(number.to_bits())).unwrap(), number != 0.0);
    }
}

#[test]
fn strings_are_true_or_false_where_they_say_so() {
    assert_eq!(bool::try_from(YarnValue::String("true".to_string())).unwrap(), true);
    assert_eq!(bool::try_from(YarnValue::String("false".to_string())).unwrap(), false);
    for text in ["", "True", "yes", " true", "false ", "1"] {
        let error = bool::try_from(YarnValue::String(text.to_string())).unwrap_err();
        assert!(matches!(error, InvalidCastError::ParseBoolError(_)), "{text:?}");
    }
}

#[test]
fn truth_values_are_themselves() {
    assert_eq!(bool::try_from(YarnValue::Boolean(true)).unwrap(), true);
    assert_eq!(bool::try_from(YarnValue::Boolean(false)).unwrap(), false);
}

#[test]
fn base_values_turn_into_yarn_values() {
    assert_eq!(YarnValue::from(true), YarnValue::Boolean(true));
    assert_eq!(YarnValue::from("abc".to_string()), YarnValue::String("abc".to_string()));
    assert_eq!(YarnValue::from("abc"), YarnValue::String("abc".to_string()));
    assert_eq!(false.into_untyped_value(), YarnValue::Boolean(false));
    assert_eq!("x".to_string().into_untyped_value(), YarnValue::String("x".to_string()));
    assert_eq!(YarnValue::from("abc").clone(), YarnValue::String("abc".to_string()));
}

#[test]
fn parse_errors_turn_into_cast_errors() {
    let error = "x".parse::<bool>().unwrap_err();
    assert!(matches!(InvalidCastError::from(error), InvalidCastError::ParseBoolError(_)));
    let error = "x".parse::<i32>().unwrap_err();
    assert!(matches!(InvalidCastError::from(error), InvalidCastError::ParseIntError(_)));
    let error = "x".parse::<f32>().unwrap_err();
    assert!(matches!(InvalidCastError::from(error), InvalidCastError::ParseFloatError(_)));
}

#[test]
fn values_carry_the_type_of_what_they_hold() {
    let value = Value::from("abc");
    assert_eq!(value.value_type, Type::String);
    assert_eq!(value.internal_value, YarnValue::String("abc".to_string()));
    let value = Value::from("abc".to_string());
    assert_eq!(value.value_type, Type::String);
    let value = Value::from(true);
    assert_eq!(value.value_type, Type::Boolean);
    assert_eq!(value.clone(), value);
    assert_eq!(bool::try_from(value).unwrap(), true);
    let value = Value::from(YarnValue::Number(2.0f32.to_bits()));
    assert_eq!(value.value_type, Type::Number);
    assert_eq!(bool::try_from(value).unwrap(), true);
    assert!(bool::try_from(Value::from("maybe")).is_err());
}

#[test]
fn library_knows_its_functions() {
    let library = Library::new()
        .with_function("visited".to_string(), 1)
        .with_function("visited_count".to_string(), 1)
        .with_function("dice".to_string(), 2)
        .with_function("dice".to_string(), 1);
    assert_eq!(library.arity_of(&"visited".to_string()), Some(1));
    assert_eq!(library.arity_of(&"dice".to_string()), Some(1));
    assert_eq!(library.arity_of(&"random".to_string()), None);
    assert_eq!(Library::new().arity_of(&"visited".to_string()), None);
}

#[test]
fn visited_variable_names_are_derived_from_the_title() {
    assert_eq!(
        Library::generate_unique_visited_variable_for_node("Start"),
        "$Yarn.Internal.Visiting.Start"
    );
    assert_eq!(Library::generate_unique_visited_variable_for_node(""), "$Yarn.Internal.Visiting.");
    assert_ne!(
        Library::generate_unique_visited_variable_for_node("A"),
        Library::generate_unique_visited_variable_for_node("B")
    );
}
