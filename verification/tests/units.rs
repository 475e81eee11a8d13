use std::str::FromStr;

use temperature::TemperatureType;

const INVALID_TAIL: &str =
    "' is an invalid temperature type, use one of: [kelvin, k, celsius, c, fahrenheit, f].";

#[test]
fn fahrenheit_tokens() {
    assert_eq!(TemperatureType::from_str("f"), Ok(TemperatureType::Fahrenheit));
    assert_eq!(TemperatureType::from_str("fahrenheit"), Ok(TemperatureType::Fahrenheit));
}

#[test]
fn kelvin_tokens() {
    assert_eq!(TemperatureType::from_str("k"), Ok(TemperatureType::Kelvin));
    assert_eq!(TemperatureType::from_str("kelvin"), Ok(TemperatureType::Kelvin));
}

#[test]
fn celsius_tokens() {
    assert_eq!(TemperatureType::from_str("c"), Ok(TemperatureType::Celsius));
    assert_eq!(TemperatureType::from_str("celsius"), Ok(TemperatureType::Celsius));
}

#[test]
fn tokens_parse_through_str_parse() {
    assert_eq!("k".parse::<TemperatureType>(), Ok(TemperatureType::Kelvin));
}

#[test]
fn tokens_are_case_sensitive() {
    assert_eq!(TemperatureType::from_str("F"), Err(format!("'F{INVALID_TAIL}")));
    assert_eq!(TemperatureType::from_str("Kelvin"), Err(format!("'Kelvin{INVALID_TAIL}")));
    assert_eq!(TemperatureType::from_str("CELSIUS"), Err(format!("'CELSIUS{INVALID_TAIL}")));
}

#[test]
fn unknown_token_is_an_error_that_lists_the_tokens() {
    let message = TemperatureType::from_str("bogus").unwrap_err();
    assert_eq!(
        message,
        "'bogus' is an invalid temperature type, use one of: [kelvin, k, celsius, c, fahrenheit, f]."
    );
    for token in ["kelvin", "k", "celsius", "c", "fahrenheit", "f"] {
        assert!(message.contains(token));
    }
}

#[test]
fn empty_and_padded_tokens_are_errors() {
    assert_eq!(TemperatureType::from_str(""), Err(format!("'{INVALID_TAIL}")));
    assert_eq!(TemperatureType::from_str(" f"), Err(format!("' f{INVALID_TAIL}")));
    assert_eq!(TemperatureType::from_str("f "), Err(format!("'f {INVALID_TAIL}")));
    assert_eq!(TemperatureType::from_str("ff"), Err(format!("'ff{INVALID_TAIL}")));
}

#[test]
fn default_unit_is_celsius() {
    assert_eq!(TemperatureType::default(), TemperatureType::Celsius);
}

#[test]
fn units_are_copied_and_compared() {
    let unit = TemperatureType::Kelvin;
    let copy = unit;
    assert_eq!(unit, copy);
    assert_ne!(unit, TemperatureType::Fahrenheit);
    assert_eq!(format!("{:?}", unit), "Kelvin");
}
