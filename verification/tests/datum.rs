use chrono::{TimeZone, Utc};

use homenet::datum::{Datum, DatumUnit, DatumValue, Decimal};
use homenet::error::ParseErrorKind;
use homenet::time::Timestamp;

fn now_ts() -> Timestamp {
    Timestamp::from_millis(Utc::now().timestamp_millis()).unwrap()
}

fn create(value: DatumValue) -> Datum {
    Datum::new(value, None, now_ts())
}

#[test]
fn test_create_datum_bool() {
    let datum = create(DatumValue::Bool(true));
    assert_eq!(datum.get_as_bool(), Some(true));
}

#[test]
fn test_create_datum_bool_failure() {
    let datum = create(DatumValue::Float(Decimal::new(false, 420, 1)));
    assert_eq!(datum.get_as_bool(), None);
}

#[test]
fn test_create_datum_float() {
    let datum = create(DatumValue::Float(Decimal::new(false, 420, 1)));
    assert_eq!(datum.get_as_float(), Some(Decimal::new(false, 420, 1)));
}

#[test]
fn test_create_datum_float_failure() {
    let datum = create(DatumValue::Bool(true));
    assert_eq!(datum.get_as_float(), None);
}

#[test]
fn test_create_datum_int() {
    let datum = create(DatumValue::Int(19));
    assert_eq!(datum.get_as_int(), Some(19));
}

#[test]
fn test_create_datum_int_failure() {
    let datum = create(DatumValue::Bool(true));
    assert_eq!(datum.get_as_int(), None);
}

#[test]
fn test_datum_parse_int() {
    let now = now_ts();
    let rfc = Utc.timestamp_millis_opt(now.millis()).unwrap().to_rfc3339();
    let string = format!("12@@{}", rfc);

    let expected = Datum::new(DatumValue::Int(12), Some(DatumUnit::Unitless), now);
    let actual = Datum::parse(string.as_str());

    assert_eq!(actual, Ok(expected));
}

#[test]
fn test_datum_parse_float() {
    let now = now_ts();
    let rfc = Utc.timestamp_millis_opt(now.millis()).unwrap().to_rfc3339();
    let string = format!("12.0@⏼@{}", rfc);

    let expected = Datum::new(
        DatumValue::Float(Decimal::new(false, 120, 1)),
        Some(DatumUnit::PoweredOn),
        now,
    );
    let actual = Datum::parse(string.as_str());

    assert_eq!(actual, Ok(expected));
}

#[test]
fn test_datum_parse_bool() {
    let now = now_ts();
    let rfc = Utc.timestamp_millis_opt(now.millis()).unwrap().to_rfc3339();
    let string = format!("false@°C@{}", rfc);

    let expected = Datum::new(DatumValue::Bool(false), Some(DatumUnit::DegreesC), now);
    let actual = Datum::parse(string.as_str());

    assert_eq!(actual, Ok(expected));
}

// Round trip: decoding an encoding restores the datum exactly — value,
// unit and timestamp — for every value kind.
#[test]
fn test_round_trip_all_kinds() {
    let ts = Timestamp::from_millis(1700000000123).unwrap();
    let datums = vec![
        Datum::new(DatumValue::Bool(true), Some(DatumUnit::PoweredOn), ts),
        Datum::new(DatumValue::Bool(false), Some(DatumUnit::Unitless), ts),
        Datum::new(DatumValue::Int(-273), Some(DatumUnit::DegreesC), ts),
        Datum::new(DatumValue::Int(0), Some(DatumUnit::Unitless), ts),
        Datum::new(
            DatumValue::Float(Decimal::new(true, 5, 2)),
            Some(DatumUnit::DegreesC),
            ts,
        ),
        Datum::new(
            DatumValue::Float(Decimal::new(false, 1500, 1)),
            Some(DatumUnit::DegreesC),
            ts,
        ),
    ];
    for d in datums {
        assert_eq!(Datum::parse(d.to_string().as_str()), Ok(d));
    }
}

// A datum without a unit encodes with an empty unit field and comes back
// as Unitless.
#[test]
fn test_round_trip_missing_unit() {
    let ts = Timestamp::from_millis(0).unwrap();
    let d = Datum::new(DatumValue::Int(7), None, ts);
    let back = Datum::parse(d.to_string().as_str()).unwrap();
    assert_eq!(back.unit, Some(DatumUnit::Unitless));
    assert_eq!(back.value, DatumValue::Int(7));
    assert_eq!(back.timestamp, ts);
}

// The encoder's text is exactly value@unit@rfc3339, with the timestamp
// rendered as chrono renders it.
#[test]
fn test_encoding_text_exact() {
    let ms: i64 = 1700000000123;
    let ts = Timestamp::from_millis(ms).unwrap();
    let d = Datum::new(
        DatumValue::Float(Decimal::new(false, 425, 1)),
        Some(DatumUnit::DegreesC),
        ts,
    );
    let rfc = Utc.timestamp_millis_opt(ms).unwrap().to_rfc3339();
    assert_eq!(d.to_string(), format!("42.5@°C@{}", rfc));
}

// Decode determinism: boolean, then integer, then decimal, in that order.
#[test]
fn test_decode_determinism() {
    assert_eq!(DatumValue::parse("0".to_string()), Ok(DatumValue::Int(0)));
    assert_eq!(
        DatumValue::parse("0.0".to_string()),
        Ok(DatumValue::Float(Decimal::new(false, 0, 1)))
    );
    assert_eq!(DatumValue::parse("true".to_string()), Ok(DatumValue::Bool(true)));
}

#[test]
fn test_value_parse_rejects_garbage() {
    let err = DatumValue::parse("1.2.3".to_string()).unwrap_err();
    assert_eq!(err.kind, ParseErrorKind::Value);
    assert_eq!(err.text, "1.2.3");
}

#[test]
fn test_unit_parse() {
    assert_eq!(DatumUnit::parse(""), Ok(DatumUnit::Unitless));
    assert_eq!(DatumUnit::parse("⏼"), Ok(DatumUnit::PoweredOn));
    assert_eq!(DatumUnit::parse("°C"), Ok(DatumUnit::DegreesC));
    let err = DatumUnit::parse("K").unwrap_err();
    assert_eq!(err.kind, ParseErrorKind::Unit);
    assert_eq!(err.text, "K");
}

// The wrong field count is a structure error carrying the whole text.
#[test]
fn test_datum_parse_structure_errors() {
    let err = Datum::parse("justonefield").unwrap_err();
    assert_eq!(err.kind, ParseErrorKind::Structure);
    let err = Datum::parse("a@b").unwrap_err();
    assert_eq!(err.kind, ParseErrorKind::Structure);
    let err = Datum::parse("a@b@c@d").unwrap_err();
    assert_eq!(err.kind, ParseErrorKind::Structure);
}

// A bad timestamp is rejected with the offending substring.
#[test]
fn test_datum_parse_timestamp_error() {
    let err = Datum::parse("12@@not-a-time").unwrap_err();
    assert_eq!(err.kind, ParseErrorKind::Timestamp);
    assert_eq!(err.text, "not-a-time");
}

// Decimal rendering pads fractions and keeps the sign of small negatives.
#[test]
fn test_decimal_rendering() {
    assert_eq!(Decimal::new(true, 5, 2).to_string(), "-0.05");
    assert_eq!(Decimal::new(false, 1000, 1).to_string(), "100.0");
    assert_eq!(Decimal::new(false, 42, 3).to_string(), "0.042");
}

// Decimal ordering over different scales.
#[test]
fn test_decimal_ordering() {
    let a = Decimal::new(false, 15, 1);  // 1.5
    let b = Decimal::new(false, 1500, 3);  // 1.5
    let c = Decimal::new(true, 20, 1);  // -2.0
    assert!(a.le(&b) && b.le(&a));
    assert!(c.le(&a));
    assert!(!a.le(&c));
}

// Instants outside the four-digit-year era are refused.
#[test]
fn test_timestamp_range() {
    assert!(Timestamp::from_millis(-62135596800000).is_some());
    assert!(Timestamp::from_millis(253402300799999).is_some());
    assert!(Timestamp::from_millis(-62135596800001).is_none());
    assert!(Timestamp::from_millis(253402300800000).is_none());
}
