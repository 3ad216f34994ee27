use chrono::{TimeZone, Utc};

use homenet::datum::{Datum, DatumUnit, DatumValue, Decimal};
use homenet::error::ParseErrorKind;
use homenet::time::Timestamp;
use homenet::transport::{
    actuator_request, parse_framed_request, parse_sensor_response, sensor_request,
};

#[test]
fn test_sensor_request_text() {
    assert_eq!(sensor_request(), "GET / HTTP/1.1\r\n\r\n");
}

#[test]
fn test_actuator_request_text() {
    let body = "{\"SetMaxTemperature\":100.0}";
    let expected = format!(
        "POST HTTP/1.1\r\nContent-Type: application/json\r\nContent-Length: {}\r\n\r\n{}",
        body.len(),
        body
    );
    assert_eq!(actuator_request(body), expected);
}

// The last non-empty line of a full sensor reply is the datum.
#[test]
fn test_parse_sensor_response() {
    let ms: i64 = 1700000000123;
    let rfc = Utc.timestamp_millis_opt(ms).unwrap().to_rfc3339();
    let response = format!(
        "HTTP/1.1 200 OK\r\nContent-Length: 99\r\n\r\n42.5@°C@{}\r\n\r\n",
        rfc
    );
    let expected = Datum::new(
        DatumValue::Float(Decimal::new(false, 425, 1)),
        Some(DatumUnit::DegreesC),
        Timestamp::from_millis(ms).unwrap(),
    );
    assert_eq!(parse_sensor_response(response.as_str()), Ok(expected));
}

#[test]
fn test_parse_sensor_response_blank() {
    let err = parse_sensor_response(" \r\n \r\n").unwrap_err();
    assert_eq!(err.kind, ParseErrorKind::Structure);
}

#[test]
fn test_parse_sensor_response_garbage_line() {
    let err = parse_sensor_response("HTTP/1.1 200 OK\r\n\r\nnot-a-datum\r\n").unwrap_err();
    assert_eq!(err.kind, ParseErrorKind::Structure);
    assert_eq!(err.text, "not-a-datum");
}

// A framed actuator request cuts back apart into its headers and body.
#[test]
fn test_parse_framed_request_round() {
    let body = "{\"SetMaxTemperature\":100.0}";
    let wire = actuator_request(body);
    let framed = parse_framed_request(wire.as_str()).unwrap();
    assert_eq!(framed.body, body);
    assert!(framed.head.starts_with("POST HTTP/1.1\r\n"));
    assert!(framed.head.contains("Content-Length: 27"));
}

// No declared length means an empty body.
#[test]
fn test_parse_framed_request_no_length() {
    let framed = parse_framed_request("GET / HTTP/1.1\r\n\r\nleftover").unwrap();
    assert_eq!(framed.head, "GET / HTTP/1.1");
    assert_eq!(framed.body, "");
}

#[test]
fn test_parse_framed_request_errors() {
    // no blank line at all
    let err = parse_framed_request("POST HTTP/1.1\r\n").unwrap_err();
    assert_eq!(err.kind, ParseErrorKind::Frame);
    // declared length longer than what follows
    let err = parse_framed_request("POST x\r\nContent-Length: 10\r\n\r\nabc").unwrap_err();
    assert_eq!(err.kind, ParseErrorKind::Frame);
    // declared length with no digits
    let err = parse_framed_request("POST x\r\nContent-Length: abc\r\n\r\n").unwrap_err();
    assert_eq!(err.kind, ParseErrorKind::Frame);
}
