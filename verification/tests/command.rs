use homenet::command::{Command, TemperatureActuatorCommand};
use homenet::datum::Decimal;
use homenet::error::ParseErrorKind;

fn serde(command: &Command) -> Result<Command, homenet::error::ParseError> {
    let serialized = command.to_string();
    Command::parse(serialized.as_str())
}

#[test]
fn test_serde_cool_to() {
    let command = Command::CoolTo(Decimal::new(false, 420, 1));
    let deserialized = serde(&command);

    assert_eq!(deserialized, Ok(command));
}

#[test]
fn test_serde_heat_to() {
    let command = Command::HeatTo(Decimal::new(false, 193, 1));
    let deserialized = serde(&command);

    assert_eq!(deserialized, Ok(command));
}

#[test]
fn test_command_text_exact() {
    assert_eq!(Command::CoolTo(Decimal::new(false, 420, 1)).to_string(), "CoolTo:42.0");
    assert_eq!(Command::HeatTo(Decimal::new(true, 193, 1)).to_string(), "HeatTo:-19.3");
}

// A bare integer temperature is accepted and means that many degrees.
#[test]
fn test_command_parse_integer_temperature() {
    assert_eq!(
        Command::parse("CoolTo:42"),
        Ok(Command::CoolTo(Decimal::new(false, 420, 1)))
    );
}

#[test]
fn test_command_parse_errors() {
    let err = Command::parse("OpenTo:42.0").unwrap_err();
    assert_eq!(err.kind, ParseErrorKind::Command);
    assert_eq!(err.text, "OpenTo:42.0");
    let err = Command::parse("CoolTo").unwrap_err();
    assert_eq!(err.kind, ParseErrorKind::Command);
    let err = Command::parse("CoolTo:warm").unwrap_err();
    assert_eq!(err.kind, ParseErrorKind::Command);
}

#[test]
fn test_command_json_round_trip() {
    let c = TemperatureActuatorCommand::SetMaxTemperature(Decimal::new(false, 1000, 1));
    let json = c.to_json();
    assert_eq!(json, "{\"SetMaxTemperature\":100.0}");
    assert_eq!(TemperatureActuatorCommand::parse_json(json.as_str()), Ok(c));
}

#[test]
fn test_command_json_errors() {
    let err = TemperatureActuatorCommand::parse_json("{\"SetMinTemperature\":1.0}").unwrap_err();
    assert_eq!(err.kind, ParseErrorKind::Command);
    let err = TemperatureActuatorCommand::parse_json("{\"SetMaxTemperature\":1.0").unwrap_err();
    assert_eq!(err.kind, ParseErrorKind::Command);
}
