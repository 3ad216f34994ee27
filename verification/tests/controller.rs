use chrono::{TimeZone, Utc};

use homenet::actuator::{Actuator, TemperatureActuator};
use homenet::command::TemperatureActuatorCommand;
use homenet::controller::{Controller, DeviceOutcome, History, Range};
use homenet::datum::{Datum, DatumUnit, DatumValue, Decimal};
use homenet::device::{Device, Id, Name};
use homenet::discovery::{Agent, DiscoveryEvent, ServiceRecord};
use homenet::error::TransportError;
use homenet::registry::{Address, Role};
use homenet::time::Timestamp;

fn datum_line(mantissa: u64, ms: i64) -> String {
    let rfc = Utc.timestamp_millis_opt(ms).unwrap().to_rfc3339();
    format!("{}@°C@{}", Decimal::new(false, mantissa, 1).to_string(), rfc)
}

// End-to-end: discovery resolves id "abc" as a sensor at 127.0.0.1:9001
// and as an actuator at 127.0.0.1:9002; a poll returns 150.0 °C; the range
// is [0, 100]; the loop dispatches a corrective command to 127.0.0.1:9002
// and records the datum under "abc".
#[test]
fn test_end_to_end_cycle() {
    let mut controller = Controller::new();

    let mut sensor_agent = Agent::new(Role::Sensor);
    let mut actuator_agent = Agent::new(Role::Actuator);
    sensor_agent.start();
    actuator_agent.start();
    sensor_agent.step(
        DiscoveryEvent::Resolved(ServiceRecord {
            fullname: "sensor_abc._sensor._tcp.local.".to_string(),
            host: "127.0.0.1".to_string(),
            port: 9001,
        }),
        &mut controller.state,
    );
    actuator_agent.step(
        DiscoveryEvent::Resolved(ServiceRecord {
            fullname: "actuator_abc._actuator._tcp.local.".to_string(),
            host: "127.0.0.1".to_string(),
            port: 9002,
        }),
        &mut controller.state,
    );

    let snapshot = controller.state.snapshot(Role::Sensor);
    assert_eq!(snapshot.len(), 1);
    assert_eq!(snapshot[0].0, Id::new("abc"));
    assert_eq!(snapshot[0].1, Address::new("127.0.0.1", 9001));

    let ms: i64 = 1700000000123;
    let responses = vec![Ok(datum_line(1500, ms))];
    let outcomes = controller.plan_cycle(&snapshot, &responses);
    assert_eq!(outcomes.len(), 1);

    let expected_datum = Datum::new(
        DatumValue::Float(Decimal::new(false, 1500, 1)),
        Some(DatumUnit::DegreesC),
        Timestamp::from_millis(ms).unwrap(),
    );
    match &outcomes[0] {
        DeviceOutcome::Dispatch(datum, address, command) => {
            assert_eq!(*datum, expected_datum);
            assert_eq!(*address, Address::new("127.0.0.1", 9002));
            assert_eq!(
                *command,
                TemperatureActuatorCommand::SetMaxTemperature(Decimal::new(false, 1000, 1))
            );
            assert_eq!(command.to_json(), "{\"SetMaxTemperature\":100.0}");
        },
        other => panic!("expected a dispatch, got {:?}", other),
    }

    controller.record_cycle(&snapshot, &outcomes);
    assert_eq!(controller.history.latest(&Id::new("abc")), Some(&expected_datum));
}

// Isolation: a failed fetch for sensor A does not prevent fetch and
// dispatch for sensor B in the same cycle.
#[test]
fn test_failed_fetch_is_isolated() {
    let mut controller = Controller::new();
    controller.state.upsert(Role::Sensor, Id::new("a"), Address::new("h", 1));
    controller.state.upsert(Role::Sensor, Id::new("b"), Address::new("h", 2));
    controller.state.upsert(Role::Actuator, Id::new("b"), Address::new("h", 3));

    let snapshot = vec![
        (Id::new("a"), Address::new("h", 1)),
        (Id::new("b"), Address::new("h", 2)),
    ];
    let ms: i64 = 1700000000000;
    let responses = vec![Err(TransportError::Connection), Ok(datum_line(2000, ms))];
    let outcomes = controller.plan_cycle(&snapshot, &responses);

    assert_eq!(outcomes.len(), 2);
    assert_eq!(outcomes[0], DeviceOutcome::FetchFailed(TransportError::Connection));
    match &outcomes[1] {
        DeviceOutcome::Dispatch(_, address, _) => {
            assert_eq!(*address, Address::new("h", 3));
        },
        other => panic!("expected a dispatch for the healthy sensor, got {:?}", other),
    }

    // the failed sensor is skipped in the history, the healthy one kept
    controller.record_cycle(&snapshot, &outcomes);
    assert!(controller.history.latest(&Id::new("a")).is_none());
    assert!(controller.history.latest(&Id::new("b")).is_some());
}

// Pairing: an out-of-range reading with no registered actuator of the same
// id produces no dispatch and no error — the datum is still recorded.
#[test]
fn test_unpaired_sensor_is_valid_state() {
    let mut controller = Controller::new();
    let snapshot = vec![(Id::new("alone"), Address::new("h", 1))];
    let ms: i64 = 1700000000000;
    let responses = vec![Ok(datum_line(9000, ms))];
    let outcomes = controller.plan_cycle(&snapshot, &responses);

    let expected_datum = Datum::new(
        DatumValue::Float(Decimal::new(false, 9000, 1)),
        Some(DatumUnit::DegreesC),
        Timestamp::from_millis(ms).unwrap(),
    );
    assert_eq!(outcomes.len(), 1);
    assert_eq!(outcomes[0], DeviceOutcome::Unpaired(expected_datum));

    controller.record_cycle(&snapshot, &outcomes);
    assert_eq!(controller.history.latest(&Id::new("alone")), Some(&expected_datum));
}

// An in-range reading is recorded and nothing is dispatched.
#[test]
fn test_in_range_reading() {
    let controller = Controller::new();
    let snapshot = vec![(Id::new("s"), Address::new("h", 1))];
    let ms: i64 = 1700000000000;
    let responses = vec![Ok(datum_line(250, ms))];
    let outcomes = controller.plan_cycle(&snapshot, &responses);
    match &outcomes[0] {
        DeviceOutcome::InRange(d) => {
            assert_eq!(d.value, DatumValue::Float(Decimal::new(false, 250, 1)));
        },
        other => panic!("expected an in-range outcome, got {:?}", other),
    }
}

// A reading below the band dispatches a cap at the lower bound.
#[test]
fn test_below_range_uses_lower_bound() {
    let mut controller = Controller::new();
    controller.set_range(Range::new(Decimal::new(false, 100, 1), Decimal::new(false, 1000, 1)));
    controller.state.upsert(Role::Actuator, Id::new("s"), Address::new("h", 9));
    let snapshot = vec![(Id::new("s"), Address::new("h", 1))];
    let responses = vec![Ok("5.0@@2024-01-01T00:00:00+00:00".to_string())];
    let outcomes = controller.plan_cycle(&snapshot, &responses);
    match &outcomes[0] {
        DeviceOutcome::Dispatch(_, _, command) => {
            assert_eq!(
                *command,
                TemperatureActuatorCommand::SetMaxTemperature(Decimal::new(false, 100, 1))
            );
        },
        other => panic!("expected a dispatch, got {:?}", other),
    }
}

// Boolean readings have no numeric value and never trigger a dispatch.
#[test]
fn test_bool_reading_never_dispatches() {
    let mut controller = Controller::new();
    controller.state.upsert(Role::Actuator, Id::new("s"), Address::new("h", 9));
    let snapshot = vec![(Id::new("s"), Address::new("h", 1))];
    let responses = vec![Ok("true@⏼@2024-01-01T00:00:00+00:00".to_string())];
    let outcomes = controller.plan_cycle(&snapshot, &responses);
    assert!(matches!(outcomes[0], DeviceOutcome::InRange(_)));
}

// An unreadable response skips only that sensor.
#[test]
fn test_parse_failure_outcome() {
    let controller = Controller::new();
    let snapshot = vec![(Id::new("s"), Address::new("h", 1))];
    let responses = vec![Ok("HTTP/1.1 200 OK\r\n\r\ngibberish".to_string())];
    let outcomes = controller.plan_cycle(&snapshot, &responses);
    assert!(matches!(outcomes[0], DeviceOutcome::ParseFailed(_)));
}

#[test]
fn test_history_latest_wins() {
    let mut history = History::new();
    let ts1 = Timestamp::from_millis(1).unwrap();
    let ts2 = Timestamp::from_millis(2).unwrap();
    let d1 = Datum::new(DatumValue::Int(1), None, ts1);
    let d2 = Datum::new(DatumValue::Int(2), None, ts2);
    history.record(Id::new("x"), d1);
    history.record(Id::new("x"), d2);
    assert_eq!(history.len(), 2);
    assert_eq!(history.latest(&Id::new("x")), Some(&d2));
    assert_eq!(history.latest(&Id::new("y")), None);
}

// The temperature actuator applies a well-formed command and keeps the
// setting; a malformed command is reported and changes nothing.
#[test]
fn test_actuator_act() {
    let mut actuator = TemperatureActuator::new(Id::new("abc"), Name::new("heater"));
    assert_eq!(actuator.max_temperature(), None);
    assert!(actuator.act(Id::new("abc"), "{\"SetMaxTemperature\":100.0}".to_string()));
    assert_eq!(actuator.max_temperature(), Some(Decimal::new(false, 1000, 1)));
    assert!(!actuator.act(Id::new("abc"), "not json".to_string()));
    assert_eq!(actuator.max_temperature(), Some(Decimal::new(false, 1000, 1)));
}

#[test]
fn test_controller_identity() {
    let controller = Controller::new();
    assert_eq!(controller.get_name(), &Name::new("controller"));
    assert_eq!(controller.get_id(), &Id::new("controller"));
}
