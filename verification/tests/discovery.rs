use homenet::discovery::{
    extract_device_id, Agent, AgentState, DiscoveryEvent, ServiceRecord, StepOutcome,
};
use homenet::device::Id;
use homenet::error::{DiscoveryError, ParseErrorKind};
use homenet::registry::{Address, Role, State};

#[test]
fn test_extract_device_id() {
    assert_eq!(extract_device_id("hello_world.how_are.you"), Ok(Id::new("world")));
    assert_eq!(extract_device_id("sensor_abc._sensor._tcp.local."), Ok(Id::new("abc")));
    assert_eq!(extract_device_id("a_b_c.rest"), Ok(Id::new("b")));
}

// A fullname with no '_' advertises no id and is a DeviceName parse error.
#[test]
fn test_extract_device_id_malformed() {
    let err = extract_device_id("nounderscore.local.").unwrap_err();
    assert_eq!(err.kind, ParseErrorKind::DeviceName);
    assert_eq!(err.text, "nounderscore.local.");
}

fn record(fullname: &str, host: &str, port: u16) -> ServiceRecord {
    ServiceRecord { fullname: fullname.to_string(), host: host.to_string(), port }
}

#[test]
fn test_agent_commits_resolved_record() {
    let mut registry = State::new();
    let mut agent = Agent::new(Role::Sensor);
    agent.start();
    assert_eq!(agent.state, AgentState::Browsing);

    let outcome = agent.step(
        DiscoveryEvent::Resolved(record("sensor_abc._sensor._tcp.local.", "myhost.local.", 9001)),
        &mut registry,
    );
    match outcome {
        StepOutcome::Committed(id, address) => {
            assert_eq!(id, Id::new("abc"));
            assert_eq!(address, Address::new("myhost.local", 9001));
        },
        other => panic!("expected a commit, got {:?}", other),
    }
    assert_eq!(agent.state, AgentState::Browsing);
    assert_eq!(
        *registry.get(Role::Sensor, &Id::new("abc")).unwrap(),
        Address::new("myhost.local", 9001)
    );
    assert!(registry.get(Role::Actuator, &Id::new("abc")).is_none());
}

// A malformed fullname is skipped with a ParseError; the agent keeps
// browsing and the registry is untouched.
#[test]
fn test_agent_skips_malformed_name() {
    let mut registry = State::new();
    let mut agent = Agent::new(Role::Sensor);
    agent.start();

    let outcome = agent.step(
        DiscoveryEvent::Resolved(record("nounderscore.local.", "h", 1)),
        &mut registry,
    );
    match outcome {
        StepOutcome::Skipped(e) => {
            assert_eq!(e.kind, ParseErrorKind::DeviceName);
            assert_eq!(e.text, "nounderscore.local.");
        },
        other => panic!("expected a skip, got {:?}", other),
    }
    assert_eq!(agent.state, AgentState::Browsing);
    assert_eq!(registry.snapshot(Role::Sensor).len(), 0);
}

#[test]
fn test_agent_stops_on_backend_failure() {
    let mut registry = State::new();
    let mut agent = Agent::new(Role::Actuator);
    agent.start();
    let outcome = agent.step(DiscoveryEvent::BackendFailed, &mut registry);
    assert_eq!(outcome, StepOutcome::Stopped(Some(DiscoveryError::Backend)));
    assert_eq!(agent.state, AgentState::Stopped);

    // once stopped, resolved records are ignored
    let outcome = agent.step(
        DiscoveryEvent::Resolved(record("x_y.local.", "h", 1)),
        &mut registry,
    );
    assert_eq!(outcome, StepOutcome::Ignored);
    assert_eq!(registry.snapshot(Role::Actuator).len(), 0);
}

#[test]
fn test_agent_shutdown() {
    let mut registry = State::new();
    let mut agent = Agent::new(Role::Sensor);
    agent.start();
    assert_eq!(agent.step(DiscoveryEvent::Shutdown, &mut registry), StepOutcome::Stopped(None));
    assert_eq!(agent.state, AgentState::Stopped);
}

// The id is whatever stands between the first '_' and the next '_' or
// '.': an empty token is still an id.
#[test]
fn test_extract_device_id_edges() {
    assert_eq!(extract_device_id("a_.x"), Ok(Id::new("")));
    assert_eq!(extract_device_id("sensor_abc"), Ok(Id::new("abc")));
}
