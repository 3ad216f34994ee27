use homenet::device::Id;
use homenet::registry::{Address, Role, State};

// Registry idempotence: upserting the same (id, role, address) twice
// yields one entry holding the latest address.
#[test]
fn test_upsert_idempotent() {
    let mut state = State::new();
    state.upsert(Role::Sensor, Id::new("a"), Address::new("host1", 1));
    state.upsert(Role::Sensor, Id::new("a"), Address::new("host1", 1));
    let snap = state.snapshot(Role::Sensor);
    assert_eq!(snap.len(), 1);
    assert_eq!(snap[0].0, Id::new("a"));
    assert_eq!(snap[0].1, Address::new("host1", 1));
}

// The latest address wins.
#[test]
fn test_upsert_overwrites() {
    let mut state = State::new();
    state.upsert(Role::Sensor, Id::new("a"), Address::new("old-host", 1));
    state.upsert(Role::Sensor, Id::new("a"), Address::new("new-host", 2));
    let got = state.get(Role::Sensor, &Id::new("a")).unwrap();
    assert_eq!(*got, Address::new("new-host", 2));
    assert_eq!(state.snapshot(Role::Sensor).len(), 1);
}

// Sensor and actuator partitions are independent: the same id lives in
// both without collision.
#[test]
fn test_roles_never_collide() {
    let mut state = State::new();
    state.upsert(Role::Sensor, Id::new("abc"), Address::new("127.0.0.1", 9001));
    state.upsert(Role::Actuator, Id::new("abc"), Address::new("127.0.0.1", 9002));
    assert_eq!(
        *state.get(Role::Sensor, &Id::new("abc")).unwrap(),
        Address::new("127.0.0.1", 9001)
    );
    assert_eq!(
        *state.get(Role::Actuator, &Id::new("abc")).unwrap(),
        Address::new("127.0.0.1", 9002)
    );
    assert_eq!(state.snapshot(Role::Sensor).len(), 1);
    assert_eq!(state.snapshot(Role::Actuator).len(), 1);
}

#[test]
fn test_get_absent() {
    let state = State::new();
    assert!(state.get(Role::Sensor, &Id::new("nobody")).is_none());
    assert_eq!(state.snapshot(Role::Actuator).len(), 0);
}

// Trailing dots from discovery host names are stripped before use.
#[test]
fn test_address_strips_trailing_dots() {
    let a = Address::new("myhost.local.", 8080);
    assert_eq!(a.host, "myhost.local");
    assert_eq!(a.port, 8080);
    assert_eq!(a.to_string(), "myhost.local:8080");
    let b = Address::new("plainhost", 80);
    assert_eq!(b.host, "plainhost");
}
