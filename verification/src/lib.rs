//! A home-automation controller library: a typed value codec, a contact
//! registry keyed by device identity, a discovery agent state machine, the
//! minimal wire framing between controller and devices, and the control
//! loop's poll/decide/dispatch rule.

pub mod actuator;
pub mod command;
pub mod controller;
pub mod datum;
pub mod device;
pub mod discovery;
pub mod error;
pub mod registry;
pub mod sensor;
pub mod text;
pub mod transport;
pub mod time;
