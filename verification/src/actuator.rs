//! Actuators: devices that mutate the environment on command. The
//! temperature actuator accepts the `SetMaxTemperature` JSON vocabulary and
//! keeps the last setting it was told.

use vstd::prelude::*;

use crate::command::TemperatureActuatorCommand;
use crate::datum::Decimal;
use crate::device::{Device, Id, Name};

verus! {

/// A serialisable actuator instruction.
pub trait Command {

}

/// An actuator mutates the environment on command.
pub trait Actuator: Device {
    /// Hands the actuator a serialized command; returns whether the command
    /// was understood. Malformed commands are reported, never fatal.
    fn act(&mut self, device: Id, command: String) -> bool;
}

/// An actuator that caps the environment's temperature.
pub struct TemperatureActuator {
    pub id: Id,
    pub name: Name,
    /// The last cap this actuator was told to hold, if any.
    pub max_temperature: Option<Decimal>,
}

impl Device for TemperatureActuator {
    fn get_name(&self) -> &Name {
        &self.name
    }

    fn get_id(&self) -> &Id {
        &self.id
    }
}

impl Actuator for TemperatureActuator {
    fn act(&mut self, device: Id, command: String) -> bool {
        match TemperatureActuatorCommand::parse_json(command.as_str()) {
            Ok(c) => {
                self.apply(&c);
                true
            },
            Err(_) => false,
        }
    }
}

impl TemperatureActuator {
    pub fn new(id: Id, name: Name) -> (r: TemperatureActuator)
        ensures
            r.id@ == id@,
            r.name@ == name@,
            r.max_temperature is None,
    {
        TemperatureActuator { id, name, max_temperature: None }
    }

    /// Applies a parsed command to the actuator's setting.
    pub fn apply(&mut self, command: &TemperatureActuatorCommand)
        ensures
            (match *command {
                TemperatureActuatorCommand::SetMaxTemperature(t) => {
                    final(self).max_temperature == Some(t)
                },
            }),
            final(self).id@ == old(self).id@,
            final(self).name@ == old(self).name@,
    {
        match command {
            TemperatureActuatorCommand::SetMaxTemperature(t) => {
                self.max_temperature = Some(*t);
            },
        }
    }

    pub fn max_temperature(&self) -> (r: Option<Decimal>)
        ensures
            r == self.max_temperature,
    {
        self.max_temperature
    }
}

} // verus!
