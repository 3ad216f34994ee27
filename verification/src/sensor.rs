//! Sensors: devices that report measurements from the environment. The
//! temperature sensor reports a constant reading in degrees Celsius,
//! stamped with the current instant.

use vstd::prelude::*;
use vstd::string::StringExecFns;

use crate::datum::{Datum, DatumUnit, DatumValue, Decimal};
use crate::device::Device;

verus! {

/// A human-readable sensor label.
#[derive(Eq, Debug)]
pub struct Name(pub String);

impl View for Name {
    type V = Seq<char>;

    open spec fn view(&self) -> Seq<char> {
        self.0@
    }
}

impl PartialEq for Name {
    fn eq(&self, other: &Name) -> (r: bool) {
        self.0 == other.0
    }
}

impl vstd::std_specs::cmp::PartialEqSpecImpl for Name {
    open spec fn obeys_eq_spec() -> bool {
        true
    }

    open spec fn eq_spec(&self, other: &Name) -> bool {
        self.0@ == other.0@
    }
}

impl Name {
    pub fn new(name: &str) -> (r: Name)
        ensures
            r@ == name@,
    {
        Name(String::from_str(name))
    }
}

/// A sensor's unique identity.
#[derive(Eq, Debug, Hash)]
pub struct Id(pub String);

impl View for Id {
    type V = Seq<char>;

    open spec fn view(&self) -> Seq<char> {
        self.0@
    }
}

impl PartialEq for Id {
    fn eq(&self, other: &Id) -> (r: bool) {
        self.0 == other.0
    }
}

impl vstd::std_specs::cmp::PartialEqSpecImpl for Id {
    open spec fn obeys_eq_spec() -> bool {
        true
    }

    open spec fn eq_spec(&self, other: &Id) -> bool {
        self.0@ == other.0@
    }
}

impl Id {
    pub fn new(id: &str) -> (r: Id)
        ensures
            r@ == id@,
    {
        Id(String::from_str(id))
    }
}

/// A sensor collects data from the environment: ask it for its latest
/// `Datum`.
pub trait Sensor {
    fn get_datum(&self) -> Datum;

    fn get_name(&self) -> &Name;

    fn get_id(&self) -> &Id;
}

/// A sensor reporting the environment's temperature.
pub struct TemperatureSensor {
    pub id: crate::device::Id,
    pub name: crate::device::Name,
}

impl Device for TemperatureSensor {
    fn get_name(&self) -> &crate::device::Name {
        &self.name
    }

    fn get_id(&self) -> &crate::device::Id {
        &self.id
    }
}

impl TemperatureSensor {
    pub fn new(id: crate::device::Id, name: crate::device::Name) -> (r: TemperatureSensor)
        ensures
            r.id@ == id@,
            r.name@ == name@,
    {
        TemperatureSensor { id, name }
    }

    /// The sensor's reading: 25.0 degrees Celsius, stamped with the
    /// current instant.
    pub fn get_datum(&self) -> (r: Datum)
        ensures
            r.value == DatumValue::Float((Decimal { neg: false, mantissa: 250, scale: 1 })),
            r.unit == Some(DatumUnit::DegreesC),
            r.wf(),
    {
        Datum::new_now(
            DatumValue::Float(Decimal::new(false, 250, 1)),
            Some(DatumUnit::DegreesC),
        )
    }
}

} // verus!
