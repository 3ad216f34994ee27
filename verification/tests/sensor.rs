use homenet::datum::{Datum, DatumUnit, DatumValue, Decimal};
use homenet::sensor::{Id, Name, Sensor};

struct Thermometer {
    id: Id,
    name: Name,
}

impl Thermometer {
    fn new() -> Thermometer {
        Thermometer { id: Id::new("should be random"), name: Name::new("Thermometer") }
    }
}

impl Sensor for Thermometer {
    fn get_datum(&self) -> Datum {
        // in our example, this should query the Environment
        // in this test, we just return a constant value
        Datum::new_now(
            DatumValue::Float(Decimal::new(false, 420, 1)),
            Some(DatumUnit::DegreesC),
        )
    }

    fn get_name(&self) -> &Name {
        &self.name
    }

    fn get_id(&self) -> &Id {
        &self.id
    }
}

#[test]
fn test_get_datum() {
    let thermometer = Thermometer::new();
    let datum = thermometer.get_datum();

    assert_eq!(datum.value, DatumValue::Float(Decimal::new(false, 420, 1)));
    assert_eq!(datum.unit, Some(DatumUnit::DegreesC));
}

#[test]
fn test_get_name() {
    let thermometer = Thermometer::new();
    assert_eq!(thermometer.get_name(), &Name::new("Thermometer"));
}

#[test]
fn test_get_id() {
    let thermometer = Thermometer::new();
    assert_eq!(thermometer.get_id(), &Id::new("should be random"));
}
