use homenet::datum::{DatumUnit, DatumValue, Decimal};
use homenet::device::{Device, Id, Name};
use homenet::sensor::TemperatureSensor;

#[test]
fn lib_test_get_name() {
    let id = Id::new("my id");
    let name = Name::new("my name");
    let sensor = TemperatureSensor::new(id.clone(), name.clone());
    assert_eq!(sensor.get_name(), &name);
}

#[test]
fn lib_test_get_id() {
    let id = Id::new("my id");
    let name = Name::new("my name");
    let sensor = TemperatureSensor::new(id.clone(), name.clone());
    assert_eq!(sensor.get_id(), &id);
}

#[test]
fn test_temperature_sensor_datum() {
    let sensor = TemperatureSensor::new(Id::new("t"), Name::new("thermostat"));
    let datum = sensor.get_datum();
    assert_eq!(datum.value, DatumValue::Float(Decimal::new(false, 250, 1)));
    assert_eq!(datum.unit, Some(DatumUnit::DegreesC));
}
