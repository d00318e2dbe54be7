use sensor_pipeline::clock::Timestamp;
use sensor_pipeline::fixed::UNITS_PER_ONE;
use sensor_pipeline::sensor::{Sensor, SensorData, SensorFactory, SensorKind};

fn at(secs: i64, nanos: u32) -> Timestamp {
    Timestamp { secs, nanos }
}

#[test]
fn timestamps_are_ordered_by_seconds_then_nanoseconds() {
    assert!(at(5, 0).is_at_or_after(&at(4, 999_999_999)));
    assert!(at(5, 7).is_at_or_after(&at(5, 7)));
    assert!(at(5, 8).is_at_or_after(&at(5, 7)));
    assert!(!at(5, 6).is_at_or_after(&at(5, 7)));
    assert!(!at(-1, 500).is_at_or_after(&at(0, 0)));
    assert!(at(0, 0).is_at_or_after(&at(-1, 500)));
}

#[test]
fn later_of_two_timestamps() {
    assert_eq!(at(5, 0).later_of(at(4, 9)), at(5, 0));
    assert_eq!(at(4, 9).later_of(at(5, 0)), at(5, 0));
    assert_eq!(at(5, 1).later_of(at(5, 2)), at(5, 2));
    assert_eq!(at(5, 2).later_of(at(5, 2)), at(5, 2));
}

#[test]
fn factory_knows_both_kinds() {
    let mut imu = SensorFactory::create_at("ImuSensor", at(100, 1)).unwrap();
    let mut range = SensorFactory::create_at("RangeSensor", at(100, 1)).unwrap();
    assert_eq!(imu.read_raw_at(at(100, 2)).sensor_id, "IMU_data");
    assert_eq!(range.read_raw_at(at(100, 2)).sensor_id, "Range_data");
}

#[test]
fn factory_refuses_an_unknown_kind() {
    let refused = SensorFactory::create_at("Thermometer", at(100, 1));
    assert_eq!(refused.err().unwrap().kind, "Thermometer");
    assert!(SensorFactory::create("imusensor").is_err());
    assert!(SensorFactory::create("").is_err());
    assert!(SensorFactory::create("ImuSensor ").is_err());
    assert_eq!(SensorFactory::create("IMU_data").err().unwrap().kind, "IMU_data");
}

#[test]
fn raw_reading_is_zero_and_valid() {
    let mut sensor = Sensor::new_at(SensorKind::Range, at(100, 1));
    let raw = sensor.read_raw_at(at(200, 5));
    assert_eq!(raw.sensor_id, "Range_data");
    assert_eq!(raw.value, 0);
    assert_eq!(raw.timestamp, at(200, 5));
    assert!(raw.valid);
}

#[test]
fn timestamps_of_one_source_never_go_back() {
    let mut sensor = Sensor::new_at(SensorKind::Imu, at(100, 50));
    assert_eq!(sensor.read_raw_at(at(100, 49)).timestamp, at(100, 50));
    assert_eq!(sensor.read_raw_at(at(100, 60)).timestamp, at(100, 60));
    assert_eq!(sensor.read_raw_at(at(99, 999)).timestamp, at(100, 60));
    assert_eq!(sensor.update_at(at(100, 59)).timestamp, at(100, 60));
    assert_eq!(sensor.update_at(at(101, 0)).timestamp, at(101, 0));
}

#[test]
fn calibration_adds_one() {
    let sensor = Sensor::new_at(SensorKind::Imu, at(100, 1));
    let data = SensorData {
        sensor_id: String::from("other"),
        value: 2_500_000,
        timestamp: at(7, 7),
        valid: false,
    };
    let out = sensor.apply_calibration(data);
    assert_eq!(out.value, 3_500_000);
    assert_eq!(out.sensor_id, "other");
    assert_eq!(out.timestamp, at(7, 7));
    assert!(!out.valid);
}

#[test]
fn calibration_saturates() {
    let sensor = Sensor::new_at(SensorKind::Range, at(100, 1));
    let data =
        SensorData { sensor_id: String::from("x"), value: i64::MAX - 5, timestamp: at(7, 7), valid: true };
    assert_eq!(sensor.apply_calibration(data).value, i64::MAX);
    let low =
        SensorData { sensor_id: String::from("x"), value: i64::MIN, timestamp: at(7, 7), valid: true };
    assert_eq!(sensor.apply_calibration(low).value, i64::MIN + UNITS_PER_ONE);
}

#[test]
fn update_is_a_calibrated_raw_reading() {
    let mut imu = Sensor::new_at(SensorKind::Imu, at(100, 1));
    let out = imu.update_at(at(300, 9));
    assert_eq!(out.sensor_id, "IMU_data");
    assert_eq!(out.value, UNITS_PER_ONE);
    assert_eq!(out.value as f64 / UNITS_PER_ONE as f64, 1.0);
    assert_eq!(out.timestamp, at(300, 9));
    assert!(out.valid);
    let again = imu.update_at(at(301, 0));
    assert_eq!(again.value, UNITS_PER_ONE);
}

#[test]
fn update_reads_the_wall_clock() {
    let mut sensor = SensorFactory::create("RangeSensor").unwrap();
    let first = sensor.update();
    let second = sensor.update();
    assert_eq!(first.sensor_id, "Range_data");
    assert_eq!(first.value, UNITS_PER_ONE);
    assert!(first.valid);
    assert!(first.timestamp.secs > 1_500_000_000);
    assert!(first.timestamp.nanos < 1_000_000_000);
    assert!(second.timestamp.is_at_or_after(&first.timestamp));
}

#[test]
fn wall_clock_agrees_with_chrono() {
    let before = chrono::Utc::now();
    let mut sensor = Sensor::new(SensorKind::Imu);
    let raw = sensor.read_raw();
    let after = chrono::Utc::now();
    let taken = chrono::DateTime::from_timestamp(raw.timestamp.secs, raw.timestamp.nanos).unwrap();
    assert!(before <= taken);
    assert!(taken <= after);
}
