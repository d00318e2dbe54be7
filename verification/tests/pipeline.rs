use sensor_pipeline::clock::Timestamp;
use sensor_pipeline::fixed::UNITS_PER_ONE;
use sensor_pipeline::process::{
    LowPassFilter, Processor, ProcessorPipeline, Stage, ThresholdValidator,
};
use sensor_pipeline::sensor::SensorData;

fn sample(value: i64) -> SensorData {
    SensorData {
        sensor_id: String::from("probe"),
        value,
        timestamp: Timestamp { secs: 1_700_000_000, nanos: 250 },
        valid: true,
    }
}

fn filter_then_gate() -> ProcessorPipeline<Stage> {
    let mut pipeline = ProcessorPipeline::new();
    pipeline.add_processor(Stage::LowPass(LowPassFilter::new(100_000)));
    pipeline.add_processor(Stage::Threshold(ThresholdValidator::new(
        -100 * UNITS_PER_ONE,
        100 * UNITS_PER_ONE,
    )));
    pipeline
}

#[test]
fn empty_pipeline_returns_the_reading_as_given() {
    let mut pipeline: ProcessorPipeline<Stage> = ProcessorPipeline::new();
    let mut data = sample(42);
    data.valid = false;
    let out = pipeline.run(data);
    assert_eq!(out.sensor_id, "probe");
    assert_eq!(out.value, 42);
    assert_eq!(out.timestamp, Timestamp { secs: 1_700_000_000, nanos: 250 });
    assert!(!out.valid);
}

#[test]
fn default_pipeline_has_no_stages() {
    let mut pipeline: ProcessorPipeline<LowPassFilter> = ProcessorPipeline::default();
    assert_eq!(pipeline.run(sample(-5)).value, -5);
    assert_eq!(pipeline.run(sample(9)).value, 9);
}

#[test]
fn filter_then_gate_on_one_reading() {
    let mut pipeline = filter_then_gate();
    let out = pipeline.run(sample(50 * UNITS_PER_ONE));
    assert_eq!(out.value, 5_000_000);
    assert_eq!(out.value as f64 / UNITS_PER_ONE as f64, 5.0);
    assert!(out.valid);
}

#[test]
fn pipeline_keeps_state_between_runs() {
    let mut pipeline = filter_then_gate();
    let first = pipeline.run(sample(50 * UNITS_PER_ONE));
    let second = pipeline.run(sample(50 * UNITS_PER_ONE));
    assert_eq!(first.value, 5_000_000);
    assert_eq!(second.value, 9_500_000);
    assert_eq!(second.value as f64 / UNITS_PER_ONE as f64, 9.5);
    assert_ne!(first.value, second.value);
    assert!(second.valid);
}

#[test]
fn pipeline_of_two_is_second_after_first() {
    let mut pipeline = filter_then_gate();
    let mut first = LowPassFilter::new(100_000);
    let mut second = ThresholdValidator::new(-100 * UNITS_PER_ONE, 100 * UNITS_PER_ONE);
    for value in [50 * UNITS_PER_ONE, 5_000 * UNITS_PER_ONE, -3, 20_000 * UNITS_PER_ONE] {
        let chained = pipeline.run(sample(value));
        let by_hand = second.process(first.process(sample(value)));
        assert_eq!(chained.value, by_hand.value);
        assert_eq!(chained.valid, by_hand.valid);
        assert_eq!(chained.sensor_id, by_hand.sensor_id);
        assert_eq!(chained.timestamp, by_hand.timestamp);
    }
}

#[test]
fn stages_run_in_the_order_they_were_added() {
    let mut filter_first = filter_then_gate();
    let mut gate_first = ProcessorPipeline::new();
    gate_first.add_processor(Stage::Threshold(ThresholdValidator::new(
        -100 * UNITS_PER_ONE,
        100 * UNITS_PER_ONE,
    )));
    gate_first.add_processor(Stage::LowPass(LowPassFilter::new(100_000)));
    let smoothed_then_checked = filter_first.run(sample(500 * UNITS_PER_ONE));
    let checked_then_smoothed = gate_first.run(sample(500 * UNITS_PER_ONE));
    assert_eq!(smoothed_then_checked.value, 50 * UNITS_PER_ONE);
    assert!(smoothed_then_checked.valid);
    assert_eq!(checked_then_smoothed.value, 50 * UNITS_PER_ONE);
    assert!(!checked_then_smoothed.valid);
}

#[test]
fn the_same_stage_may_be_added_twice() {
    let mut pipeline = ProcessorPipeline::new();
    pipeline.add_processor(LowPassFilter::new(500_000));
    pipeline.add_processor(LowPassFilter::new(500_000));
    assert_eq!(pipeline.run(sample(8 * UNITS_PER_ONE)).value, 2 * UNITS_PER_ONE);
    assert_eq!(pipeline.run(sample(8 * UNITS_PER_ONE)).value, 4 * UNITS_PER_ONE);
}

#[test]
fn later_gate_overrules_earlier_gate() {
    let mut pipeline = ProcessorPipeline::new();
    pipeline.add_processor(ThresholdValidator::new(0, 10));
    pipeline.add_processor(ThresholdValidator::new(0, 100));
    assert!(pipeline.run(sample(50)).valid);
    assert!(!pipeline.run(sample(500)).valid);
}

#[test]
fn a_stage_added_later_joins_behind() {
    let mut pipeline = ProcessorPipeline::new();
    pipeline.add_processor(Stage::LowPass(LowPassFilter::new(100_000)));
    let alone = pipeline.run(sample(5_000 * UNITS_PER_ONE));
    assert_eq!(alone.value, 500 * UNITS_PER_ONE);
    assert!(alone.valid);
    pipeline.add_processor(Stage::Threshold(ThresholdValidator::new(0, 100 * UNITS_PER_ONE)));
    let gated = pipeline.run(sample(5_000 * UNITS_PER_ONE));
    assert_eq!(gated.value, 950 * UNITS_PER_ONE);
    assert!(!gated.valid);
}
