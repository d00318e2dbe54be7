//! Readings and the sources that produce them.
use crate::clock::{wall_clock, Timestamp};
use crate::fixed::{saturate, saturating_sum, UNITS_PER_ONE};
use vstd::prelude::*;
use vstd::string::*;

verus! {

/// One timestamped sample as it travels through a pipeline.
///
/// `value` is a fixed-point number in millionths (see `fixed`).
#[derive(Debug, Clone)]
pub struct SensorData {
    pub sensor_id: String,
    pub value: i64,
    pub timestamp: Timestamp,
    pub valid: bool,
}

/// The mathematical content of a `SensorData`.
pub struct Reading {
    pub source_id: Seq<char>,
    pub value: int,
    pub timestamp: Timestamp,
    pub valid: bool,
}

impl View for SensorData {
    type V = Reading;

    open spec fn view(&self) -> Reading {
        Reading {
            source_id: self.sensor_id@,
            value: self.value as int,
            timestamp: self.timestamp,
            valid: self.valid,
        }
    }
}

/// The kinds of source that the factory knows.
#[derive(Clone, Copy, Debug, PartialEq, Eq, Structural)]
pub enum SensorKind {
    Imu,
    Range,
}

impl SensorKind {
    /// The identifier that a source of this kind puts on its readings.
    pub open spec fn source_id(self) -> Seq<char> {
        match self {
            SensorKind::Imu => "IMU_data"@,
            SensorKind::Range => "Range_data"@,
        }
    }

    /// What calibration adds to a raw value of a source of this kind.
    pub open spec fn offset(self) -> int {
        UNITS_PER_ONE as int
    }

    /// The reading that a source of this kind takes when the clock shows
    /// `now`, before calibration.
    pub open spec fn raw_reading(self, now: Timestamp) -> Reading {
        Reading { source_id: self.source_id(), value: 0, timestamp: now, valid: true }
    }

    /// What calibration makes of a reading from a source of this kind: the
    /// offset is added to the value, and nothing else changes.
    pub open spec fn calibrated(self, raw: Reading) -> Reading {
        Reading { value: saturate(raw.value + self.offset()), ..raw }
    }

    fn id(self) -> (s: String)
        ensures
            s@ == self.source_id(),
    {
        match self {
            SensorKind::Imu => "IMU_data".to_owned(),
            SensorKind::Range => "Range_data".to_owned(),
        }
    }
}

/// A source of readings. It remembers the latest raw reading it took.
pub struct Sensor {
    kind: SensorKind,
    data: SensorData,
}

impl Sensor {
    /// The kind of this source.
    pub closed spec fn kind(&self) -> SensorKind {
        self.kind
    }

    /// The latest raw reading of this source.
    pub closed spec fn latest(&self) -> Reading {
        self.data@
    }

    /// A source of the given kind that took its first raw reading at `now`.
    pub fn new_at(kind: SensorKind, now: Timestamp) -> (s: Sensor)
        ensures
            s.kind() == kind,
            s.latest() == kind.raw_reading(now),
    {
        Sensor {
            kind,
            data: SensorData { sensor_id: kind.id(), value: 0, timestamp: now, valid: true },
        }
    }

    /// A source of the given kind that takes its first raw reading now, at
    /// whatever time the wall clock shows.
    pub fn new(kind: SensorKind) -> (s: Sensor)
        ensures
            s.kind() == kind,
            s.latest() == kind.raw_reading(s.latest().timestamp),
    {
        Sensor::new_at(kind, wall_clock())
    }

    /// Takes a raw reading with the clock showing `now`.
    ///
    /// The timestamps of one source never go back: where `now` lies before
    /// the latest reading, the new reading repeats that reading's timestamp.
    pub fn read_raw_at(&mut self, now: Timestamp) -> (out: SensorData)
        ensures
            out@ == old(self).kind().raw_reading(old(self).latest().timestamp.later(now)),
            final(self).kind() == old(self).kind(),
            final(self).latest() == out@,
    {
        let at: Timestamp = self.data.timestamp.later_of(now);
        self.data = SensorData { sensor_id: self.kind.id(), value: 0, timestamp: at, valid: true };
        SensorData { sensor_id: self.kind.id(), value: 0, timestamp: at, valid: true }
    }

    /// Takes a raw reading now, at whatever time the wall clock shows, but
    /// never with a timestamp before that of the latest reading.
    pub fn read_raw(&mut self) -> (out: SensorData)
        ensures
            out@ == old(self).kind().raw_reading(out.timestamp),
            out.timestamp.at_or_after(old(self).latest().timestamp),
            final(self).kind() == old(self).kind(),
            final(self).latest() == out@,
    {
        self.read_raw_at(wall_clock())
    }

    /// Adds this source's offset to the value of `data`.
    pub fn apply_calibration(&self, data: SensorData) -> (out: SensorData)
        ensures
            out@ == self.kind().calibrated(data@),
    {
        let mut temp = data;
        temp.value = saturating_sum(temp.value, UNITS_PER_ONE);
        temp
    }

    /// Takes a raw reading with the clock showing `now` and calibrates it.
    pub fn update_at(&mut self, now: Timestamp) -> (out: SensorData)
        ensures
            out@ == old(self).kind().calibrated(
                old(self).kind().raw_reading(old(self).latest().timestamp.later(now)),
            ),
            final(self).kind() == old(self).kind(),
            final(self).latest() == old(self).kind().raw_reading(out.timestamp),
    {
        let update = self.read_raw_at(now);
        self.apply_calibration(update)
    }

    /// Takes a raw reading now and calibrates it.
    pub fn update(&mut self) -> (out: SensorData)
        ensures
            out@ == old(self).kind().calibrated(old(self).kind().raw_reading(out.timestamp)),
            out.timestamp.at_or_after(old(self).latest().timestamp),
            final(self).kind() == old(self).kind(),
            final(self).latest() == old(self).kind().raw_reading(out.timestamp),
    {
        let update = self.read_raw();
        self.apply_calibration(update)
    }
}

/// The error of asking the factory for a kind of source that it does not know.
#[derive(Debug)]
pub struct UnknownKindError {
    /// The tag that was asked for.
    pub kind: String,
}

/// Makes sources from the tags `"ImuSensor"` and `"RangeSensor"`.
pub struct SensorFactory {}

impl SensorFactory {
    /// The kind of source that a tag stands for, if any.
    pub open spec fn kind_of(tag: Seq<char>) -> Option<SensorKind> {
        if tag == "ImuSensor"@ {
            Some(SensorKind::Imu)
        } else if tag == "RangeSensor"@ {
            Some(SensorKind::Range)
        } else {
            None
        }
    }

    /// Makes the source that the tag `t` stands for, with a first raw reading
    /// taken at `now`; an unknown tag comes back in the error.
    pub fn create_at(t: &str, now: Timestamp) -> (r: Result<Sensor, UnknownKindError>)
        ensures
            match Self::kind_of(t@) {
                Some(kind) => r is Ok && r->Ok_0.kind() == kind && r->Ok_0.latest()
                    == kind.raw_reading(now),
                None => r is Err && r->Err_0.kind@ == t@,
            },
    {
        let tag: String = t.to_owned();
        if tag == "ImuSensor".to_owned() {
            Ok(Sensor::new_at(SensorKind::Imu, now))
        } else if tag == "RangeSensor".to_owned() {
            Ok(Sensor::new_at(SensorKind::Range, now))
        } else {
            Err(UnknownKindError { kind: tag })
        }
    }

    /// Makes the source that the tag `t` stands for, with a first raw reading
    /// taken now; an unknown tag comes back in the error.
    pub fn create(t: &str) -> (r: Result<Sensor, UnknownKindError>)
        ensures
            match Self::kind_of(t@) {
                Some(kind) => r is Ok && r->Ok_0.kind() == kind && r->Ok_0.latest()
                    == kind.raw_reading(r->Ok_0.latest().timestamp),
                None => r is Err && r->Err_0.kind@ == t@,
            },
    {
        Self::create_at(t, wall_clock())
    }
}

} // verus!
