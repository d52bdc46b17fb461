//! The data model: measurement kinds, aggregation kinds, measurements,
//! sensor configurations, errors, and the request/response surface.

use vstd::prelude::*;

verus! {

/// The kinds of measurements a sensor can report.
#[derive(Clone, Copy, Debug, PartialEq, Eq, Structural)]
pub enum MeasurementType {
    Temperature,
    Pressure,
    Humidity,
    CO2,
    Illuminance,
    RSSI,
}

impl MeasurementType {
    /// The numeric code of this kind, as packed into bucket keys.
    pub open spec fn spec_code(self) -> u64 {
        match self {
            MeasurementType::Temperature => 1,
            MeasurementType::Pressure => 2,
            MeasurementType::Humidity => 3,
            MeasurementType::CO2 => 4,
            MeasurementType::Illuminance => 5,
            MeasurementType::RSSI => 6,
        }
    }

    /// Executable form of `spec_code`.
    pub fn code(self) -> (c: u64)
        ensures
            c == self.spec_code(),
    {
        match self {
            MeasurementType::Temperature => 1,
            MeasurementType::Pressure => 2,
            MeasurementType::Humidity => 3,
            MeasurementType::CO2 => 4,
            MeasurementType::Illuminance => 5,
            MeasurementType::RSSI => 6,
        }
    }

    /// Distinct kinds carry distinct codes, so keys cannot collide on kind.
    pub proof fn lemma_code_injective(a: MeasurementType, b: MeasurementType)
        ensures
            a.spec_code() == b.spec_code() ==> a == b,
    {
    }
}

/// The kinds of aggregation a query can request.
#[derive(Clone, Copy, Debug, PartialEq, Eq, Structural)]
pub enum ComputeType {
    Max,
    Min,
    Avg,
}

/// A single measurement: a timestamp in seconds since the epoch and a
/// measurement-specific scalar value.
#[derive(Clone, Copy, Debug, PartialEq, Eq, Structural)]
pub struct MeasurementValue {
    /// Timestamp of the measurement.
    pub timestamp: u64,

    /// Measurement-specific value.
    pub value: i32,
}

/// A sensor's configuration, fixed at registration.
#[derive(Clone, Debug, PartialEq)]
pub struct Sensor {
    /// Sensor name, e.g. "esp8266_kitchen".
    pub name: String,

    /// The measurement kinds this sensor is permitted to submit.
    pub measurement_types: Vec<MeasurementType>,

    /// Bucket width in seconds: measurements are grouped into buckets of
    /// this duration to reduce the number of store writes.
    pub storage_granularity: u64,

    /// Minimum alignment width in seconds for query windows.  Must be a
    /// multiple of `storage_granularity`.
    pub query_granularity: u64,
}

/// The mathematical content of a `Sensor`: what its fields denote.
pub struct SensorView {
    pub name: Seq<char>,
    pub measurement_types: Seq<MeasurementType>,
    pub storage_granularity: u64,
    pub query_granularity: u64,
}

impl SensorView {
    /// A well-formed configuration: positive granularities, with the query
    /// granularity a multiple of the storage granularity.
    pub open spec fn valid(self) -> bool {
        &&& self.storage_granularity >= 1
        &&& self.query_granularity >= 1
        &&& self.query_granularity % self.storage_granularity == 0
    }
}

impl View for Sensor {
    type V = SensorView;

    open spec fn view(&self) -> SensorView {
        SensorView {
            name: self.name@,
            measurement_types: self.measurement_types@,
            storage_granularity: self.storage_granularity,
            query_granularity: self.query_granularity,
        }
    }
}

impl Sensor {
    /// A well-formed configuration; see `SensorView::valid`.
    pub open spec fn valid(&self) -> bool {
        self@.valid()
    }

    /// An exact copy of this configuration.
    pub fn duplicate(&self) -> (s: Sensor)
        ensures
            s@ == self@,
    {
        let mut kinds: Vec<MeasurementType> = Vec::new();
        let mut i: usize = 0;
        while i < self.measurement_types.len()
            invariant
                i <= self.measurement_types.len(),
                kinds@ == self.measurement_types@.take(i as int),
            decreases self.measurement_types.len() - i,
        {
            kinds.push(self.measurement_types[i]);
            assert(kinds@ =~= self.measurement_types@.take(i + 1));
            i += 1;
        }
        assert(kinds@ =~= self.measurement_types@);
        Sensor {
            name: self.name.clone(),
            measurement_types: kinds,
            storage_granularity: self.storage_granularity,
            query_granularity: self.query_granularity,
        }
    }

    /// Whether this sensor is permitted to submit measurements of kind `t`.
    pub fn permits(&self, t: MeasurementType) -> (r: bool)
        ensures
            r == self.measurement_types@.contains(t),
    {
        let mut i: usize = 0;
        while i < self.measurement_types.len()
            invariant
                i <= self.measurement_types.len(),
                forall|j: int| 0 <= j < i ==> self.measurement_types@[j] != t,
            decreases self.measurement_types.len() - i,
        {
            if self.measurement_types[i] == t {
                return true;
            }
            i += 1;
        }
        false
    }
}

/// The failures an operation can report.
#[derive(Clone, Copy, Debug, PartialEq, Eq, Structural)]
pub enum Error {
    /// Malformed input, or a measurement kind the sensor is not permitted
    /// to submit.
    BadRequest,

    /// The caller is not authorized for the operation.
    Forbidden,

    /// The sensor identifier is not registered.
    UnknownSensorID,
}

/// The operations the engine accepts.
#[derive(Clone, Debug)]
pub enum Request {
    /// Record the caller as the owner of the engine.
    Instantiate {},

    /// Register a sensor for the caller; the reply carries its identifier.
    RegisterSensor { sensor: Sensor },

    /// Look up sensors of the caller by name.
    GetSensorsByName { sensor_names: Vec<String> },

    /// Submit batches of measurements, one batch per measurement kind, each
    /// batch sorted ascending by timestamp.
    SubmitMeasurements {
        sensor_id: Vec<u8>,
        measurements: Vec<(MeasurementType, Vec<MeasurementValue>)>,
    },

    /// Aggregate one sensor's measurements of one kind over a time window.
    Query {
        sensor_id: Vec<u8>,
        measurement_type: MeasurementType,
        compute_type: ComputeType,
        start: u64,
        end: u64,
    },
}

/// The replies to `Request`.
#[derive(Clone, Debug, PartialEq)]
pub enum Response {
    RegisterSensor { sensor_id: Vec<u8> },

    GetSensorsByName { sensors: Vec<(Vec<u8>, Sensor)> },

    Query { value: i32 },

    Empty,
}

} // verus!
