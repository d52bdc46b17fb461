use cloudy::engine::Cloudy;
use cloudy::types::{ComputeType, Error, MeasurementType, MeasurementValue, Request, Response, Sensor};

fn setup(storage_granularity: u64, query_granularity: u64) -> (Cloudy, String, Vec<u8>) {
    let caller = String::from("test-owner-address");
    let mut engine = Cloudy::new();
    engine
        .instantiate(&caller, Request::Instantiate {})
        .expect("instantiation should work");
    let sensor = Sensor {
        name: "garden_probe".to_string(),
        measurement_types: vec![MeasurementType::Temperature, MeasurementType::Humidity],
        storage_granularity,
        query_granularity,
    };
    let id = engine
        .register_sensor(&caller, sensor)
        .expect("registration should work");
    (engine, caller, id)
}

fn submit(engine: &mut Cloudy, id: &Vec<u8>, kind: MeasurementType, points: &[(u64, i32)]) {
    let batch: Vec<MeasurementValue> = points
        .iter()
        .map(|&(timestamp, value)| MeasurementValue { timestamp, value })
        .collect();
    engine
        .submit_measurements(id, vec![(kind, batch)])
        .expect("submission should work");
}

fn query(engine: &Cloudy, id: &Vec<u8>, kind: MeasurementType, ct: ComputeType, start: u64, end: u64) -> i32 {
    engine.compute(id, kind, ct, start, end)
}

#[test]
fn avg_over_empty_window_is_zero() {
    let (engine, _caller, id) = setup(600, 600);
    // No data at all: the average must be exactly 0, with no division fault.
    assert_eq!(query(&engine, &id, MeasurementType::Temperature, ComputeType::Avg, 1000, 2000), 0);
}

#[test]
fn window_before_any_data_exposes_sentinels() {
    let (mut engine, _caller, id) = setup(600, 600);
    submit(&mut engine, &id, MeasurementType::Temperature, &[(1_000_000, 42)]);
    // A window entirely before the submitted data scans only empty buckets.
    let t = MeasurementType::Temperature;
    assert_eq!(query(&engine, &id, t, ComputeType::Max, 1000, 2000), i32::MIN);
    assert_eq!(query(&engine, &id, t, ComputeType::Min, 1000, 2000), i32::MAX);
    assert_eq!(query(&engine, &id, t, ComputeType::Avg, 1000, 2000), 0);
}

#[test]
fn submit_to_unknown_sensor_leaves_buckets_unchanged() {
    let (mut engine, _caller, id) = setup(600, 600);
    let bogus_id = vec![9u8, 9, 9, 9, 9, 9, 9, 9];
    assert_ne!(bogus_id, id);
    let r = engine.submit_measurements(
        &bogus_id,
        vec![(
            MeasurementType::Temperature,
            vec![MeasurementValue { timestamp: 1200, value: 7 }],
        )],
    );
    assert_eq!(r, Err(Error::UnknownSensorID));
    // A subsequent query over the attempted window shows no new data.
    let t = MeasurementType::Temperature;
    assert_eq!(query(&engine, &id, t, ComputeType::Max, 1000, 2000), i32::MIN);
    assert_eq!(query(&engine, &id, t, ComputeType::Avg, 1000, 2000), 0);
}

#[test]
fn fresh_window_round_trip_matches_direct_aggregates() {
    let (mut engine, _caller, id) = setup(600, 600);
    // Three measurements spread over three distinct buckets (600s wide).
    let t = MeasurementType::Temperature;
    submit(&mut engine, &id, t, &[(1000, 5), (1700, -3), (2400, 12)]);
    assert_eq!(query(&engine, &id, t, ComputeType::Max, 1000, 2400), 12);
    assert_eq!(query(&engine, &id, t, ComputeType::Min, 1000, 2400), -3);
    // Sum 14 over 3 samples, truncated: 4.
    assert_eq!(query(&engine, &id, t, ComputeType::Avg, 1000, 2400), 4);
}

#[test]
fn measurements_land_in_their_timestamp_bucket() {
    let (mut engine, _caller, id) = setup(600, 600);
    let t = MeasurementType::Temperature;
    // Bucket 1 holds [600, 1200), bucket 2 holds [1200, 1800).
    submit(&mut engine, &id, t, &[(700, 10), (1300, 20)]);
    // A window on [0, 0] aligns to [0, 600) and scans bucket 0 only:
    // nothing there.
    assert_eq!(query(&engine, &id, t, ComputeType::Max, 0, 0), i32::MIN);
    // A window on [600, 600] aligns to [600, 1200) and scans bucket 1 only.
    assert_eq!(query(&engine, &id, t, ComputeType::Max, 600, 600), 10);
    // A window on [1200, 1250] aligns to [1200, 1800) and scans bucket 2
    // only.
    assert_eq!(query(&engine, &id, t, ComputeType::Max, 1200, 1250), 20);
}

#[test]
fn repeated_submissions_append_in_order() {
    let (mut engine, _caller, id) = setup(600, 600);
    let t = MeasurementType::Humidity;
    submit(&mut engine, &id, t, &[(700, 1)]);
    submit(&mut engine, &id, t, &[(710, 2), (720, 3)]);
    assert_eq!(query(&engine, &id, t, ComputeType::Max, 600, 700), 3);
    assert_eq!(query(&engine, &id, t, ComputeType::Min, 600, 700), 1);
    assert_eq!(query(&engine, &id, t, ComputeType::Avg, 600, 700), 2);
}

#[test]
fn widening_a_window_only_adds_to_the_scan() {
    let (mut engine, _caller, id) = setup(600, 600);
    let t = MeasurementType::Temperature;
    submit(&mut engine, &id, t, &[(700, 10), (5000, 99)]);
    let narrow = query(&engine, &id, t, ComputeType::Max, 700, 800);
    let wide = query(&engine, &id, t, ComputeType::Max, 600, 5100);
    // Everything the narrow window sees, the wide window sees too.
    assert_eq!(narrow, 10);
    assert_eq!(wide, 99);
    assert!(wide >= narrow);
}

#[test]
fn average_truncates_toward_zero() {
    let (mut engine, _caller, id) = setup(600, 600);
    let t = MeasurementType::Temperature;
    submit(&mut engine, &id, t, &[(700, -3), (710, -4)]);
    // -7 / 2 truncates toward zero to -3 (not down to -4).
    assert_eq!(query(&engine, &id, t, ComputeType::Avg, 600, 1100), -3);
}

#[test]
fn empty_submission_succeeds_even_for_unknown_sensor() {
    let (mut engine, _caller, _id) = setup(600, 600);
    let bogus_id = vec![1u8, 2, 3, 4, 5, 6, 7, 8];
    assert_eq!(engine.submit_measurements(&bogus_id, vec![]), Ok(()));
}

#[test]
fn unpermitted_kind_is_rejected_and_writes_nothing() {
    let (mut engine, _caller, id) = setup(600, 600);
    // The registered sensor reports Temperature and Humidity, not CO2;
    // a submission naming CO2 anywhere must write no bucket at all.
    let r = engine.submit_measurements(
        &id,
        vec![
            (
                MeasurementType::Temperature,
                vec![MeasurementValue { timestamp: 700, value: 5 }],
            ),
            (
                MeasurementType::CO2,
                vec![MeasurementValue { timestamp: 700, value: 400 }],
            ),
        ],
    );
    assert_eq!(r, Err(Error::BadRequest));
    let t = MeasurementType::Temperature;
    assert_eq!(query(&engine, &id, t, ComputeType::Max, 600, 1100), i32::MIN);
}

#[test]
fn kinds_are_isolated_by_the_key_space() {
    let (mut engine, _caller, id) = setup(600, 600);
    submit(&mut engine, &id, MeasurementType::Humidity, &[(700, 55)]);
    // The humidity submission shares sensor and window with this query,
    // but a temperature scan must not see it.
    assert_eq!(
        query(&engine, &id, MeasurementType::Temperature, ComputeType::Max, 600, 1100),
        i32::MIN
    );
    assert_eq!(
        query(&engine, &id, MeasurementType::Humidity, ComputeType::Max, 600, 1100),
        55
    );
}

#[test]
fn one_call_may_touch_several_kinds() {
    let (mut engine, caller, id) = setup(600, 600);
    let rsp = engine
        .call(
            &caller,
            Request::SubmitMeasurements {
                sensor_id: id.clone(),
                measurements: vec![
                    (
                        MeasurementType::Temperature,
                        vec![MeasurementValue { timestamp: 700, value: 21 }],
                    ),
                    (
                        MeasurementType::Humidity,
                        vec![MeasurementValue { timestamp: 700, value: 60 }],
                    ),
                ],
            },
        )
        .expect("SubmitMeasurements should work");
    assert_eq!(rsp, Response::Empty);
    assert_eq!(query(&engine, &id, MeasurementType::Temperature, ComputeType::Max, 600, 1100), 21);
    assert_eq!(query(&engine, &id, MeasurementType::Humidity, ComputeType::Max, 600, 1100), 60);
}

#[test]
fn registration_is_guarded() {
    let caller = String::from("the-owner");
    let stranger = String::from("not-the-owner");
    let sensor = Sensor {
        name: "s".to_string(),
        measurement_types: vec![MeasurementType::Pressure],
        storage_granularity: 60,
        query_granularity: 120,
    };

    // Before instantiation there is no owner: the request is malformed.
    let mut engine = Cloudy::new();
    assert_eq!(engine.register_sensor(&caller, sensor.clone()), Err(Error::BadRequest));

    engine
        .instantiate(&caller, Request::Instantiate {})
        .expect("instantiation should work");

    // Only the owner may register.
    assert_eq!(engine.register_sensor(&stranger, sensor.clone()), Err(Error::Forbidden));

    // A query granularity that is no multiple of the storage granularity
    // is a malformed configuration.
    let skewed = Sensor {
        name: "s".to_string(),
        measurement_types: vec![MeasurementType::Pressure],
        storage_granularity: 60,
        query_granularity: 90,
    };
    assert_eq!(engine.register_sensor(&caller, skewed), Err(Error::BadRequest));

    // The owner with a sound configuration succeeds.
    assert!(engine.register_sensor(&caller, sensor).is_ok());
}

#[test]
fn dispatchers_reject_misplaced_requests() {
    let caller = String::from("the-owner");
    let mut engine = Cloudy::new();
    // `instantiate` serves only Instantiate.
    let r = engine.instantiate(
        &caller,
        Request::GetSensorsByName { sensor_names: vec![] },
    );
    assert_eq!(r, Err(Error::BadRequest));
    engine
        .instantiate(&caller, Request::Instantiate {})
        .expect("instantiation should work");
    // `call` does not serve Instantiate.
    assert_eq!(engine.call(&caller, Request::Instantiate {}), Err(Error::BadRequest));
    // `query` serves only Query.
    assert_eq!(engine.query(Request::Instantiate {}), Err(Error::BadRequest));
}

#[test]
fn lookup_skips_unknown_names_and_duplicates() {
    let (mut engine, caller, id) = setup(600, 600);
    let rsp = engine
        .call(
            &caller,
            Request::GetSensorsByName {
                sensor_names: vec![
                    "garden_probe".to_string(),
                    "garden_probe".to_string(),
                    "no_such_probe".to_string(),
                ],
            },
        )
        .expect("GetSensorsByName should work");
    match rsp {
        Response::GetSensorsByName { sensors } => {
            assert_eq!(sensors.len(), 1);
            assert_eq!(sensors[0].0, id);
            assert_eq!(sensors[0].1.name, "garden_probe");
        }
        _ => panic!("unexpected response variant"),
    }
}
