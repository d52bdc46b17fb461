use cloudy::engine::Cloudy;
use cloudy::types::{ComputeType, MeasurementType, MeasurementValue, Request, Response, Sensor};

#[test]
fn test() {
    // Create an engine and the host context's caller address.
    let caller = String::from("oasis1qpg2xuz05zla9zsqayxq2dd2gwkn24wz0vq4dnlg");
    let mut ctx = Cloudy::new();

    // Instantiate the contract.
    ctx.instantiate(&caller, Request::Instantiate {}).expect("instantiation should work");

    // Register sensor.
    let my_sensor = Sensor {
        name: "esp2866_bedroom".to_string(),
        measurement_types: vec![MeasurementType::Temperature, MeasurementType::Humidity],
        storage_granularity: 10 * 60, // 10 minutes
        query_granularity: 3600 * 4,  // 4 hours
    };
    let rsp = ctx
        .call(
            &caller,
            Request::RegisterSensor {
                sensor: my_sensor.clone(),
            },
        )
        .expect("RegisterSensor call should work");

    let sensor_id = match rsp {
        Response::RegisterSensor { sensor_id } => sensor_id,
        _ => panic!("calling with Request::RegisterSensor does not return Response::ReigsterSensor"),
    };

    // Make sure sensor_id is correct.
    assert_ne!(sensor_id, vec![0u8, 0, 0, 0, 0, 0, 0, 0]);

    // Check, if sensor was registered and get some non-existent sensor name.
    let rsp = ctx
        .call(
            &caller,
            Request::GetSensorsByName {
                sensor_names: vec![
                    "esp2866_bedroom".to_string(),
                    "some-non-existent sensor".to_string(),
                ],
            },
        )
        .expect("GetSensorsByName should work");

    // Make sure list of sensors is correct.
    assert_eq!(
        rsp,
        Response::GetSensorsByName {
            sensors: vec![(sensor_id.clone(), my_sensor)],
        }
    );

    // Send some measurements.
    let req = Request::SubmitMeasurements {
        sensor_id: sensor_id.clone(),
        measurements: vec![(
            MeasurementType::Temperature,
            vec![
                MeasurementValue {
                    timestamp: 1657541274,
                    value: 2350,
                },
                MeasurementValue {
                    timestamp: 1657541284,
                    value: 2360,
                },
                MeasurementValue {
                    timestamp: 1657541294,
                    value: 2340,
                },
            ],
        )],
    };
    ctx.call(&caller, req).expect("SubmitMeasurements should work");

    // Query for maximum temperature.
    let rsp = ctx
        .query(Request::Query {
            sensor_id: sensor_id.clone(),
            measurement_type: MeasurementType::Temperature,
            compute_type: ComputeType::Max,
            start: 1657540000,
            end: 1657550000,
        })
        .expect("Query for maximum should work");
    assert_eq!(rsp, Response::Query { value: 2360 });

    // Query for minimum temperature.
    let rsp = ctx
        .query(Request::Query {
            sensor_id: sensor_id.clone(),
            measurement_type: MeasurementType::Temperature,
            compute_type: ComputeType::Min,
            start: 1657540000,
            end: 1657550000,
        })
        .expect("Query for minimum should work");
    assert_eq!(rsp, Response::Query { value: 2340 });

    // Query for average temperature.
    let rsp = ctx
        .query(Request::Query {
            sensor_id: sensor_id,
            measurement_type: MeasurementType::Temperature,
            compute_type: ComputeType::Avg,
            start: 1657540000,
            end: 1657550000,
        })
        .expect("Query for average should work");
    assert_eq!(rsp, Response::Query { value: 2350 });
}
