use cloudy::engine::Cloudy;
use cloudy::keys::to_measurement_key;
use cloudy::types::MeasurementType;

#[test]
fn key_layout_is_id_then_kind_then_sequence() {
    let id = vec![1u8, 2, 3, 4, 5, 6, 7, 8];
    let key = to_measurement_key(&id, MeasurementType::Temperature, 2);
    assert_eq!(key.len(), 24);
    assert_eq!(&key[0..8], &[1u8, 2, 3, 4, 5, 6, 7, 8]);
    // Temperature carries code 1, big-endian.
    assert_eq!(&key[8..16], &[0u8, 0, 0, 0, 0, 0, 0, 1]);
    assert_eq!(&key[16..24], &[0u8, 0, 0, 0, 0, 0, 0, 2]);
}

#[test]
fn keys_are_injective_across_boundary_values() {
    let zero_id = vec![0u8; 8];
    let max_id = vec![0xffu8; 8];
    let keys = vec![
        to_measurement_key(&zero_id, MeasurementType::Temperature, 0),
        to_measurement_key(&zero_id, MeasurementType::Temperature, u64::MAX),
        to_measurement_key(&zero_id, MeasurementType::RSSI, 0),
        to_measurement_key(&max_id, MeasurementType::Temperature, 0),
        to_measurement_key(&max_id, MeasurementType::RSSI, u64::MAX),
        // A sequence number whose low bytes match another kind's code must
        // still give a distinct key.
        to_measurement_key(&zero_id, MeasurementType::Pressure, 1),
        to_measurement_key(&zero_id, MeasurementType::Temperature, 2),
    ];
    for i in 0..keys.len() {
        for j in 0..keys.len() {
            if i != j {
                assert_ne!(keys[i], keys[j]);
            }
        }
    }
}

#[test]
fn sensor_id_is_a_real_digest() {
    // SHA-256("abc") begins ba7816bf 8f01cfea; an identifier must be its
    // first 8 bytes, not the input handed back.
    let id = Cloudy::compute_sensor_id(&"abc".to_string(), &"".to_string());
    assert_eq!(id, vec![0xbau8, 0x78, 0x16, 0xbf, 0x8f, 0x01, 0xcf, 0xea]);
    // The address feeds the digest after the name: SHA-256("abc") again,
    // split differently across the two arguments.
    let id2 = Cloudy::compute_sensor_id(&"a".to_string(), &"bc".to_string());
    assert_eq!(id2, id);
    // SHA-256("") begins e3b0c442 98fc1c14.
    let empty = Cloudy::compute_sensor_id(&"".to_string(), &"".to_string());
    assert_eq!(empty, vec![0xe3u8, 0xb0, 0xc4, 0x42, 0x98, 0xfc, 0x1c, 0x14]);
}

#[test]
fn timestamp_floor_rounds_down_to_multiples() {
    assert_eq!(Cloudy::timestamp_floor(600, 1657541274), 1657540800);
    assert_eq!(Cloudy::timestamp_floor(600, 1657540800), 1657540800);
    assert_eq!(Cloudy::timestamp_floor(1, 12345), 12345);
    assert_eq!(Cloudy::timestamp_floor(14400, 1657541274), 1657540800);
    assert_eq!(Cloudy::timestamp_floor(7, 0), 0);
}
