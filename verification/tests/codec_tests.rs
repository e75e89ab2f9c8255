use consumption_producer::codec::{deserialize, partition_key, serialize};
use consumption_producer::message::{Message, MilliwattHours};

#[test]
fn serialize_produces_exact_json() {
    let m = Message::new(1234, MilliwattHours(3250), 42);
    let bytes = serialize(&m);
    assert_eq!(bytes, b"{\"customer_id\":1234,\"consumption\":3.250,\"timestamp\":42}".to_vec());
}

#[test]
fn serialize_pads_fractional_digits() {
    let m = Message::new(1000, MilliwattHours(7), 0);
    let bytes = serialize(&m);
    assert_eq!(bytes, b"{\"customer_id\":1000,\"consumption\":0.007,\"timestamp\":0}".to_vec());
}

#[test]
fn round_trip_returns_equal_fields() {
    let m = Message::new(1234, MilliwattHours(3250), 1_700_000_000_000);
    let back = deserialize(&serialize(&m)).expect("round trip must succeed");
    assert_eq!(back.customer_id(), 1234);
    assert_eq!(back.consumption(), MilliwattHours(3250));
    assert_eq!(back.timestamp(), 1_700_000_000_000);
}

#[test]
fn round_trip_at_extremes() {
    let cases = [
        Message::new(0, MilliwattHours(0), 0),
        Message::new(u32::MAX, MilliwattHours(u32::MAX), u128::MAX),
        Message::new(1000, MilliwattHours(9999), 1),
        Message::new(9999, MilliwattHours(999), u128::MAX - 1),
    ];
    for m in cases {
        let back = deserialize(&serialize(&m)).expect("round trip must succeed");
        assert_eq!(back, m);
    }
}

#[test]
fn output_is_json_a_generic_parser_accepts() {
    let m = Message::new(1234, MilliwattHours(3250), 42);
    let bytes = serialize(&m);
    let v: serde_json::Value = serde_json::from_slice(&bytes).expect("valid JSON");
    assert_eq!(v["customer_id"].as_u64(), Some(1234));
    assert_eq!(v["timestamp"].as_u64(), Some(42));
    let consumption = v["consumption"].as_f64().expect("a number");
    assert!((consumption - 3.25).abs() < 1e-9);
}

#[test]
fn deserialize_rejects_malformed_input() {
    assert_eq!(deserialize(&b"".to_vec()), None);
    assert_eq!(deserialize(&b"{}".to_vec()), None);
    assert_eq!(deserialize(&b"{\"customer_id\":,\"consumption\":1.000,\"timestamp\":2}".to_vec()), None);
    // two fractional digits instead of three
    assert_eq!(deserialize(&b"{\"customer_id\":1,\"consumption\":1.25,\"timestamp\":2}".to_vec()), None);
    // trailing garbage
    assert_eq!(deserialize(&b"{\"customer_id\":1,\"consumption\":1.250,\"timestamp\":2}x".to_vec()), None);
    // missing closing brace
    assert_eq!(deserialize(&b"{\"customer_id\":1,\"consumption\":1.250,\"timestamp\":2".to_vec()), None);
}

#[test]
fn deserialize_rejects_out_of_range_fields() {
    // customer_id above u32::MAX
    assert_eq!(
        deserialize(&b"{\"customer_id\":4294967296,\"consumption\":1.250,\"timestamp\":2}".to_vec()),
        None
    );
    // consumption above u32::MAX microwatt-hours
    assert_eq!(
        deserialize(&b"{\"customer_id\":1,\"consumption\":4294968.000,\"timestamp\":2}".to_vec()),
        None
    );
    // timestamp above u128::MAX
    assert_eq!(
        deserialize(
            &b"{\"customer_id\":1,\"consumption\":1.250,\"timestamp\":340282366920938463463374607431768211456}"
                .to_vec()
        ),
        None
    );
}

#[test]
fn deserialize_accepts_the_codec_form_only() {
    // reordered fields are rejected: the codec writes one fixed shape
    assert_eq!(
        deserialize(&b"{\"consumption\":1.250,\"customer_id\":1,\"timestamp\":2}".to_vec()),
        None
    );
    let ok = deserialize(&b"{\"customer_id\":7,\"consumption\":0.001,\"timestamp\":9}".to_vec());
    assert_eq!(ok, Some(Message::new(7, MilliwattHours(1), 9)));
}

#[test]
fn partition_key_is_customer_id_digits() {
    let m = Message::new(1234, MilliwattHours(0), 0);
    assert_eq!(partition_key(&m), b"1234".to_vec());
    let m0 = Message::new(0, MilliwattHours(0), 0);
    assert_eq!(partition_key(&m0), b"0".to_vec());
}
