use consumption_producer::message::{
    Message, MilliwattHours, CONSUMPTION_LIMIT, CUSTOMER_ID_MAX, CUSTOMER_ID_MIN,
};

#[test]
fn constructor_and_getters_agree() {
    let m = Message::new(4321, MilliwattHours(500), 77);
    assert_eq!(m.customer_id(), 4321);
    assert_eq!(m.consumption(), MilliwattHours(500));
    assert_eq!(m.timestamp(), 77);
}

#[test]
fn generated_events_are_in_range() {
    let mut rng = rand::rng();
    for _ in 0..200 {
        let m = Message::with_rng(&mut rng).expect("clock is past the epoch");
        assert!(CUSTOMER_ID_MIN <= m.customer_id() && m.customer_id() <= CUSTOMER_ID_MAX);
        assert!(m.consumption().0 < CONSUMPTION_LIMIT);
    }
}

#[test]
fn generated_timestamps_are_non_decreasing() {
    let mut rng = rand::rng();
    let mut last: u128 = 0;
    for _ in 0..50 {
        let m = Message::with_rng(&mut rng).expect("clock is past the epoch");
        assert!(m.timestamp() >= last);
        last = m.timestamp();
    }
}

#[test]
fn clock_readings_order_timestamps() {
    let a = Message::from_clock_reading(1000, MilliwattHours(1), Some(10)).unwrap();
    let b = Message::from_clock_reading(2000, MilliwattHours(2), Some(10)).unwrap();
    let c = Message::from_clock_reading(3000, MilliwattHours(3), Some(25)).unwrap();
    assert!(a.timestamp() <= b.timestamp());
    assert!(b.timestamp() <= c.timestamp());
}

#[test]
fn pre_epoch_clock_produces_no_event() {
    let r = Message::from_clock_reading(1234, MilliwattHours(1), None);
    assert_eq!(r, None);
}
