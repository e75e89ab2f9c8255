use consumption_producer::dispatch::{
    drain_announcement, level_of, observe_delivery, record_submission, DeliveryOutcome, LogEvent,
    LogLevel, SubmitOutcome,
};
use consumption_producer::tracker::DeliveryTracker;

#[test]
fn below_ceiling_drain_is_a_no_op() {
    let mut t = DeliveryTracker::new();
    t.register(1);
    t.register(2);
    let drained = t.maybe_drain(3);
    assert!(drained.is_empty());
    assert_eq!(t.len(), 2);
}

#[test]
fn full_drain_empties_the_tracker() {
    // ceiling = 3: register three handles, drain all three, then a
    // second drain on the empty tracker is a no-op.
    let mut t = DeliveryTracker::new();
    t.register(10);
    t.register(20);
    t.register(30);
    let drained = t.maybe_drain(3);
    assert_eq!(drained, vec![30, 20, 10]);
    assert!(t.is_empty());
    let again = t.maybe_drain(3);
    assert!(again.is_empty());
    assert!(t.is_empty());
}

#[test]
fn tracker_never_holds_more_than_ceiling() {
    // Drive many produce cycles; at the instant each drain decision
    // returns, strictly fewer than `ceiling` handles are outstanding,
    // and a triggered pass fires at exactly `ceiling`.
    let ceiling = 4;
    let mut t = DeliveryTracker::new();
    for h in 0..25u64 {
        t.register(h);
        let before = t.len();
        let drained = t.maybe_drain(ceiling);
        if !drained.is_empty() {
            assert_eq!(before, ceiling);
            assert_eq!(t.len(), 0);
        }
        assert!(t.len() < ceiling);
    }
}

#[test]
fn rejected_submission_changes_nothing() {
    // A submission error is logged and the loop proceeds: no handle is
    // registered and the next iteration still executes.
    let mut t = DeliveryTracker::new();
    t.register(1);
    let (drained, log) = record_submission(
        &mut t,
        SubmitOutcome::Rejected { err: String::from("queue full") },
        3,
    );
    assert!(drained.is_empty());
    assert_eq!(log, Some(LogEvent::SubmitFailed { err: String::from("queue full") }));
    assert_eq!(t.len(), 1);
    // the next iteration still registers work as usual
    let (drained2, log2) = record_submission(&mut t, SubmitOutcome::Queued { handle: 2 }, 3);
    assert!(drained2.is_empty());
    assert_eq!(log2, None);
    assert_eq!(t.len(), 2);
}

#[test]
fn queued_submission_at_ceiling_triggers_drain() {
    let mut t = DeliveryTracker::new();
    t.register(1);
    t.register(2);
    let (drained, log) = record_submission(&mut t, SubmitOutcome::Queued { handle: 3 }, 3);
    assert_eq!(drained, vec![3, 2, 1]);
    assert_eq!(log, None);
    assert!(t.is_empty());
}

#[test]
fn rejection_during_drain_does_not_abort_the_pass() {
    // One handle resolves to a broker rejection; the tracker logs it and
    // keeps handling the remaining outcomes of the same pass.
    let mut t = DeliveryTracker::new();
    t.register(1);
    t.register(2);
    t.register(3);
    let drained = t.maybe_drain(3);
    assert_eq!(drained.len(), 3);
    let outcomes = vec![
        DeliveryOutcome::Delivered { id: 7 },
        DeliveryOutcome::BrokerRejected { err: String::from("broker said no") },
        DeliveryOutcome::Delivered { id: 8 },
    ];
    let mut events = Vec::new();
    for out in outcomes {
        events.push(observe_delivery(out));
    }
    assert_eq!(events.len(), 3);
    assert_eq!(events[0], LogEvent::Produced { id: 7 });
    assert_eq!(events[1], LogEvent::BrokerError { err: String::from("broker said no") });
    assert_eq!(level_of(&events[1]), LogLevel::Error);
    assert_eq!(events[2], LogEvent::Produced { id: 8 });
}

#[test]
fn log_levels_follow_the_error_taxonomy() {
    assert_eq!(level_of(&LogEvent::Produced { id: 1 }), LogLevel::Info);
    assert_eq!(level_of(&LogEvent::DrainStarted), LogLevel::Info);
    assert_eq!(
        level_of(&LogEvent::ProducerCancelled { err: String::from("shutdown") }),
        LogLevel::Warn
    );
    assert_eq!(level_of(&LogEvent::BrokerError { err: String::from("nack") }), LogLevel::Error);
    assert_eq!(level_of(&LogEvent::SubmitFailed { err: String::from("full") }), LogLevel::Error);
}

#[test]
fn cancelled_delivery_is_a_warning() {
    let e = observe_delivery(DeliveryOutcome::Cancelled { err: String::from("runtime down") });
    assert_eq!(e, LogEvent::ProducerCancelled { err: String::from("runtime down") });
    assert_eq!(level_of(&e), LogLevel::Warn);
}

#[test]
fn drain_is_announced_only_when_work_starts() {
    assert_eq!(drain_announcement(&vec![1, 2]), Some(LogEvent::DrainStarted));
    assert_eq!(drain_announcement(&Vec::new()), None);
}
