//! The dispatch decisions of the producer loop.
//!
//! The loop itself lives in the surrounding application: it generates a
//! message, hands its encoding to the broker client, and reports what
//! happened back into this module. Every decision — whether a handle is
//! registered, when a drain pass begins, what is logged at which
//! severity — is made here, so that the loop body is nothing but I/O
//! around verified calls.

use vstd::prelude::*;
use crate::tracker::{DeliveryTracker, spec_after_drain, spec_drained};

verus! {

/// The outcome of one asynchronous delivery, observed once the broker
/// resolves it. Outcomes are logged and never change control flow.
#[derive(Debug, PartialEq, Eq)]
pub enum DeliveryOutcome {
    /// The broker durably accepted the message; carries its identifier.
    Delivered { id: i64 },
    /// The broker rejected the message; carries the error text.
    BrokerRejected { err: String },
    /// The delivery task was cancelled before a broker verdict.
    Cancelled { err: String },
}

/// The synchronous result of handing one message to the broker client.
#[derive(Debug, PartialEq, Eq)]
pub enum SubmitOutcome {
    /// The message was queued; carries the delivery handle to track.
    Queued { handle: u64 },
    /// The local submission failed (for instance queue pressure); the
    /// message is dropped, never retried, and the loop proceeds.
    Rejected { err: String },
}

/// The severity of a log line.
#[derive(Debug, Clone, Copy, PartialEq, Eq, Structural)]
pub enum LogLevel {
    Info,
    Warn,
    Error,
}

/// One log line the core asks the surrounding application to emit.
#[derive(Debug, PartialEq, Eq)]
pub enum LogEvent {
    /// A delivery was confirmed.
    Produced { id: i64 },
    /// The broker rejected a delivery.
    BrokerError { err: String },
    /// A delivery task was cancelled.
    ProducerCancelled { err: String },
    /// A synchronous submission failed.
    SubmitFailed { err: String },
    /// A full drain pass begins.
    DrainStarted,
}

/// The log line for one observed delivery outcome.
pub open spec fn spec_observe(out: DeliveryOutcome) -> LogEvent {
    match out {
        DeliveryOutcome::Delivered { id } => LogEvent::Produced { id },
        DeliveryOutcome::BrokerRejected { err } => LogEvent::BrokerError { err },
        DeliveryOutcome::Cancelled { err } => LogEvent::ProducerCancelled { err },
    }
}

/// The severity of each log line: confirmations and drain starts are
/// informational, cancellations warnings, and every failure an error.
pub open spec fn spec_level(e: LogEvent) -> LogLevel {
    match e {
        LogEvent::Produced { .. } => LogLevel::Info,
        LogEvent::DrainStarted => LogLevel::Info,
        LogEvent::ProducerCancelled { .. } => LogLevel::Warn,
        LogEvent::BrokerError { .. } => LogLevel::Error,
        LogEvent::SubmitFailed { .. } => LogLevel::Error,
    }
}

/// Startup configuration of the dispatch loop, consumed once.
pub struct DispatchConfig {
    /// Broker endpoint addresses.
    pub brokers: Vec<String>,
    /// The topic every message is published to.
    pub topic: String,
    /// The concurrency ceiling handed to each drain decision.
    pub ceiling: usize,
    /// Capacity of the client's local outbound queue, in messages.
    pub queue_capacity: usize,
    /// How many messages the client may batch together.
    pub batch_size: usize,
    /// How long the client may linger before flushing, in milliseconds.
    pub linger_ms: usize,
}

/// Decide the log line for one resolved delivery. Total over every
/// outcome: a rejection or cancellation is recorded like a confirmation
/// and never stops the caller from handling the rest of a drain pass.
pub fn observe_delivery(out: DeliveryOutcome) -> (e: LogEvent)
    ensures
        e == spec_observe(out),
{
    match out {
        DeliveryOutcome::Delivered { id } => LogEvent::Produced { id },
        DeliveryOutcome::BrokerRejected { err } => LogEvent::BrokerError { err },
        DeliveryOutcome::Cancelled { err } => LogEvent::ProducerCancelled { err },
    }
}

/// The severity at which a log line is emitted.
pub fn level_of(e: &LogEvent) -> (l: LogLevel)
    ensures
        l == spec_level(*e),
{
    match e {
        LogEvent::Produced { .. } => LogLevel::Info,
        LogEvent::DrainStarted => LogLevel::Info,
        LogEvent::ProducerCancelled { .. } => LogLevel::Warn,
        LogEvent::BrokerError { .. } => LogLevel::Error,
        LogEvent::SubmitFailed { .. } => LogLevel::Error,
    }
}

/// One iteration's bookkeeping after a submission attempt. A queued
/// submission registers its delivery handle and applies the drain
/// decision, handing back the handles to await. A rejected submission
/// registers nothing, changes nothing, and yields the error log line;
/// the loop proceeds to the next iteration.
pub fn record_submission(t: &mut DeliveryTracker, out: SubmitOutcome, ceiling: usize) -> (r: (
    Vec<u64>,
    Option<LogEvent>,
))
    ensures
        (out matches SubmitOutcome::Queued { handle } ==> final(t)@ == spec_after_drain(
            old(t)@.push(handle),
            ceiling as int,
        ) && r.0@ == spec_drained(old(t)@.push(handle), ceiling as int) && r.1 is None),
        (out matches SubmitOutcome::Rejected { err } ==> final(t)@ == old(t)@ && r.0@.len() == 0
            && r.1 == Some(LogEvent::SubmitFailed { err })),
{
    match out {
        SubmitOutcome::Queued { handle } => {
            t.register(handle);
            let drained = t.maybe_drain(ceiling);
            (drained, None)
        },
        SubmitOutcome::Rejected { err } => {
            (Vec::new(), Some(LogEvent::SubmitFailed { err }))
        },
    }
}

/// The log line announcing a drain pass: emitted exactly when the drain
/// decision handed work back.
pub fn drain_announcement(drained: &Vec<u64>) -> (e: Option<LogEvent>)
    ensures
        drained@.len() > 0 ==> e == Some(LogEvent::DrainStarted),
        drained@.len() == 0 ==> e is None,
{
    if drained.len() > 0 {
        Some(LogEvent::DrainStarted)
    } else {
        None
    }
}

} // verus!
