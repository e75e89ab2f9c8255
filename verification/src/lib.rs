//! A synthetic load generator for customer electrical-consumption events.
//!
//! The library holds the verified core: the event type and its factory,
//! the JSON codec for the event payload, the delivery tracker with its
//! drain (backpressure) policy, and the dispatch decisions of the
//! producer loop. Broker submission, task spawning, and logging are left
//! to the surrounding application.

pub mod codec;
pub mod dispatch;
pub mod message;
pub mod tracker;
