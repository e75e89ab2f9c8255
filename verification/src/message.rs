//! The customer consumption event and its randomized factory.

use vstd::prelude::*;

verus! {

/// Smallest customer ID the factory generates (inclusive).
pub const CUSTOMER_ID_MIN: u32 = 1_000;
/// Largest customer ID the factory generates (inclusive).
pub const CUSTOMER_ID_MAX: u32 = 9_999;
/// Exclusive upper bound on generated consumption, in microwatt-hours
/// (ten milliwatt-hours).
pub const CONSUMPTION_LIMIT: u32 = 10_000;

/// Electrical consumption in whole microwatt-hours.
///
/// The wire format carries consumption as a decimal number of
/// milliwatt-hours with exactly three fractional digits, so one unit of
/// this type is one thousandth of a milliwatt-hour and the conversion is
/// exact in both directions.
#[derive(Debug, Clone, Copy, PartialEq, Eq, Structural)]
pub struct MilliwattHours(pub u32);

/// A message for the broker: one customer electrical-consumption reading.
///
/// * `customer_id` - the ID of the customer.
/// * `consumption` - the customer's electrical consumption.
/// * `timestamp` - milliseconds since the Unix epoch.
#[derive(Debug, Clone, Copy, PartialEq, Eq, Structural)]
pub struct Message {
    pub customer_id: u32,
    pub consumption: MilliwattHours,
    pub timestamp: u128,
}

/// What the factory builds from a clock reading: `None` when the clock
/// reported a time before the epoch, otherwise the message whose
/// timestamp is exactly that reading.
pub open spec fn spec_from_clock(
    customer_id: u32,
    consumption: MilliwattHours,
    clock: Option<u128>,
) -> Option<Message> {
    match clock {
        Some(t) => Some(Message { customer_id, consumption, timestamp: t }),
        None => None,
    }
}

impl Message {
    /// Construct a new `Message` from its three fields.
    pub fn new(customer_id: u32, consumption: MilliwattHours, timestamp: u128) -> (m: Self)
        ensures
            m == (Message { customer_id, consumption, timestamp }),
    {
        Self { customer_id, consumption, timestamp }
    }

    /// Build a message from a wall-clock reading. A reading of `None`
    /// stands for a clock before the epoch: an unrecoverable environment
    /// fault, so no message is produced.
    pub fn from_clock_reading(
        customer_id: u32,
        consumption: MilliwattHours,
        clock: Option<u128>,
    ) -> (r: Option<Message>)
        ensures
            r == spec_from_clock(customer_id, consumption, clock),
            r is None <==> clock is None,
    {
        match clock {
            Some(t) => Some(Self::new(customer_id, consumption, t)),
            None => None,
        }
    }

    /// Generate a new `Message` with randomized values: a customer ID
    /// uniformly in `CUSTOMER_ID_MIN..=CUSTOMER_ID_MAX`, a consumption
    /// uniformly below `CONSUMPTION_LIMIT`, and the current wall-clock
    /// time in milliseconds since the epoch. Returns `None` exactly when
    /// the clock reports a time before the epoch, in which case no
    /// message is produced.
    pub fn with_rng(rng: &mut rand::rngs::ThreadRng) -> (r: Option<Message>)
        ensures
            r is Some ==> CUSTOMER_ID_MIN <= r.unwrap().customer_id <= CUSTOMER_ID_MAX,
            r is Some ==> r.unwrap().consumption.0 < CONSUMPTION_LIMIT,
    {
        let customer_id = random_in_range(rng, CUSTOMER_ID_MIN, CUSTOMER_ID_MAX);
        let consumption = MilliwattHours(random_in_range(rng, 0, CONSUMPTION_LIMIT - 1));
        Self::from_clock_reading(customer_id, consumption, clock_millis_since_epoch())
    }

    /// The customer ID of the message.
    pub fn customer_id(&self) -> (r: u32)
        ensures
            r == self.customer_id,
    {
        self.customer_id
    }

    /// The electrical consumption of the customer.
    pub fn consumption(&self) -> (r: MilliwattHours)
        ensures
            r == self.consumption,
    {
        self.consumption
    }

    /// The timestamp of the message, in milliseconds since the Unix epoch.
    pub fn timestamp(&self) -> (r: u128)
        ensures
            r == self.timestamp,
    {
        self.timestamp
    }
}

/// Messages built from non-decreasing clock readings carry
/// non-decreasing timestamps: the factory never reorders time.
pub proof fn lemma_timestamps_non_decreasing(
    id1: u32,
    c1: MilliwattHours,
    t1: u128,
    id2: u32,
    c2: MilliwattHours,
    t2: u128,
)
    requires
        t1 <= t2,
    ensures
        spec_from_clock(id1, c1, Some(t1)).unwrap().timestamp
            <= spec_from_clock(id2, c2, Some(t2)).unwrap().timestamp,
{
}

#[verifier::external_type_specification]
#[verifier::external_body]
pub struct ExThreadRng(rand::rngs::ThreadRng);

/// Relies on rand's `Rng::random_range` over `low..=high`: it returns a
/// value of the given inclusive range, and panics only when the range is
/// empty, which `low <= high` rules out.
#[verifier::external_body]
fn random_in_range(rng: &mut rand::rngs::ThreadRng, low: u32, high: u32) -> (r: u32)
    requires
        low <= high,
    ensures
        low <= r <= high,
{
    rand::Rng::random_range(rng, low..=high)
}

/// Relies on `std::time::SystemTime::now` and
/// `SystemTime::duration_since(UNIX_EPOCH)`: the milliseconds since the
/// epoch when the clock is at or past it, and `None` when the clock
/// reports an earlier time. The result depends on the machine clock, so
/// nothing more is stated of it.
#[verifier::external_body]
fn clock_millis_since_epoch() -> (r: Option<u128>)
{
    match std::time::SystemTime::now().duration_since(std::time::UNIX_EPOCH) {
        Ok(d) => Some(d.as_millis()),
        Err(_) => None,
    }
}

} // verus!
