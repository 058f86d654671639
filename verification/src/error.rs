//! Errors reported by the bus and by the validation of its configuration.
use vstd::prelude::*;

verus! {

/// What went wrong in a request to the bus.
#[allow(inconsistent_fields)]
#[derive(Debug, PartialEq, Eq, PartialOrd, Ord, Hash)]
pub enum BusError {
    /// A subscriber id outside of the bus's slots.
    InvalidSubscriberId,
    RequestAlreadySent,
    /// The slot of the id holds no subscriber.
    SubscriberNotRegistered,
    /// No id is left for a new subscriber.
    PoolExhausted { max: u8 },
    TooBigPoolSize { current: usize, max: usize },
    /// A configuration value below its minimum.
    ValueTooSmall { name: &'static str, current: usize, min: usize },
    /// A configuration value that makes the bus's memory too large.
    ValueTooBig { name: &'static str },
    ValueOutOfRange { name: &'static str, current: usize, min: usize, max: usize },
    /// A configuration value that must be even and is not.
    ValueIsNotMultipleOf2 { name: &'static str },
    /// `max_groups` is not a power of two.
    GroupsIsNotPowerOf2,
    DriverError(String),
}

} // verus!
