//! The three numbers a bus is built from, and their validation.
use vstd::prelude::*;

use crate::defines::{MAX_SIZE, MESSAGE_SIZE};
use crate::error::BusError;

verus! {

/// A nonzero `u8`, as the bus uses for its subscriber and group counts.
#[derive(Clone, Copy)]
pub struct ValidU8 {
    value: u8,
}

impl ValidU8 {
    pub open spec fn wf(self) -> bool {
        self.spec_get() != 0
    }

    pub closed spec fn spec_get(self) -> u8 {
        self.value
    }

    /// The largest value: `u8::MAX - 1`.
    pub fn max() -> (r: Self)
        ensures
            r.wf(),
            r.spec_get() == u8::MAX - 1,
    {
        ValidU8 { value: 254 }
    }

    /// The value one.
    pub fn one() -> (r: Self)
        ensures
            r.wf(),
            r.spec_get() == 1,
    {
        ValidU8 { value: 1 }
    }

    /// A value that is nonzero and even, or `None`.
    pub fn new(value: u8) -> (r: Option<Self>)
        ensures
            r is Some <==> (value != 0 && value % 2 == 0),
            r matches Some(v) ==> v.wf() && v.spec_get() == value,
    {
        if value != 0 && value % 2 == 0 {
            Some(ValidU8 { value })
        } else {
            None
        }
    }

    pub fn get(&self) -> (r: u8)
        ensures
            r == self.spec_get(),
    {
        self.value
    }
}

/// `value` is one of 1, 2, 4, ..., 128.
pub open spec fn is_power_of_two_u8(value: u8) -> bool {
    value == 1 || value == 2 || value == 4 || value == 8 || value == 16 || value == 32
        || value == 64 || value == 128
}

/// Fewest messages a buffer of the bus holds.
pub const MIN_MESSAGES: usize = 1024;

/// Fewest subscriber slots a bus has.
pub const MIN_SUBSCRIBERS: usize = 2;

/// The configuration of a bus as its author writes it, before validation.
#[derive(Clone, Copy, Debug)]
pub struct BusConfig {
    pub max_subscribers: u8,
    pub max_messages: usize,
    pub max_groups: u8,
}

/// What validation answers for `c`: the error of the first rule that `c`
/// breaks, or `Ok`. Each count is checked for evenness before its minimum.
pub open spec fn spec_validate(c: BusConfig) -> Result<(), BusError> {
    if c.max_subscribers % 2 != 0 {
        Err(BusError::ValueIsNotMultipleOf2 { name: "max_subscribers" })
    } else if c.max_subscribers < MIN_SUBSCRIBERS {
        Err(
            BusError::ValueTooSmall {
                name: "max_subscribers",
                current: c.max_subscribers as usize,
                min: MIN_SUBSCRIBERS,
            },
        )
    } else if c.max_messages % 2 != 0 {
        Err(BusError::ValueIsNotMultipleOf2 { name: "max_messages" })
    } else if c.max_messages < MIN_MESSAGES {
        Err(
            BusError::ValueTooSmall {
                name: "max_messages",
                current: c.max_messages,
                min: MIN_MESSAGES,
            },
        )
    } else if !is_power_of_two_u8(c.max_groups) {
        Err(BusError::GroupsIsNotPowerOf2)
    } else if c.max_groups % 2 != 0 {
        Err(BusError::ValueIsNotMultipleOf2 { name: "max_groups" })
    } else if c.max_messages > u32::MAX || c.max_subscribers * c.max_messages * MESSAGE_SIZE
        > MAX_SIZE {
        Err(BusError::ValueTooBig { name: "max_messages" })
    } else {
        Ok(())
    }
}

/// A configuration that passed validation.
#[derive(Clone, Copy, Debug)]
pub struct ValidConfig {
    max_subscribers: u8,
    max_messages: usize,
    max_groups: u8,
}

impl ValidConfig {
    /// Every rule of validation holds.
    pub open spec fn wf(self) -> bool {
        &&& self.spec_max_subscribers() >= MIN_SUBSCRIBERS
        &&& self.spec_max_subscribers() % 2 == 0
        &&& self.spec_max_messages() >= MIN_MESSAGES
        &&& self.spec_max_messages() % 2 == 0
        &&& self.spec_max_messages() <= u32::MAX
        &&& is_power_of_two_u8(self.spec_max_groups())
        &&& self.spec_max_groups() % 2 == 0
        &&& self.spec_max_subscribers() * self.spec_max_messages() * MESSAGE_SIZE <= MAX_SIZE
    }

    pub closed spec fn spec_max_subscribers(self) -> u8 {
        self.max_subscribers
    }

    pub closed spec fn spec_max_messages(self) -> usize {
        self.max_messages
    }

    pub closed spec fn spec_max_groups(self) -> u8 {
        self.max_groups
    }

    pub fn max_subscribers(&self) -> (r: ValidU8)
        requires
            self.wf(),
        ensures
            r.wf(),
            r.spec_get() == self.spec_max_subscribers(),
    {
        ValidU8 { value: self.max_subscribers }
    }

    pub fn max_messages(&self) -> (r: usize)
        ensures
            r == self.spec_max_messages(),
    {
        self.max_messages
    }

    pub fn max_groups(&self) -> (r: ValidU8)
        requires
            self.wf(),
        ensures
            r.wf(),
            r.spec_get() == self.spec_max_groups(),
    {
        ValidU8 { value: self.max_groups }
    }
}

/// `value` is a power of two, computed with the bit trick `v & (v - 1) == 0`.
fn u8_is_power_of_two(value: u8) -> (r: bool)
    ensures
        r == is_power_of_two_u8(value),
{
    if value == 0 {
        return false;
    }
    let r = value & (value - 1) == 0;
    assert(r == is_power_of_two_u8(value)) by (bit_vector)
        requires
            value != 0,
            r == (value & ((value - 1) as u8) == 0u8),
    ;
    r
}

impl BusConfig {
    pub fn new(max_subscribers: u8, max_messages: usize, max_groups: u8) -> (r: Self)
        ensures
            r == (BusConfig { max_subscribers, max_messages, max_groups }),
    {
        BusConfig { max_subscribers, max_messages, max_groups }
    }

    /// Checks the configuration: on success the validated configuration, else the
    /// error of the first rule it breaks.
    pub fn into_valid(self) -> (r: Result<ValidConfig, BusError>)
        ensures
            r is Ok <==> spec_validate(self) is Ok,
            r matches Err(e) ==> spec_validate(self) == Err::<(), BusError>(e),
            r matches Ok(v) ==> {
                &&& v.wf()
                &&& v.spec_max_subscribers() == self.max_subscribers
                &&& v.spec_max_messages() == self.max_messages
                &&& v.spec_max_groups() == self.max_groups
            },
    {
        if self.max_subscribers % 2 != 0 {
            return Err(BusError::ValueIsNotMultipleOf2 { name: "max_subscribers" });
        }
        if (self.max_subscribers as usize) < MIN_SUBSCRIBERS {
            return Err(
                BusError::ValueTooSmall {
                    name: "max_subscribers",
                    current: self.max_subscribers as usize,
                    min: MIN_SUBSCRIBERS,
                },
            );
        }
        if self.max_messages % 2 != 0 {
            return Err(BusError::ValueIsNotMultipleOf2 { name: "max_messages" });
        }
        if self.max_messages < MIN_MESSAGES {
            return Err(
                BusError::ValueTooSmall {
                    name: "max_messages",
                    current: self.max_messages,
                    min: MIN_MESSAGES,
                },
            );
        }
        if !u8_is_power_of_two(self.max_groups) {
            return Err(BusError::GroupsIsNotPowerOf2);
        }
        if self.max_groups % 2 != 0 {
            return Err(BusError::ValueIsNotMultipleOf2 { name: "max_groups" });
        }
        if self.max_messages > 0xFFFF_FFFF {
            return Err(BusError::ValueTooBig { name: "max_messages" });
        }
        let per_subscriber = self.max_messages.checked_mul(MESSAGE_SIZE);
        let total = match per_subscriber {
            Some(p) => (self.max_subscribers as usize).checked_mul(p),
            None => None,
        };
        match total {
            Some(t) if t <= MAX_SIZE => {
                let p = per_subscriber.unwrap();
                assert(self.max_subscribers * self.max_messages * MESSAGE_SIZE == t) by (nonlinear_arith)
                    requires
                        t == self.max_subscribers * p,
                        p == self.max_messages * MESSAGE_SIZE,
                ;
                Ok(
                    ValidConfig {
                        max_subscribers: self.max_subscribers,
                        max_messages: self.max_messages,
                        max_groups: self.max_groups,
                    },
                )
            },
            _ => {
                proof {
                    let s = self.max_subscribers as int;
                    let m = self.max_messages as int;
                    assert(s >= 2);
                    if per_subscriber is None {
                        assert(m * MESSAGE_SIZE > usize::MAX);
                        assert(s * m * MESSAGE_SIZE > MAX_SIZE) by (nonlinear_arith)
                            requires
                                m * MESSAGE_SIZE > usize::MAX,
                                s >= 2,
                                MAX_SIZE < usize::MAX,
                        ;
                    } else {
                        let p = per_subscriber.unwrap();
                        assert(s * m * MESSAGE_SIZE == s * p) by (nonlinear_arith)
                            requires
                                p == m * MESSAGE_SIZE,
                        ;
                    }
                }
                Err(BusError::ValueTooBig { name: "max_messages" })
            },
        }
    }
}

} // verus!
