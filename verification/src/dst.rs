//! The destination byte of a message.
use vstd::prelude::*;

use crate::subscriber::SubscriberId;

verus! {

/// The receiver a message is addressed to; 0 addresses nobody.
#[derive(Debug, Clone, Copy, PartialEq, Eq, Structural, PartialOrd, Ord, Hash)]
pub struct Destination(u8);

impl Destination {
    pub closed spec fn view(self) -> u8 {
        self.0
    }

    /// The destination that addresses nobody.
    pub fn zero() -> (r: Self)
        ensures
            r@ == 0,
    {
        Destination(0)
    }

    pub fn new(id: u8) -> (r: Self)
        ensures
            r@ == id,
    {
        Destination(id)
    }

    /// The subscriber the destination addresses.
    pub fn as_subscriber_id(self) -> (r: SubscriberId)
        requires
            self@ != 0,
        ensures
            r.spec_u8() == self@,
    {
        SubscriberId::new(self.0)
    }

    pub fn cast_usize(self) -> (r: usize)
        ensures
            r == self@,
    {
        self.0 as usize
    }

    pub fn u8(self) -> (r: u8)
        ensures
            r == self@,
    {
        self.0
    }
}

impl core::ops::Deref for Destination {
    type Target = u8;

    fn deref(&self) -> (r: &u8)
        ensures
            *r == self@,
    {
        &self.0
    }
}

impl Default for Destination {
    fn default() -> (r: Self)
        ensures
            r@ == 0,
    {
        Destination(0)
    }
}

} // verus!
