//! Identifiers of subscribers.
use vstd::prelude::*;

verus! {

/// The id of a subscriber: never zero, since zero is the sink of the bus.
#[derive(Debug, Clone, Copy, PartialEq, Eq, Structural, PartialOrd, Ord, Hash)]
pub struct SubscriberId {
    id: u8,
}

impl SubscriberId {
    /// Ids are never zero.
    #[verifier::type_invariant]
    pub open spec fn nonzero(self) -> bool {
        self.spec_u8() != 0
    }

    pub closed spec fn spec_u8(self) -> u8 {
        self.id
    }

    /// The id of a nonzero value.
    pub fn new(id: u8) -> (r: Self)
        requires
            id != 0,
        ensures
            r.spec_u8() == id,
    {
        SubscriberId { id }
    }

    /// The id of `id`, or `None` for zero.
    pub fn new_u8(id: u8) -> (r: Option<Self>)
        ensures
            r is Some <==> id != 0,
            r matches Some(v) ==> v.spec_u8() == id,
    {
        if id != 0 {
            Some(SubscriberId { id })
        } else {
            None
        }
    }

    /// The id as the nonzero number it is.
    pub fn as_inner(self) -> (r: u8)
        ensures
            r == self.spec_u8(),
            r != 0,
    {
        proof {
            use_type_invariant(self);
        }
        self.id
    }

    pub fn as_u8(self) -> (r: u8)
        ensures
            r == self.spec_u8(),
    {
        self.id
    }

    pub fn get(self) -> (r: u8)
        ensures
            r == self.spec_u8(),
    {
        self.id
    }

    pub fn as_usize(self) -> (r: usize)
        ensures
            r == self.spec_u8(),
    {
        self.id as usize
    }
}

/// An id is its number: an id rebuilt from the number of another is the same
/// id.
pub proof fn lemma_id_round_trip(a: SubscriberId, b: SubscriberId)
    requires
        a.spec_u8() == b.spec_u8(),
    ensures
        a == b,
{
}

} // verus!
