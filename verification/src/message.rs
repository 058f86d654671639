//! The message every subscriber sends and receives.
use vstd::prelude::*;

use crate::defines::PAYLOAD_SIZE;

verus! {

/// A message as the bus moves it: four header bytes and the payload.
///
/// `dst` is the id of the receiver (0 is the sink that drops messages), `group`
/// the sender's local group that the routing table translates, `src` the sender
/// (written by the bus, never trusted from the sender) and `kind` free for users.
#[derive(Clone, Copy, Debug, PartialEq, Eq, PartialOrd, Ord, Hash)]
pub struct UntypedMessage {
    pub dst: u8,
    pub group: u8,
    pub src: u8,
    pub kind: u8,
    pub payload: [u8; 28],
}

impl Default for UntypedMessage {
    fn default() -> (r: Self)
        ensures
            r.is_zeroed(),
    {
        UntypedMessage { dst: 0, group: 0, src: 0, kind: 0, payload: [0u8; 28] }
    }
}

impl UntypedMessage {
    /// Every byte of the message is zero.
    pub open spec fn is_zeroed(self) -> bool {
        &&& self.dst == 0
        &&& self.group == 0
        &&& self.src == 0
        &&& self.kind == 0
        &&& self.payload@.len() == 28
        &&& forall|i: int| 0 <= i < 28 ==> self.payload@[i] == 0
    }

    /// A message to `dst` in `group` of `kind`; `src` is left to the bus.
    pub fn new(dst: u8, group: u8, kind: u8, payload: [u8; 28]) -> (r: Self)
        ensures
            r == (UntypedMessage { dst, group, src: 0, kind, payload }),
    {
        UntypedMessage { dst, group, src: 0, kind, payload }
    }

    pub fn dst(&self) -> (r: u8)
        ensures
            r == self.dst,
    {
        self.dst
    }

    pub fn with_dst(&mut self, dst: u8)
        ensures
            *final(self) == (UntypedMessage { dst, ..*old(self) }),
    {
        self.dst = dst;
    }

    pub fn src(&self) -> (r: u8)
        ensures
            r == self.src,
    {
        self.src
    }

    pub fn group(&self) -> (r: u8)
        ensures
            r == self.group,
    {
        self.group
    }

    pub fn with_group(&mut self, group: u8)
        ensures
            *final(self) == (UntypedMessage { group, ..*old(self) }),
    {
        self.group = group;
    }

    pub fn kind(&self) -> (r: u8)
        ensures
            r == self.kind,
    {
        self.kind
    }

    pub fn with_kind(&mut self, kind: u8)
        ensures
            *final(self) == (UntypedMessage { kind, ..*old(self) }),
    {
        self.kind = kind;
    }
}

/// The payload is what is left of a message after its four header bytes.
pub proof fn lemma_payload_size()
    ensures
        PAYLOAD_SIZE == 28,
{
}

} // verus!
