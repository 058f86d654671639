//! The shared pool that collects the messages of busy senders before they are
//! grouped by receiver.
use vstd::prelude::*;

use crate::config::ValidConfig;
use crate::message::UntypedMessage;

verus! {

/// Room for one message from every buffer slot of every subscriber.
#[derive(Debug)]
pub struct MessagePool {
    messages: Vec<UntypedMessage>,
    capacity: usize,
}

impl MessagePool {
    /// The messages in the pool, in the order they were added.
    pub closed spec fn view(self) -> Seq<UntypedMessage> {
        self.messages@
    }

    pub closed spec fn spec_capacity(self) -> usize {
        self.capacity
    }

    pub open spec fn wf(self) -> bool {
        self@.len() <= self.spec_capacity()
    }

    /// An empty pool for `max_subscribers * max_messages` messages.
    pub fn new(config: &ValidConfig) -> (r: Self)
        requires
            config.wf(),
        ensures
            r.wf(),
            r@ == Seq::<UntypedMessage>::empty(),
            r.spec_capacity() == config.spec_max_subscribers() * config.spec_max_messages(),
    {
        let subscribers = config.max_subscribers().get() as usize;
        let messages = config.max_messages();
        assert(subscribers * messages <= subscribers * messages * 32) by (nonlinear_arith)
            requires
                subscribers >= 0,
                messages >= 0,
        ;
        MessagePool { messages: Vec::new(), capacity: subscribers * messages }
    }

    /// The messages in the pool.
    pub fn as_slice(&self) -> (r: &[UntypedMessage])
        ensures
            r@ == self@,
    {
        self.messages.as_slice()
    }

    /// Adds one message at the end.
    pub fn push(&mut self, message: UntypedMessage)
        requires
            old(self).wf(),
            old(self)@.len() < old(self).spec_capacity(),
        ensures
            final(self).wf(),
            final(self)@ == old(self)@.push(message),
            final(self).spec_capacity() == old(self).spec_capacity(),
    {
        self.messages.push(message);
    }

    /// Empties the pool.
    /// The messages in the pool, for writing in place.
    pub fn as_mut_slice(&mut self) -> (r: &mut [UntypedMessage])
        ensures
            r@ == old(self)@,
            final(self)@ == final(r)@,
            final(self).spec_capacity() == old(self).spec_capacity(),
    {
        self.messages.as_mut_slice()
    }

    /// Adds `count` zeroed messages to the pool and hands them out for
    /// writing in place.
    pub fn reserve_slice(&mut self, count: usize) -> (r: &mut [UntypedMessage])
        requires
            old(self).wf(),
            old(self)@.len() + count <= old(self).spec_capacity(),
        ensures
            r@.len() == count,
            forall|i: int| 0 <= i < count ==> (#[trigger] r@[i]).is_zeroed(),
            final(self)@ == old(self)@ + final(r)@,
            final(self).spec_capacity() == old(self).spec_capacity(),
    {
        let start = self.messages.len();
        let mut i: usize = 0;
        while i < count
            invariant
                i <= count,
                start == old(self)@.len(),
                self@.len() == start + i,
                self@.subrange(0, start as int) == old(self)@,
                forall|k: int| start <= k < start + i ==> (#[trigger] self@[k]).is_zeroed(),
                self.spec_capacity() == old(self).spec_capacity(),
            decreases count - i,
        {
            self.messages.push(UntypedMessage::default());
            i = i + 1;
        }
        let (_, tail) = self.messages.as_mut_slice().split_at_mut(start);
        tail
    }

    pub fn clear(&mut self)
        ensures
            final(self)@ == Seq::<UntypedMessage>::empty(),
            final(self).spec_capacity() == old(self).spec_capacity(),
            final(self).wf(),
    {
        self.messages.clear();
    }

    pub fn count(&self) -> (r: usize)
        ensures
            r == self@.len(),
    {
        self.messages.len()
    }

    pub fn capacity(&self) -> (r: usize)
        ensures
            r == self.spec_capacity(),
    {
        self.capacity
    }

    /// The `len` messages from position `ptr_location` on.
    pub fn slice(&self, len: usize, ptr_location: usize) -> (r: &[UntypedMessage])
        requires
            ptr_location + len <= self@.len(),
        ensures
            r@ == self@.subrange(ptr_location as int, ptr_location + len),
    {
        let _total = self.messages.len();
        &self.messages.as_slice()[ptr_location..ptr_location + len]
    }

    /// Orders the pool by destination.
    pub fn sort_by_dst(&mut self)
        requires
            old(self).wf(),
        ensures
            final(self).wf(),
            final(self).spec_capacity() == old(self).spec_capacity(),
            final(self)@.to_multiset() == old(self)@.to_multiset(),
            final(self)@.len() == old(self)@.len(),
            sorted_by_dst(final(self)@),
    {
        sort_messages_by_dst(&mut self.messages);
    }
}

/// The messages are ordered by destination.
pub open spec fn sorted_by_dst(s: Seq<UntypedMessage>) -> bool {
    forall|i: int, j: int| 0 <= i <= j < s.len() ==> s[i].dst <= s[j].dst
}

/// Calls `slice::sort_unstable_by_key` with the destination as the key. Its
/// documentation: the slice ends up ordered by the key and holds the same
/// elements; the relative order of elements with equal keys is not kept, so
/// no claim is made about it.
#[verifier::external_body]
fn sort_messages_by_dst(v: &mut Vec<UntypedMessage>)
    ensures
        final(v)@.to_multiset() == old(v)@.to_multiset(),
        final(v)@.len() == old(v)@.len(),
        sorted_by_dst(final(v)@),
{
    v.sort_unstable_by_key(|m| m.dst);
}

} // verus!
