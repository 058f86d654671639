//! Message buffers of a fixed capacity `M`.
//!
//! A buffer holds `M` message slots and a count. An outgoing buffer fills its
//! slots from the back: the messages waiting to be sent are the last `count`
//! slots, newest first. An incoming buffer fills its slots from the front: the
//! messages waiting to be read are the first `count` slots, and `pop` takes the
//! newest one.
pub mod runtime;

use vstd::prelude::*;

use crate::message::UntypedMessage;

verus! {

/// A vector of `n` default messages.
pub(crate) fn zeroed_messages(n: usize) -> (r: Vec<UntypedMessage>)
    ensures
        r@.len() == n,
        forall|i: int| 0 <= i < n ==> (#[trigger] r@[i]).is_zeroed(),
{
    let mut v: Vec<UntypedMessage> = Vec::new();
    let mut i: usize = 0;
    while i < n
        invariant
            i <= n,
            v@.len() == i,
            forall|j: int| 0 <= j < i ==> (#[trigger] v@[j]).is_zeroed(),
        decreases n - i,
    {
        v.push(UntypedMessage::default());
        i = i + 1;
    }
    v
}

/// The count and the `M` slots of a buffer, for reading and writing both.
pub struct RefMutBuf<const M: usize> {
    count: u32,
    data: Vec<UntypedMessage>,
}

impl<const M: usize> RefMutBuf<M> {
    /// There are `M` slots.
    pub open spec fn wf(self) -> bool {
        self.slots().len() == M
    }

    pub closed spec fn spec_count(self) -> u32 {
        self.count
    }

    /// The `M` slots.
    pub closed spec fn slots(self) -> Seq<UntypedMessage> {
        self.data@
    }

    fn empty() -> (r: Self)
        ensures
            r.wf(),
            r.spec_count() == 0,
            r.slots().len() == M,
            forall|i: int| 0 <= i < M ==> (#[trigger] r.slots()[i]).is_zeroed(),
    {
        RefMutBuf { count: 0, data: zeroed_messages(M) }
    }

    pub fn set_count(&mut self, count: u32)
        ensures
            final(self).spec_count() == count,
            final(self).slots() == old(self).slots(),
            final(self).wf() == old(self).wf(),
    {
        self.count = count;
    }

    pub fn add_count(&mut self, count: u32)
        requires
            old(self).spec_count() + count <= u32::MAX,
        ensures
            final(self).spec_count() == old(self).spec_count() + count,
            final(self).slots() == old(self).slots(),
            final(self).wf() == old(self).wf(),
    {
        self.count = self.count + count;
    }

    pub fn count(&self) -> (r: u32)
        ensures
            r == self.spec_count(),
    {
        self.count
    }

    /// All `M` slots.
    pub fn slice(&self) -> (r: &[UntypedMessage])
        ensures
            r@ == self.slots(),
    {
        self.data.as_slice()
    }

    /// All `M` slots, for writing in place.
    pub fn slice_mut(&mut self) -> (r: &mut [UntypedMessage])
        ensures
            r@ == old(self).slots(),
            final(self).slots() == final(r)@,
            final(self).spec_count() == old(self).spec_count(),
    {
        self.data.as_mut_slice()
    }

    /// The messages waiting to be sent, the last `count` slots, for writing in
    /// place; the slots before them stay as they are.
    pub fn read_slice_mut(&mut self) -> (r: &mut [UntypedMessage])
        requires
            old(self).wf(),
            old(self).spec_count() <= M,
        ensures
            r@ == old(self).slots().subrange(M - old(self).spec_count(), M as int),
            final(self).slots() == old(self).slots().take(M - old(self).spec_count()) + final(r)@,
            final(self).spec_count() == old(self).spec_count(),
    {
        let count = self.count as usize;
        let (_, tail) = self.data.as_mut_slice().split_at_mut(M - count);
        tail
    }

    /// The `slice_size` slots that follow the first `count` ones, for writing
    /// in place; the slots around them stay as they are.
    pub fn write_slice_mut(&mut self, slice_size: usize) -> (r: &mut [UntypedMessage])
        requires
            old(self).wf(),
            old(self).spec_count() + slice_size <= M,
        ensures
            r@ == old(self).slots().subrange(
                old(self).spec_count() as int,
                old(self).spec_count() + slice_size,
            ),
            final(self).slots() == old(self).slots().take(old(self).spec_count() as int) + final(r)@
                + old(self).slots().skip(old(self).spec_count() + slice_size),
            final(self).spec_count() == old(self).spec_count(),
    {
        let count = self.count as usize;
        let (_, tail) = self.data.as_mut_slice().split_at_mut(count);
        let (middle, _) = tail.split_at_mut(slice_size);
        middle
    }

    /// Writes `message` into slot `index`.
    pub fn set_slot(&mut self, index: usize, message: UntypedMessage)
        requires
            index < old(self).slots().len(),
        ensures
            final(self).slots() == old(self).slots().update(index as int, message),
            final(self).spec_count() == old(self).spec_count(),
            final(self).wf() == old(self).wf(),
    {
        self.data.set(index, message);
    }

    /// The messages waiting to be sent: the last `count` slots, newest first.
    pub fn read_slice(&self) -> (r: &[UntypedMessage])
        requires
            self.wf(),
            self.spec_count() <= M,
        ensures
            r@ == self.slots().subrange(M - self.spec_count(), M as int),
    {
        let count = self.count as usize;
        &self.data.as_slice()[M - count..M]
    }

    /// Copies `messages` into the slots that follow the first `count` ones; the
    /// count itself is left to the caller.
    pub fn write_slice(&mut self, messages: &[UntypedMessage])
        requires
            old(self).wf(),
            old(self).spec_count() + messages@.len() <= M,
        ensures
            final(self).wf(),
            final(self).spec_count() == old(self).spec_count(),
            final(self).slots() == old(self).slots().take(old(self).spec_count() as int)
                + messages@ + old(self).slots().skip(old(self).spec_count() + messages@.len()),
    {
        let start = self.count as usize;
        let mut i: usize = 0;
        while i < messages.len()
            invariant
                self.wf(),
                old(self).wf(),
                start == old(self).spec_count(),
                self.spec_count() == old(self).spec_count(),
                start + messages@.len() <= M,
                i <= messages@.len(),
                forall|j: int|
                    0 <= j < M ==> #[trigger] self.slots()[j] == if start <= j < start + i {
                        messages@[j - start]
                    } else {
                        old(self).slots()[j]
                    },
            decreases messages@.len() - i,
        {
            let ghost prev = self.slots();
            self.data.set(start + i, messages[i]);
            assert(self.slots() == prev.update(start + i, messages@[i as int]));
            i = i + 1;
        }
        assert(self.slots() =~= old(self).slots().take(start as int) + messages@
            + old(self).slots().skip(start + messages@.len()));
    }
}

/// The count of a buffer, for reading.
pub struct RefBuf<const M: usize> {
    count: u32,
}

impl<const M: usize> RefBuf<M> {
    pub closed spec fn spec_count(self) -> u32 {
        self.count
    }

    pub fn count(&self) -> (r: u32)
        ensures
            r == self.spec_count(),
    {
        self.count
    }
}

/// The storage of a buffer: `M` message slots and the number of them in use.
pub struct SharedBuf<const M: usize> {
    buf: RefMutBuf<M>,
}

impl<const M: usize> SharedBuf<M> {
    /// The count and the slots.
    pub closed spec fn ref_buf(self) -> RefMutBuf<M> {
        self.buf
    }

    pub open spec fn wf(self) -> bool {
        self.ref_buf().wf()
    }

    pub open spec fn spec_count(self) -> u32 {
        self.ref_buf().spec_count()
    }

    pub open spec fn slots(self) -> Seq<UntypedMessage> {
        self.ref_buf().slots()
    }

    /// The count never exceeds the number of slots.
    pub open spec fn bounded(self) -> bool {
        &&& self.wf()
        &&& self.spec_count() <= M
        &&& M <= u32::MAX
    }

    /// An empty buffer of `M` zeroed slots.
    pub fn new() -> (r: Self)
        requires
            0 < M <= u32::MAX,
        ensures
            r.bounded(),
            r.spec_count() == 0,
            r.slots().len() == M,
            forall|i: int| 0 <= i < M ==> (#[trigger] r.slots()[i]).is_zeroed(),
    {
        SharedBuf { buf: RefMutBuf::empty() }
    }

    fn count(&self) -> (r: u32)
        ensures
            r == self.spec_count(),
    {
        self.buf.count
    }

    fn set_count(&mut self, value: u32)
        ensures
            final(self).spec_count() == value,
            final(self).slots() == old(self).slots(),
            final(self).wf() == old(self).wf(),
    {
        self.buf.count = value;
    }

    /// The count and the slots, for reading and writing.
    pub fn as_mut_buf(&mut self) -> (r: &mut RefMutBuf<M>)
        ensures
            *r == old(self).ref_buf(),
            final(self).ref_buf() == *final(r),
    {
        &mut self.buf
    }

    /// The count, for reading.
    pub fn as_ref_buf(&self) -> (r: RefBuf<M>)
        ensures
            r.spec_count() == self.spec_count(),
    {
        RefBuf { count: self.buf.count }
    }
}

/// The buffer a subscriber reads its messages from.
pub struct IncBuf<const M: usize> {
    buf: SharedBuf<M>,
}

impl<const M: usize> IncBuf<M> {
    pub closed spec fn inner(self) -> SharedBuf<M> {
        self.buf
    }

    pub open spec fn spec_count(self) -> u32 {
        self.inner().spec_count()
    }

    pub open spec fn wf(self) -> bool {
        self.inner().bounded()
    }

    /// The messages waiting to be read, oldest first.
    pub open spec fn pending(self) -> Seq<UntypedMessage> {
        self.inner().slots().take(self.spec_count() as int)
    }

    /// An empty incoming buffer.
    pub fn new() -> (r: Self)
        requires
            0 < M <= u32::MAX,
        ensures
            r.wf(),
            r.pending() == Seq::<UntypedMessage>::empty(),
    {
        IncBuf { buf: SharedBuf::new() }
    }

    pub fn from_buf(buf: SharedBuf<M>) -> (r: Self)
        ensures
            r.inner() == buf,
    {
        IncBuf { buf }
    }

    pub fn as_inner_ref(&self) -> (r: &SharedBuf<M>)
        ensures
            *r == self.inner(),
    {
        &self.buf
    }

    pub fn as_inner_mut(&mut self) -> (r: &mut SharedBuf<M>)
        ensures
            *r == old(self).inner(),
            final(self).inner() == *final(r),
    {
        &mut self.buf
    }

    pub fn count(&self) -> (r: u32)
        ensures
            r == self.spec_count(),
    {
        self.buf.count()
    }

    /// Forgets every waiting message.
    pub fn clear(&mut self)
        ensures
            final(self).spec_count() == 0,
            final(self).inner().slots() == old(self).inner().slots(),
            old(self).wf() ==> final(self).wf(),
    {
        self.buf.set_count(0);
    }

    /// Takes the newest waiting message, or `None` when nothing waits.
    pub fn pop(&mut self) -> (r: Option<UntypedMessage>)
        requires
            old(self).wf(),
        ensures
            final(self).wf(),
            final(self).inner().slots() == old(self).inner().slots(),
            old(self).pending().len() == 0 ==> r is None && final(self).pending() == old(
                self,
            ).pending(),
            old(self).pending().len() > 0 ==> r == Some(old(self).pending().last())
                && final(self).pending() == old(self).pending().drop_last(),
    {
        if self.count() == 0 {
            return None;
        }
        let buffer = self.buf.as_mut_buf();
        let start = buffer.count() as usize - 1;
        buffer.set_count(buffer.count() - 1);
        let m = buffer.slice()[start];
        proof {
            assert(self.pending() =~= old(self).pending().drop_last());
        }
        Some(m)
    }

    /// Takes every waiting message at once, oldest first.
    pub fn pop_all(&mut self) -> (r: &[UntypedMessage])
        requires
            old(self).wf(),
        ensures
            final(self).wf(),
            r@ == old(self).pending(),
            final(self).pending() == Seq::<UntypedMessage>::empty(),
            final(self).inner().slots() == old(self).inner().slots(),
    {
        let count = self.buf.count() as usize;
        self.buf.set_count(0);
        let r = &self.buf.buf.data.as_slice()[0..count];
        r
    }
}

/// The buffer a subscriber writes the messages it sends into.
pub struct OutBuf<const M: usize> {
    buf: SharedBuf<M>,
}

impl<const M: usize> OutBuf<M> {
    pub closed spec fn inner(self) -> SharedBuf<M> {
        self.buf
    }

    pub open spec fn spec_count(self) -> u32 {
        self.inner().spec_count()
    }

    pub open spec fn wf(self) -> bool {
        self.inner().bounded()
    }

    /// The messages waiting to be sent: the last `count` slots, newest first.
    pub open spec fn queued(self) -> Seq<UntypedMessage> {
        self.inner().slots().subrange(M - self.spec_count(), M as int)
    }

    /// An empty outgoing buffer.
    pub fn new() -> (r: Self)
        requires
            0 < M <= u32::MAX,
        ensures
            r.wf(),
            r.queued() == Seq::<UntypedMessage>::empty(),
    {
        OutBuf { buf: SharedBuf::new() }
    }

    pub fn from_buf(buf: SharedBuf<M>) -> (r: Self)
        ensures
            r.inner() == buf,
    {
        OutBuf { buf }
    }

    pub fn as_inner_ref(&self) -> (r: &SharedBuf<M>)
        ensures
            *r == self.inner(),
    {
        &self.buf
    }

    pub fn as_inner_mut(&mut self) -> (r: &mut SharedBuf<M>)
        ensures
            *r == old(self).inner(),
            final(self).inner() == *final(r),
    {
        &mut self.buf
    }

    /// The messages waiting to be sent, newest first.
    pub fn read_slice(&self) -> (r: &[UntypedMessage])
        requires
            self.wf(),
        ensures
            r@ == self.queued(),
    {
        self.buf.buf.read_slice()
    }

    /// How many more messages fit.
    pub fn available_space(&self) -> (r: u32)
        requires
            self.wf(),
        ensures
            r == M - self.spec_count(),
    {
        M as u32 - self.buf.count()
    }

    pub fn count(&self) -> (r: u32)
        ensures
            r == self.spec_count(),
    {
        self.buf.count()
    }

    fn reserve(&mut self, count: u32)
        requires
            old(self).spec_count() + count <= u32::MAX,
        ensures
            final(self).spec_count() == old(self).spec_count() + count,
            final(self).inner().slots() == old(self).inner().slots(),
            final(self).inner().wf() == old(self).inner().wf(),
    {
        self.buf.set_count(self.buf.count() + count);
    }

    /// Queues `messages` in `count` reserved slots; `false`, and nothing
    /// changed, when fewer than `count` slots are free.
    pub fn send_many_iter_with_count(&mut self, messages: &[UntypedMessage], count: usize) -> (r:
        bool)
        requires
            old(self).wf(),
            messages@.len() <= count,
        ensures
            final(self).wf(),
            r == (count <= M - old(self).spec_count()),
            !r ==> *final(self) == *old(self),
            r ==> send_result(old(self).inner().slots(), old(self).spec_count() as int, messages@, count as int, final(self).inner().slots(), final(self).spec_count() as int),
    {
        if (self.available_space() as usize) < count {
            return false;
        }
        let old_count = self.buf.count();
        self.reserve(count as u32);
        let start = M - self.buf.count() as usize;
        let len = messages.len();
        let mut j: usize = 0;
        while j < len
            invariant
                self.wf(),
                old(self).wf(),
                len == messages@.len(),
                start == M - old_count - count,
                old_count == old(self).spec_count(),
                self.spec_count() == old_count + count,
                old_count + count <= M,
                len <= count,
                j <= len,
                forall|i: int|
                    0 <= i < M ==> #[trigger] self.inner().slots()[i] == if start <= i < start + j {
                        messages@[len - 1 - (i - start)]
                    } else {
                        old(self).inner().slots()[i]
                    },
            decreases len - j,
        {
            let m = messages[len - 1 - j];
            let ghost prev = self.inner().slots();
            self.buf.buf.data.set(start + j, m);
            assert(self.inner().slots() == prev.update(start + j, m));
            j = j + 1;
        }
        true
    }

    /// Queues every message of `messages`; `false`, and nothing changed, when
    /// they do not all fit.
    pub fn send_many_iter_exact(&mut self, messages: &[UntypedMessage]) -> (r: bool)
        requires
            old(self).wf(),
        ensures
            final(self).wf(),
            r == (messages@.len() <= M - old(self).spec_count()),
            !r ==> *final(self) == *old(self),
            r ==> final(self).queued() == messages@.reverse() + old(self).queued(),
            r ==> send_result(
                old(self).inner().slots(),
                old(self).spec_count() as int,
                messages@,
                messages@.len() as int,
                final(self).inner().slots(),
                final(self).spec_count() as int,
            ),
            r ==> final(self).spec_count() == old(self).spec_count() + messages@.len(),
    {
        let count = messages.len();
        let r = self.send_many_iter_with_count(messages, count);
        proof {
            if r {
                lemma_send_exact_queued::<M>(old(self).inner().slots(), old(self).spec_count() as int, messages@, self.inner().slots(), self.spec_count() as int);
            }
        }
        r
    }
}

/// `new_slots` and `new_count` are what sending `messages` in `count` reserved
/// slots makes of `slots` and `old_count`: the count grows by `count`, the first
/// `messages.len()` of the reserved slots hold the messages in reverse order,
/// and every other slot is unchanged.
pub open spec fn send_result(
    slots: Seq<UntypedMessage>,
    old_count: int,
    messages: Seq<UntypedMessage>,
    count: int,
    new_slots: Seq<UntypedMessage>,
    new_count: int,
) -> bool {
    let start = slots.len() - old_count - count;
    &&& new_count == old_count + count
    &&& new_slots.len() == slots.len()
    &&& forall|i: int|
        0 <= i < slots.len() ==> #[trigger] new_slots[i] == if start <= i < start
            + messages.len() {
            messages[messages.len() - 1 - (i - start)]
        } else {
            slots[i]
        }
}

/// Sending exactly as many messages as were reserved puts them, newest first,
/// in front of the messages already waiting.
proof fn lemma_send_exact_queued<const M: usize>(
    slots: Seq<UntypedMessage>,
    old_count: int,
    messages: Seq<UntypedMessage>,
    new_slots: Seq<UntypedMessage>,
    new_count: int,
)
    requires
        slots.len() == M,
        0 <= old_count,
        old_count + messages.len() <= M,
        send_result(slots, old_count, messages, messages.len() as int, new_slots, new_count),
    ensures
        new_slots.subrange(M - new_count, M as int) == messages.reverse() + slots.subrange(
            M - old_count,
            M as int,
        ),
{
    assert(new_slots.subrange(M - new_count, M as int) =~= messages.reverse() + slots.subrange(
        M - old_count,
        M as int,
    ));
}

} // verus!
