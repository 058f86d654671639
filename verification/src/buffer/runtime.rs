//! Message buffers whose capacity is chosen at run time.
//!
//! They behave as the buffers of fixed capacity do: an outgoing buffer queues
//! its messages in its last slots, newest first; an incoming buffer holds its
//! messages in its first slots and `pop` takes the newest.
use vstd::prelude::*;

use crate::buffer::{send_result, zeroed_messages};
use crate::defines::{MESSAGE_SIZE, METADATA, TARGET_ALIGN};
use crate::message::UntypedMessage;

verus! {

/// Declares `core::alloc::Layout` for use in verified code.
#[verifier::external_type_specification]
#[verifier::external_body]
pub struct ExLayout(core::alloc::Layout);

/// Declares `core::alloc::LayoutError` for use in verified code.
#[verifier::external_type_specification]
#[verifier::external_body]
pub struct ExLayoutError(core::alloc::LayoutError);

/// `size` rounded up to a multiple of `TARGET_ALIGN` still fits in an `isize`.
pub open spec fn layout_fits(size: int) -> bool {
    (size + TARGET_ALIGN - 1) / (TARGET_ALIGN as int) * TARGET_ALIGN <= isize::MAX
}

/// Calls `core::alloc::Layout::from_size_align` with the bus's alignment. Its
/// documentation: with a power-of-two alignment the layout is made exactly when
/// `size`, rounded up to a multiple of the alignment, does not exceed
/// `isize::MAX`; that is the only claim made here.
#[verifier::external_body]
fn layout_from_size_align(size: usize, align: usize) -> (r: Result<
    core::alloc::Layout,
    core::alloc::LayoutError,
>)
    requires
        align == TARGET_ALIGN,
    ensures
        r is Ok <==> layout_fits(size as int),
{
    core::alloc::Layout::from_size_align(size, align)
}

/// The count and the slots of a buffer of run-time capacity.
pub struct RefMutDynBuf {
    size: usize,
    count: u32,
    data: Vec<UntypedMessage>,
}

impl RefMutDynBuf {
    pub closed spec fn spec_size(self) -> usize {
        self.size
    }

    pub closed spec fn spec_count(self) -> u32 {
        self.count
    }

    pub closed spec fn slots(self) -> Seq<UntypedMessage> {
        self.data@
    }

    /// There are `size` slots, and `size` fits in a count.
    pub open spec fn wf(self) -> bool {
        &&& self.slots().len() == self.spec_size()
        &&& 0 < self.spec_size() <= u32::MAX
    }

    pub fn set_count(&mut self, count: u32)
        ensures
            final(self).spec_count() == count,
            final(self).slots() == old(self).slots(),
            final(self).spec_size() == old(self).spec_size(),
            final(self).wf() == old(self).wf(),
    {
        self.count = count;
    }

    pub fn add_count(&mut self, count: u32)
        requires
            old(self).spec_count() + count <= u32::MAX,
        ensures
            final(self).spec_count() == old(self).spec_count() + count,
            final(self).slots() == old(self).slots(),
            final(self).spec_size() == old(self).spec_size(),
            final(self).wf() == old(self).wf(),
    {
        self.count = self.count + count;
    }

    pub fn count(&self) -> (r: u32)
        ensures
            r == self.spec_count(),
    {
        self.count
    }

    /// The messages waiting to be sent: the last `count` slots, newest first.
    pub fn read_slice(&self) -> (r: &[UntypedMessage])
        requires
            self.wf(),
            self.spec_count() <= self.spec_size(),
        ensures
            r@ == self.slots().subrange(
                self.spec_size() - self.spec_count(),
                self.spec_size() as int,
            ),
    {
        let count = self.count as usize;
        let size = self.size;
        &self.data.as_slice()[size - count..size]
    }

    /// The messages waiting to be sent, the last `count` slots, for writing in
    /// place; the slots before them stay as they are.
    pub fn read_slice_mut(&mut self) -> (r: &mut [UntypedMessage])
        requires
            old(self).wf(),
            old(self).spec_count() <= old(self).spec_size(),
        ensures
            r@ == old(self).slots().subrange(
                old(self).spec_size() - old(self).spec_count(),
                old(self).spec_size() as int,
            ),
            final(self).slots() == old(self).slots().take(old(self).spec_size() - old(self).spec_count())
                + final(r)@,
            final(self).spec_count() == old(self).spec_count(),
            final(self).spec_size() == old(self).spec_size(),
    {
        let count = self.count as usize;
        let size = self.size;
        let (_, tail) = self.data.as_mut_slice().split_at_mut(size - count);
        tail
    }
}

/// The storage of a buffer of run-time capacity.
pub struct DynSharedBuf {
    buf: RefMutDynBuf,
}

impl DynSharedBuf {
    pub closed spec fn ref_buf(self) -> RefMutDynBuf {
        self.buf
    }

    pub open spec fn spec_size(self) -> usize {
        self.ref_buf().spec_size()
    }

    pub open spec fn spec_count(self) -> u32 {
        self.ref_buf().spec_count()
    }

    pub open spec fn slots(self) -> Seq<UntypedMessage> {
        self.ref_buf().slots()
    }

    /// Well formed, and the count never exceeds the capacity.
    pub open spec fn bounded(self) -> bool {
        &&& self.ref_buf().wf()
        &&& self.spec_count() <= self.spec_size()
    }

    /// An empty buffer of `messages` zeroed slots; the error of
    /// `Layout::from_size_align` when its bytes cannot be laid out.
    pub fn new(messages: usize) -> (r: Result<Self, core::alloc::LayoutError>)
        requires
            0 < messages <= u32::MAX,
            messages * MESSAGE_SIZE + METADATA <= usize::MAX,
        ensures
            r is Ok <==> layout_fits(messages * MESSAGE_SIZE + METADATA),
            r matches Ok(b) ==> {
                &&& b.bounded()
                &&& b.spec_size() == messages
                &&& b.spec_count() == 0
                &&& forall|i: int| 0 <= i < messages ==> (#[trigger] b.slots()[i]).is_zeroed()
            },
    {
        let layout = layout_from_size_align(messages * MESSAGE_SIZE + METADATA, TARGET_ALIGN);
        match layout {
            Ok(_) => Ok(
                DynSharedBuf {
                    buf: RefMutDynBuf { size: messages, count: 0, data: zeroed_messages(messages) },
                },
            ),
            Err(e) => Err(e),
        }
    }

    fn count(&self) -> (r: u32)
        ensures
            r == self.spec_count(),
    {
        self.buf.count
    }

    fn set_count(&mut self, value: u32)
        ensures
            final(self).spec_count() == value,
            final(self).slots() == old(self).slots(),
            final(self).spec_size() == old(self).spec_size(),
            final(self).ref_buf().wf() == old(self).ref_buf().wf(),
    {
        self.buf.count = value;
    }

    /// The count and the slots, for reading and writing.
    pub fn as_mut_buf(&mut self) -> (r: &mut RefMutDynBuf)
        ensures
            *r == old(self).ref_buf(),
            final(self).ref_buf() == *final(r),
    {
        &mut self.buf
    }
}

/// An incoming buffer of run-time capacity.
pub struct DynIncBuf {
    buf: DynSharedBuf,
}

impl DynIncBuf {
    pub closed spec fn inner(self) -> DynSharedBuf {
        self.buf
    }

    pub open spec fn spec_count(self) -> u32 {
        self.inner().spec_count()
    }

    pub open spec fn wf(self) -> bool {
        self.inner().bounded()
    }

    /// The messages waiting to be read, oldest first.
    pub open spec fn pending(self) -> Seq<UntypedMessage> {
        self.inner().slots().take(self.spec_count() as int)
    }

    /// An incoming buffer of a single slot.
    pub fn null() -> (r: Result<Self, core::alloc::LayoutError>)
        ensures
            r matches Ok(b) ==> b.wf() && b.pending() == Seq::<UntypedMessage>::empty()
                && b.inner().spec_size() == 1,
            r is Ok,
    {
        match DynSharedBuf::new(1) {
            Ok(buf) => Ok(DynIncBuf { buf }),
            Err(e) => Err(e),
        }
    }

    pub fn from_buf(buf: DynSharedBuf) -> (r: Self)
        ensures
            r.inner() == buf,
    {
        DynIncBuf { buf }
    }

    /// Forgets every waiting message.
    pub fn clear(&mut self)
        ensures
            final(self).spec_count() == 0,
            final(self).inner().slots() == old(self).inner().slots(),
            final(self).inner().spec_size() == old(self).inner().spec_size(),
            old(self).wf() ==> final(self).wf(),
    {
        self.buf.set_count(0);
    }

    pub fn count(&self) -> (r: u32)
        ensures
            r == self.spec_count(),
    {
        self.buf.count()
    }

    /// Takes the newest waiting message, or `None` when nothing waits.
    pub fn pop(&mut self) -> (r: Option<UntypedMessage>)
        requires
            old(self).wf(),
        ensures
            final(self).wf(),
            final(self).inner().slots() == old(self).inner().slots(),
            final(self).inner().spec_size() == old(self).inner().spec_size(),
            old(self).pending().len() == 0 ==> r is None && final(self).pending() == old(
                self,
            ).pending(),
            old(self).pending().len() > 0 ==> r == Some(old(self).pending().last())
                && final(self).pending() == old(self).pending().drop_last(),
    {
        if self.count() == 0 {
            return None;
        }
        let buffer = self.buf.as_mut_buf();
        let start = buffer.count() as usize - 1;
        buffer.set_count(buffer.count() - 1);
        let m = buffer.data[start];
        proof {
            assert(self.pending() =~= old(self).pending().drop_last());
        }
        Some(m)
    }

    /// Takes every waiting message at once, oldest first.
    pub fn pop_all(&mut self) -> (r: &[UntypedMessage])
        requires
            old(self).wf(),
        ensures
            final(self).wf(),
            r@ == old(self).pending(),
            final(self).pending() == Seq::<UntypedMessage>::empty(),
            final(self).inner().slots() == old(self).inner().slots(),
            final(self).inner().spec_size() == old(self).inner().spec_size(),
    {
        let count = self.buf.count() as usize;
        self.buf.set_count(0);
        &self.buf.buf.data.as_slice()[0..count]
    }
}

/// An outgoing buffer of run-time capacity.
pub struct DynOutBuf {
    buf: DynSharedBuf,
}

impl DynOutBuf {
    pub closed spec fn inner(self) -> DynSharedBuf {
        self.buf
    }

    pub open spec fn spec_count(self) -> u32 {
        self.inner().spec_count()
    }

    pub open spec fn spec_size(self) -> usize {
        self.inner().spec_size()
    }

    pub open spec fn wf(self) -> bool {
        self.inner().bounded()
    }

    /// The messages waiting to be sent: the last `count` slots, newest first.
    pub open spec fn queued(self) -> Seq<UntypedMessage> {
        self.inner().slots().subrange(self.spec_size() - self.spec_count(), self.spec_size() as int)
    }

    /// An outgoing buffer of a single slot.
    pub fn null() -> (r: Result<Self, core::alloc::LayoutError>)
        ensures
            r matches Ok(b) ==> b.wf() && b.queued() == Seq::<UntypedMessage>::empty()
                && b.spec_size() == 1,
            r is Ok,
    {
        match DynSharedBuf::new(1) {
            Ok(buf) => Ok(DynOutBuf { buf }),
            Err(e) => Err(e),
        }
    }

    pub fn from_buf(buf: DynSharedBuf) -> (r: Self)
        ensures
            r.inner() == buf,
    {
        DynOutBuf { buf }
    }

    /// How many more messages fit.
    pub fn available_space(&self) -> (r: u32)
        requires
            self.wf(),
        ensures
            r == self.spec_size() - self.spec_count(),
    {
        self.buf.buf.size as u32 - self.buf.count()
    }

    pub fn count(&self) -> (r: u32)
        ensures
            r == self.spec_count(),
    {
        self.buf.count()
    }

    fn reserve(&mut self, count: u32)
        requires
            old(self).spec_count() + count <= u32::MAX,
        ensures
            final(self).spec_count() == old(self).spec_count() + count,
            final(self).inner().slots() == old(self).inner().slots(),
            final(self).spec_size() == old(self).spec_size(),
            final(self).inner().ref_buf().wf() == old(self).inner().ref_buf().wf(),
    {
        self.buf.set_count(self.buf.count() + count);
    }

    /// Queues `messages` in `count` reserved slots; `false`, and nothing
    /// changed, when fewer than `count` slots are free.
    pub fn send_many_iter_with_count(&mut self, messages: &[UntypedMessage], count: usize) -> (r:
        bool)
        requires
            old(self).wf(),
            messages@.len() <= count,
        ensures
            final(self).wf(),
            final(self).spec_size() == old(self).spec_size(),
            r == (count <= old(self).spec_size() - old(self).spec_count()),
            !r ==> *final(self) == *old(self),
            r ==> send_result(
                old(self).inner().slots(),
                old(self).spec_count() as int,
                messages@,
                count as int,
                final(self).inner().slots(),
                final(self).spec_count() as int,
            ),
    {
        if (self.available_space() as usize) < count {
            return false;
        }
        let old_count = self.buf.count();
        self.reserve(count as u32);
        let size = self.buf.buf.size;
        let start = size - self.buf.count() as usize;
        let len = messages.len();
        let mut j: usize = 0;
        while j < len
            invariant
                self.wf(),
                old(self).wf(),
                self.spec_size() == size,
                size == old(self).spec_size(),
                len == messages@.len(),
                start == size - old_count - count,
                old_count == old(self).spec_count(),
                self.spec_count() == old_count + count,
                old_count + count <= size,
                len <= count,
                j <= len,
                forall|i: int|
                    0 <= i < size ==> #[trigger] self.inner().slots()[i] == if start <= i < start
                        + j {
                        messages@[len - 1 - (i - start)]
                    } else {
                        old(self).inner().slots()[i]
                    },
            decreases len - j,
        {
            let m = messages[len - 1 - j];
            let ghost prev = self.inner().slots();
            self.buf.buf.data.set(start + j, m);
            assert(self.inner().slots() == prev.update(start + j, m));
            j = j + 1;
        }
        true
    }

    /// Queues every message of `messages`; `false`, and nothing changed, when
    /// they do not all fit.
    pub fn send_many_iter_exact(&mut self, messages: &[UntypedMessage]) -> (r: bool)
        requires
            old(self).wf(),
        ensures
            final(self).wf(),
            final(self).spec_size() == old(self).spec_size(),
            r == (messages@.len() <= old(self).spec_size() - old(self).spec_count()),
            !r ==> *final(self) == *old(self),
            r ==> final(self).queued() == messages@.reverse() + old(self).queued(),
            r ==> send_result(
                old(self).inner().slots(),
                old(self).spec_count() as int,
                messages@,
                messages@.len() as int,
                final(self).inner().slots(),
                final(self).spec_count() as int,
            ),
            r ==> final(self).spec_count() == old(self).spec_count() + messages@.len(),
    {
        let count = messages.len();
        let r = self.send_many_iter_with_count(messages, count);
        proof {
            if r {
                lemma_send_exact_queued_dyn(
                    old(self).inner().slots(),
                    old(self).spec_count() as int,
                    messages@,
                    self.inner().slots(),
                    self.spec_count() as int,
                );
            }
        }
        r
    }

    /// Queues one message; `false`, and nothing changed, when the buffer is full.
    pub fn send(&mut self, message: &UntypedMessage) -> (r: bool)
        requires
            old(self).wf(),
        ensures
            final(self).wf(),
            final(self).spec_size() == old(self).spec_size(),
            r == (old(self).spec_count() < old(self).spec_size()),
            !r ==> *final(self) == *old(self),
            r ==> final(self).queued() == seq![*message] + old(self).queued(),
            r ==> final(self).spec_count() == old(self).spec_count() + 1,
            r ==> final(self).inner().slots() == old(self).inner().slots().update(
                old(self).spec_size() - old(self).spec_count() - 1,
                *message,
            ),
    {
        self.send_untyped(message)
    }

    /// Queues one message; `false`, and nothing changed, when the buffer is full.
    pub fn send_untyped(&mut self, message: &UntypedMessage) -> (r: bool)
        requires
            old(self).wf(),
        ensures
            final(self).wf(),
            final(self).spec_size() == old(self).spec_size(),
            r == (old(self).spec_count() < old(self).spec_size()),
            !r ==> *final(self) == *old(self),
            r ==> final(self).queued() == seq![*message] + old(self).queued(),
            r ==> final(self).spec_count() == old(self).spec_count() + 1,
            r ==> final(self).inner().slots() == old(self).inner().slots().update(
                old(self).spec_size() - old(self).spec_count() - 1,
                *message,
            ),
    {
        if self.buf.count() as usize >= self.buf.buf.size {
            return false;
        }
        let ghost old_queued = self.queued();
        let size = self.buf.buf.size;
        let slot = size - self.buf.count() as usize - 1;
        self.buf.set_count(self.buf.count() + 1);
        self.buf.buf.data.set(slot, *message);
        proof {
            assert(self.queued() =~= seq![*message] + old_queued);
        }
        true
    }
}

/// Sending exactly as many messages as were reserved puts them, newest first,
/// in front of the messages already waiting.
proof fn lemma_send_exact_queued_dyn(
    slots: Seq<UntypedMessage>,
    old_count: int,
    messages: Seq<UntypedMessage>,
    new_slots: Seq<UntypedMessage>,
    new_count: int,
)
    requires
        0 <= old_count,
        old_count + messages.len() <= slots.len(),
        send_result(slots, old_count, messages, messages.len() as int, new_slots, new_count),
    ensures
        new_slots.subrange(slots.len() - new_count, slots.len() as int) == messages.reverse()
            + slots.subrange(slots.len() - old_count, slots.len() as int),
{
    assert(new_slots.subrange(slots.len() - new_count, slots.len() as int) =~= messages.reverse()
        + slots.subrange(slots.len() - old_count, slots.len() as int));
}

} // verus!
