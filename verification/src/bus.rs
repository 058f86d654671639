//! The bus: subscriber slots, their buffers, the routing table and the tick
//! that moves messages.
use vstd::prelude::*;

use crate::buffer::{IncBuf, OutBuf, RefBuf, RefMutBuf};
use crate::config::ValidConfig;
use crate::dispatch::{all_wf, batched, can_dispatch, dispatch_ready, dispatched, lemma_batched_bound};
use crate::driver::{BusDriver, Driver};
use crate::error::BusError;
use crate::lookup::{LookupTable, SubscriberLookupData, apply_all, permissions_fit};
use crate::plan::{lemma_bucket_lengths, lemma_bucket_members, out_counts, srcs_in_bucket};
use crate::pool::MessagePool;
use crate::subscriber::SubscriberId;
use crate::mint::{issue_effect, issue_id, issued, last_id, mint_next, mint_ok, mint_returned_count, mint_state, new_mint, recycle_effect, recycle_id, used_ids};
use idmint::StackMint;

verus! {

/// One subscriber slot: the buffers of the subscriber and the subscriber.
pub struct SubscriberData<S, const M: usize> {
    pub incoming: IncBuf<M>,
    pub outgoing: OutBuf<M>,
    pub sub: Option<S>,
}

impl<S, const M: usize> SubscriberData<S, M> {
    /// Both buffers are well formed.
    pub open spec fn wf(self) -> bool {
        self.incoming.wf() && self.outgoing.wf()
    }

    /// An empty slot.
    pub fn null() -> (r: Self)
        requires
            0 < M <= u32::MAX,
        ensures
            r.wf(),
            r.incoming.pending() == Seq::<crate::message::UntypedMessage>::empty(),
            r.outgoing.queued() == Seq::<crate::message::UntypedMessage>::empty(),
            r.sub is None,
    {
        SubscriberData { incoming: IncBuf::new(), outgoing: OutBuf::new(), sub: None }
    }

    /// The incoming buffer, for the bus to write into.
    pub fn incoming_mut(&mut self) -> (r: &mut RefMutBuf<M>)
        ensures
            *r == old(self).incoming.inner().ref_buf(),
            final(self).incoming.inner().ref_buf() == *final(r),
            final(self).outgoing == old(self).outgoing,
            final(self).sub == old(self).sub,
    {
        self.incoming.as_inner_mut().as_mut_buf()
    }

    /// The outgoing buffer, for the bus to read from.
    pub fn outgoing_mut(&mut self) -> (r: &mut RefMutBuf<M>)
        ensures
            *r == old(self).outgoing.inner().ref_buf(),
            final(self).outgoing.inner().ref_buf() == *final(r),
            final(self).incoming == old(self).incoming,
            final(self).sub == old(self).sub,
    {
        self.outgoing.as_inner_mut().as_mut_buf()
    }

    /// The count of the outgoing buffer.
    pub fn outgoing_ref(&self) -> (r: RefBuf<M>)
        ensures
            r.spec_count() == self.outgoing.spec_count(),
    {
        self.outgoing.as_inner_ref().as_ref_buf()
    }
}

/// What the bus writes through `incoming_mut` is what the subscriber reads:
/// once the incoming buffer holds the count and slots `written`, the messages
/// `pop_all` hands out are its first `count` slots, oldest first.
pub proof fn lemma_incoming_written_is_read<S, const M: usize>(
    slot: SubscriberData<S, M>,
    written: RefMutBuf<M>,
)
    requires
        slot.incoming.inner().ref_buf() == written,
    ensures
        slot.incoming.pending() == written.slots().take(written.spec_count() as int),
{
}

/// A receiver of messages: once per tick, after the dispatch, it may read
/// its incoming buffer and queue messages in its outgoing buffer.
pub trait Subscriber<const M: usize> {
    fn notify(&mut self, incoming: &mut IncBuf<M>, outgoing: &mut OutBuf<M>)
        requires
            old(incoming).wf(),
            old(outgoing).wf(),
        ensures
            final(incoming).wf(),
            final(outgoing).wf(),
    ;
}

impl<const M: usize> Subscriber<M> for () {
    fn notify(&mut self, incoming: &mut IncBuf<M>, outgoing: &mut OutBuf<M>) {
    }
}

/// The ids among `1..n` whose slot holds a subscriber, in increasing order.
pub open spec fn registered_upto<S, const M: usize>(slots: Seq<SubscriberData<S, M>>, n: int) -> Seq<u8>
    decreases n,
{
    if n <= 1 {
        Seq::empty()
    } else if slots[n - 1].sub is Some {
        registered_upto(slots, n - 1).push((n - 1) as u8)
    } else {
        registered_upto(slots, n - 1)
    }
}

/// The ids `registered_upto` lists are exactly those of `1..n` whose slot
/// holds a subscriber, each once, in increasing order: a round of
/// notifications reaches every registered subscriber of the range once.
pub proof fn lemma_registered_exactly<S, const M: usize>(slots: Seq<SubscriberData<S, M>>, n: int)
    requires
        n <= slots.len(),
        n <= 256,
    ensures
        forall|k: int|
            0 <= k < registered_upto(slots, n).len() ==> 1 <= #[trigger] registered_upto(slots, n)[k] < n
                && slots[registered_upto(slots, n)[k] as int].sub is Some,
        forall|i: int|
            1 <= i < n && (#[trigger] slots[i]).sub is Some ==> registered_upto(slots, n).contains(i as u8),
        forall|k: int, l: int|
            0 <= k < l < registered_upto(slots, n).len() ==> registered_upto(slots, n)[k] < registered_upto(
                slots,
                n,
            )[l],
    decreases n,
{
    if n > 1 {
        lemma_registered_exactly(slots, n - 1);
        let prev = registered_upto(slots, n - 1);
        if slots[n - 1].sub is Some {
            let r = prev.push((n - 1) as u8);
            assert(r[prev.len() as int] == (n - 1) as u8);
            assert forall|i: int| 1 <= i < n && (#[trigger] slots[i]).sub is Some implies r.contains(i as u8) by {
                if i < n - 1 {
                    let k = choose|k: int| 0 <= k < prev.len() && prev[k] == i as u8;
                    assert(r[k] == i as u8);
                } else {
                    assert(r[prev.len() as int] == i as u8);
                }
            }
        }
    }
}

/// Which slots hold a subscriber is all that `registered_upto` reads.
pub proof fn lemma_registered_same<S, const M: usize>(
    a: Seq<SubscriberData<S, M>>,
    b: Seq<SubscriberData<S, M>>,
    n: int,
)
    requires
        n <= a.len(),
        n <= b.len(),
        forall|i: int| 0 <= i < n ==> (#[trigger] a[i].sub is Some) == b[i].sub is Some,
    ensures
        registered_upto(a, n) == registered_upto(b, n),
    decreases n,
{
    if n > 1 {
        lemma_registered_same(a, b, n - 1);
    }
}

/// The slots after the subscribers of `1..=last` were notified: each of them
/// keeps its subscriber (whose state and buffers are its own business) and
/// well-formed buffers; every other slot is as it was.
pub open spec fn notified<S, const M: usize>(
    before: Seq<SubscriberData<S, M>>,
    after: Seq<SubscriberData<S, M>>,
    last: int,
) -> bool {
    &&& after.len() == before.len()
    &&& forall|i: int|
        0 <= i < before.len() && (i == 0 || i > last || before[i].sub is None) ==> #[trigger] after[i]
            == before[i]
    &&& forall|i: int|
        1 <= i <= last && i < before.len() ==> (#[trigger] after[i].sub is Some) == before[i].sub is Some
            && after[i].wf()
}

/// One tick on the slots `before` with the routing table `table`: the
/// messages of the senders `0..=last` are dispatched when they can all be
/// (else the slots stay), then the subscribers of `1..=last` are notified.
pub open spec fn ticked<S, const M: usize>(
    table: LookupTable,
    before: Seq<SubscriberData<S, M>>,
    after: Seq<SubscriberData<S, M>>,
    last: int,
) -> bool {
    exists|mid: Seq<SubscriberData<S, M>>|
        {
            &&& (dispatch_ready(table, before, last) ==> dispatched(table, before, mid, last))
            &&& (!dispatch_ready(table, before, last) ==> mid == before)
            &&& #[trigger] notified(mid, after, last)
        }
}

/// The message bus: a slot per subscriber with its buffers, the driver with
/// the routing table, the shared pool and the allocator of ids.
pub struct MessageBus<D, S, const M: usize> {
    config: ValidConfig,
    pool: MessagePool,
    subscribers: Vec<SubscriberData<S, M>>,
    mint: StackMint,
    driver: Driver<D>,
    notified: Ghost<Seq<u8>>,
}

impl<D: BusDriver, S: Subscriber<M>, const M: usize> MessageBus<D, S, M> {
    pub closed spec fn slots(self) -> Seq<SubscriberData<S, M>> {
        self.subscribers@
    }

    pub closed spec fn spec_config(self) -> ValidConfig {
        self.config
    }

    pub closed spec fn table(self) -> LookupTable {
        self.driver.table()
    }

    pub closed spec fn spec_driver(self) -> D {
        self.driver.spec_inner()
    }

    /// The permissions the user's driver gave when it was last asked.
    pub closed spec fn driver_answer(self) -> Seq<SubscriberLookupData> {
        self.driver.spec_answer()
    }

    /// The slots, the table and the pool agree with the configuration.
    pub closed spec fn wf(self) -> bool {
        &&& self.config.wf()
        &&& 0 < M <= self.config.spec_max_messages()
        &&& self.driver.wf()
        &&& self.driver.table().spec_max_subscribers() == self.config.spec_max_subscribers()
        &&& self.driver.table().spec_max_groups() == self.config.spec_max_groups()
        &&& self.subscribers@.len() == self.config.spec_max_subscribers()
        &&& all_wf(self.subscribers@)
        &&& self.pool.wf()
        &&& self.pool@.len() == 0
        &&& self.pool.spec_capacity() == self.config.spec_max_subscribers()
            * self.config.spec_max_messages()
        &&& mint_ok(self.mint)
        &&& mint_returned_count(self.mint) == 0 ==> forall|i: int|
            mint_next(self.mint) <= i < self.subscribers@.len() ==> (#[trigger] self.subscribers@[i]).sub is None
    }

    /// The ids whose subscribers the last round of notifications reached, in
    /// the order they were notified.
    pub closed spec fn notify_log(self) -> Seq<u8> {
        self.notified@
    }

    /// The allocator of ids.
    pub closed spec fn spec_mint(self) -> StackMint {
        self.mint
    }

    /// The id the mint gives the next subscriber, if it has one.
    pub open spec fn next_id(self) -> Option<u8> {
        issued(self.spec_mint())
    }

    /// The mint issues an id below the number of slots whose slot is free.
    pub open spec fn has_free_id(self) -> bool {
        &&& self.next_id() is Some
        &&& (self.next_id().unwrap() as int) < self.slots().len()
        &&& self.slots()[self.next_id().unwrap() as int].sub is None
    }

    /// The state of the mint once a new subscriber was refused for want of a
    /// free id: an id at or past the slots is given back, and an id whose slot
    /// is taken leaves the mint as it was.
    pub open spec fn mint_after_refusal(self) -> (u8, u8, Set<u8>) {
        if self.next_id() is Some && (self.next_id().unwrap() as int) >= self.slots().len() {
            recycle_effect(issue_effect(mint_state(self.spec_mint())), self.next_id().unwrap())
        } else {
            mint_state(self.spec_mint())
        }
    }

    /// A bus with empty slots for the configuration and an empty routing table.
    pub fn new(config: ValidConfig, driver: D) -> (r: Self)
        requires
            config.wf(),
            0 < M <= config.spec_max_messages(),
        ensures
            r.wf(),
            r.spec_config() == config,
            r.spec_driver() == driver,
            forall|i: int| 0 <= i < r.slots().len() ==> (#[trigger] r.slots()[i]).sub is None,
            forall|i: int| 0 <= i < r.slots().len() ==> (#[trigger] r.slots()[i]).incoming.pending().len() == 0,
            forall|i: int| 0 <= i < r.slots().len() ==> (#[trigger] r.slots()[i]).outgoing.queued().len() == 0,
    {
        let driver = Driver::new(&config, driver);
        let n = config.max_subscribers().get() as usize;
        let mut subscribers: Vec<SubscriberData<S, M>> = Vec::new();
        let mut i: usize = 0;
        while i < n
            invariant
                i <= n,
                0 < M <= config.spec_max_messages(),
                config.wf(),
                subscribers@.len() == i,
                forall|j: int| 0 <= j < i ==> (#[trigger] subscribers@[j]).wf(),
                forall|j: int| 0 <= j < i ==> (#[trigger] subscribers@[j]).sub is None,
                forall|j: int| 0 <= j < i ==> (#[trigger] subscribers@[j]).incoming.pending().len() == 0,
                forall|j: int| 0 <= j < i ==> (#[trigger] subscribers@[j]).outgoing.queued().len() == 0,
            decreases n - i,
        {
            subscribers.push(SubscriberData::null());
            i = i + 1;
        }
        MessageBus {
            config,
            pool: MessagePool::new(&config),
            subscribers,
            mint: new_mint(),
            driver,
            notified: Ghost(Seq::empty()),
        }
    }

    /// A fresh id below `max_subscribers`, or `PoolExhausted`.
    fn new_id(&mut self) -> (r: Result<SubscriberId, BusError>)
        requires
            old(self).wf(),
        ensures
            final(self).wf(),
            final(self).slots() == old(self).slots(),
            final(self).table() == old(self).table(),
            final(self).spec_driver() == old(self).spec_driver(),
            final(self).spec_config() == old(self).spec_config(),
            r matches Ok(id) ==> (id.spec_u8() as int) < old(self).slots().len() && id.spec_u8()
                <= mint_next(final(self).mint),
            r matches Err(e) ==> e == (BusError::PoolExhausted {
                max: old(self).spec_config().spec_max_subscribers(),
            }),
            r is Ok <==> old(self).has_free_id(),
            r matches Ok(id) ==> id.spec_u8() == old(self).next_id().unwrap() && mint_state(final(self).mint)
                == issue_effect(mint_state(old(self).mint)),
            r is Err ==> mint_state(final(self).mint) == old(self).mint_after_refusal(),
    {
        let max = self.config.max_subscribers().get();
        let Some(id) = issue_id(&mut self.mint) else {
            return Err(BusError::PoolExhausted { max });
        };
        if id == 0 || id >= max {
            if id != 0 {
                recycle_id(&mut self.mint, id);
            }
            return Err(BusError::PoolExhausted { max });
        }
        if self.subscribers[id as usize].sub.is_some() {
            return Err(BusError::PoolExhausted { max });
        }
        Ok(SubscriberId::new(id))
    }

    /// Registers `sub` with the buffers `inc` and `out` under the id the mint
    /// issues: the driver's permissions for it are recorded, then it fills its
    /// slot. An id at or past the slots, or one whose slot is taken (the mint
    /// may issue an id in use once ids were given back), is refused with
    /// `PoolExhausted`; no subscriber is ever overwritten.
    pub fn add_subscriber_with(&mut self, inc: IncBuf<M>, out: OutBuf<M>, sub: S) -> (r: Result<
        SubscriberId,
        BusError,
    >)
        requires
            old(self).wf(),
            inc.wf(),
            out.wf(),
        ensures
            final(self).wf(),
            final(self).spec_config() == old(self).spec_config(),
            final(self).slots().len() == old(self).slots().len(),
            r matches Ok(id) ==> {
                &&& 0 < id.spec_u8() < old(self).slots().len()
                &&& final(self).slots()[id.spec_u8() as int] == (SubscriberData {
                    incoming: inc,
                    outgoing: out,
                    sub: Some(sub),
                })
                &&& forall|i: int|
                    0 <= i < old(self).slots().len() && i != id.spec_u8() ==> #[trigger] final(self).slots()[i]
                        == old(self).slots()[i]
            },
            r is Err ==> final(self).slots() == old(self).slots(),
            r matches Err(e) ==> (e == (BusError::PoolExhausted {
                max: old(self).spec_config().spec_max_subscribers(),
            }) || (e is DriverError)),
            r matches Err(BusError::PoolExhausted { .. }) <==> !old(self).has_free_id(),
            r matches Ok(id) ==> id.spec_u8() == old(self).next_id().unwrap() && mint_state(final(self).spec_mint())
                == issue_effect(mint_state(old(self).spec_mint())),
            r matches Ok(id) ==> old(self).slots()[id.spec_u8() as int].sub is None,
            r matches Ok(id) ==> final(self).table()@ == apply_all(
                old(self).table()@,
                old(self).table().spec_max_groups() as int,
                id.spec_u8() as int,
                final(self).driver_answer(),
            ),
            r matches Err(BusError::DriverError(_)) ==> !permissions_fit(
                old(self).table()@.len() as int,
                old(self).table().spec_max_groups() as int,
                old(self).next_id().unwrap() as int,
                final(self).driver_answer(),
            ),
            r matches Ok(id) ==> exists|data: Seq<SubscriberLookupData>|
                #[trigger] permissions_fit(
                    old(self).table()@.len() as int,
                    old(self).table().spec_max_groups() as int,
                    id.spec_u8() as int,
                    data,
                ) && final(self).table()@ == apply_all(
                    old(self).table()@,
                    old(self).table().spec_max_groups() as int,
                    id.spec_u8() as int,
                    data,
                ),
            r matches Err(BusError::DriverError(_)) ==> final(self).table() == old(self).table() && mint_state(
                final(self).spec_mint(),
            ) == recycle_effect(
                issue_effect(mint_state(old(self).spec_mint())),
                old(self).next_id().unwrap(),
            ),
            r matches Err(BusError::PoolExhausted { .. }) ==> {
                &&& final(self).table() == old(self).table()
                &&& final(self).spec_driver() == old(self).spec_driver()
                &&& mint_state(final(self).spec_mint()) == old(self).mint_after_refusal()
            },
    {
        let id = self.new_id()?;
        proof {
            use_type_invariant(id);
        }
        let idx = id.as_usize();
        let registered = self.driver.on_subscribe(id);
        if let Err(e) = registered {
            recycle_id(&mut self.mint, id.as_u8());
            return Err(e);
        }
        self.subscribers.set(idx, SubscriberData { incoming: inc, outgoing: out, sub: Some(sub) });
        Ok(id)
    }

    /// Registers `sub` with fresh empty buffers under a fresh id.
    pub fn add_subscriber(&mut self, sub: S) -> (r: Result<SubscriberId, BusError>)
        requires
            old(self).wf(),
        ensures
            final(self).wf(),
            final(self).spec_config() == old(self).spec_config(),
            final(self).slots().len() == old(self).slots().len(),
            r matches Ok(id) ==> {
                &&& 0 < id.spec_u8() < old(self).slots().len()
                &&& final(self).slots()[id.spec_u8() as int].sub == Some(sub)
                &&& final(self).slots()[id.spec_u8() as int].wf()
                &&& final(self).slots()[id.spec_u8() as int].incoming.pending().len() == 0
                &&& final(self).slots()[id.spec_u8() as int].outgoing.queued().len() == 0
                &&& forall|i: int|
                    0 <= i < old(self).slots().len() && i != id.spec_u8() ==> #[trigger] final(self).slots()[i]
                        == old(self).slots()[i]
            },
            r is Err ==> final(self).slots() == old(self).slots(),
            r matches Err(e) ==> (e == (BusError::PoolExhausted {
                max: old(self).spec_config().spec_max_subscribers(),
            }) || (e is DriverError)),
            r matches Err(BusError::PoolExhausted { .. }) <==> !old(self).has_free_id(),
            r matches Ok(id) ==> id.spec_u8() == old(self).next_id().unwrap() && mint_state(final(self).spec_mint())
                == issue_effect(mint_state(old(self).spec_mint())),
            r matches Ok(id) ==> old(self).slots()[id.spec_u8() as int].sub is None,
            r matches Ok(id) ==> final(self).table()@ == apply_all(
                old(self).table()@,
                old(self).table().spec_max_groups() as int,
                id.spec_u8() as int,
                final(self).driver_answer(),
            ),
            r matches Err(BusError::DriverError(_)) ==> !permissions_fit(
                old(self).table()@.len() as int,
                old(self).table().spec_max_groups() as int,
                old(self).next_id().unwrap() as int,
                final(self).driver_answer(),
            ),
            r matches Ok(id) ==> exists|data: Seq<SubscriberLookupData>|
                #[trigger] permissions_fit(
                    old(self).table()@.len() as int,
                    old(self).table().spec_max_groups() as int,
                    id.spec_u8() as int,
                    data,
                ) && final(self).table()@ == apply_all(
                    old(self).table()@,
                    old(self).table().spec_max_groups() as int,
                    id.spec_u8() as int,
                    data,
                ),
            r matches Err(BusError::DriverError(_)) ==> final(self).table() == old(self).table() && mint_state(
                final(self).spec_mint(),
            ) == recycle_effect(
                issue_effect(mint_state(old(self).spec_mint())),
                old(self).next_id().unwrap(),
            ),
            r matches Err(BusError::PoolExhausted { .. }) ==> {
                &&& final(self).table() == old(self).table()
                &&& final(self).spec_driver() == old(self).spec_driver()
                &&& mint_state(final(self).spec_mint()) == old(self).mint_after_refusal()
            },
    {
        proof {
            self.lemma_buffers_fit();
        }
        let inc = IncBuf::new();
        let out = OutBuf::new();
        self.add_subscriber_with(inc, out, sub)
    }

    /// `M` is a capacity the buffers can have.
    proof fn lemma_buffers_fit(self)
        requires
            self.wf(),
        ensures
            0 < M <= u32::MAX,
    {
    }

    /// Unregisters the subscriber of `id` and hands it back: the driver is told,
    /// the row of `id` in the routing table is zeroed and the id returns to the
    /// mint.
    pub fn remove_subscriber(&mut self, id: SubscriberId) -> (r: Result<S, BusError>)
        requires
            old(self).wf(),
        ensures
            final(self).wf(),
            final(self).spec_config() == old(self).spec_config(),
            final(self).slots().len() == old(self).slots().len(),
            (id.spec_u8() as int) >= old(self).slots().len() ==> r == Err::<S, BusError>(
                BusError::InvalidSubscriberId,
            ) && final(self).slots() == old(self).slots(),
            (id.spec_u8() as int) < old(self).slots().len() && old(self).slots()[id.spec_u8() as int].sub
                is None ==> r == Err::<S, BusError>(BusError::SubscriberNotRegistered) && final(self).slots()
                == old(self).slots(),
            r is Err ==> {
                &&& final(self).table() == old(self).table()
                &&& final(self).spec_mint() == old(self).spec_mint()
                &&& final(self).spec_driver() == old(self).spec_driver()
            },
            r is Ok ==> mint_state(final(self).spec_mint()) == if id.spec_u8() <= mint_next(old(self).spec_mint()) {
                recycle_effect(mint_state(old(self).spec_mint()), id.spec_u8())
            } else {
                mint_state(old(self).spec_mint())
            },
            (id.spec_u8() as int) < old(self).slots().len() && old(self).slots()[id.spec_u8() as int].sub
                is Some ==> {
                &&& r == Ok::<S, BusError>(old(self).slots()[id.spec_u8() as int].sub.unwrap())
                &&& final(self).slots()[id.spec_u8() as int].sub is None
                &&& final(self).slots()[id.spec_u8() as int].incoming == old(self).slots()[id.spec_u8() as int].incoming
                &&& final(self).slots()[id.spec_u8() as int].outgoing == old(self).slots()[id.spec_u8() as int].outgoing
                &&& forall|i: int|
                    0 <= i < old(self).slots().len() && i != id.spec_u8() ==> #[trigger] final(self).slots()[i]
                        == old(self).slots()[i]
                &&& forall|g: int|
                    0 <= g < old(self).table().spec_max_groups() ==> #[trigger] final(self).table().entry(
                        id.spec_u8() as int,
                        g,
                    ) == 0
            },
    {
        let idx = id.as_usize();
        if idx >= self.subscribers.len() {
            return Err(BusError::InvalidSubscriberId);
        }
        let taken = self.subscribers[idx].sub.take();
        let Some(sub) = taken else {
            return Err(BusError::SubscriberNotRegistered);
        };
        let ghost table = self.driver.table();
        self.driver.on_unsubscribe(id);
        proof {
            assert forall|g: int| 0 <= g < table.spec_max_groups() implies #[trigger] self.driver.table().entry(
                id.spec_u8() as int,
                g,
            ) == 0 by {
                let k = id.spec_u8() * table.spec_max_groups() + g;
                assert(id.spec_u8() * table.spec_max_groups() + table.spec_max_groups() == (id.spec_u8() + 1) * table.spec_max_groups()) by (nonlinear_arith);
                assert((id.spec_u8() + 1) * table.spec_max_groups() <= table.spec_max_subscribers() * table.spec_max_groups()) by (nonlinear_arith)
                    requires
                        id.spec_u8() < table.spec_max_subscribers(),
                ;
                assert(0 <= k < table@.len());
            }
        }
        proof {
            use_type_invariant(id);
        }
        if id.as_u8() - 1 <= last_id(&self.mint) {
            recycle_id(&mut self.mint, id.as_u8());
        }
        Ok(sub)
    }

    /// Asks the driver again for the permissions of `id` and records them:
    /// with the permissions the driver gives, the call succeeds exactly when
    /// they all name entries of the routing table, and then they are applied
    /// to it; otherwise the table stays and the error is the driver's.
    pub fn update_lookup_table(&mut self, id: SubscriberId) -> (r: Result<(), BusError>)
        requires
            old(self).wf(),
        ensures
            final(self).wf(),
            final(self).spec_config() == old(self).spec_config(),
            final(self).slots() == old(self).slots(),
            final(self).spec_mint() == old(self).spec_mint(),
            final(self).table().spec_max_groups() == old(self).table().spec_max_groups(),
            final(self).table().spec_max_subscribers() == old(self).table().spec_max_subscribers(),
            r is Err ==> final(self).table() == old(self).table(),
            r is Err ==> r matches Err(BusError::DriverError(_)),
            (r is Ok) == permissions_fit(
                old(self).table()@.len() as int,
                old(self).table().spec_max_groups() as int,
                id.spec_u8() as int,
                final(self).driver_answer(),
            ),
            r is Ok ==> final(self).table()@ == apply_all(
                old(self).table()@,
                old(self).table().spec_max_groups() as int,
                id.spec_u8() as int,
                final(self).driver_answer(),
            ),
            exists|data: Seq<SubscriberLookupData>|
                {
                    &&& (r is Ok) == #[trigger] permissions_fit(
                        old(self).table()@.len() as int,
                        old(self).table().spec_max_groups() as int,
                        id.spec_u8() as int,
                        data,
                    )
                    &&& r is Ok ==> final(self).table()@ == apply_all(
                        old(self).table()@,
                        old(self).table().spec_max_groups() as int,
                        id.spec_u8() as int,
                        data,
                    )
                },
    {
        self.driver.on_subscribe(id)
    }

    /// The last slot the mint has handed out, bounded by the last slot.
    pub closed spec fn last_slot(self) -> int {
        if mint_next(self.mint) - 1 > self.subscribers@.len() - 1 {
            self.subscribers@.len() - 1
        } else {
            mint_next(self.mint) - 1
        }
    }

    /// The range a tick dispatches and notifies ends at the highest id the
    /// mint has handed out (its next value less one, not the number of ids in
    /// use), bounded by the last slot; while no id was given back, every
    /// registered subscriber lies in that range.
    pub proof fn lemma_range_covers_registered(self)
        requires
            self.wf(),
        ensures
            self.last_slot() == if mint_next(self.spec_mint()) - 1 > self.slots().len() - 1 {
                self.slots().len() - 1
            } else {
                mint_next(self.spec_mint()) - 1
            },
            0 <= self.last_slot() < self.slots().len(),
            mint_returned_count(self.spec_mint()) == 0 ==> forall|i: int|
                0 <= i < self.slots().len() && (#[trigger] self.slots()[i]).sub is Some ==> i <= self.last_slot(),
    {
    }

    /// The last slot the mint has handed out, bounded by the number of slots.
    fn subscriber_range(&self) -> (r: u8)
        requires
            self.wf(),
        ensures
            (r as int) < self.slots().len(),
            r == self.last_slot(),
    {
        let last = last_id(&self.mint);
        let max = self.subscribers.len() - 1;
        if last as usize > max {
            max as u8
        } else {
            last
        }
    }

    /// Dispatches the messages queued by the senders `0..=last`, where `last`
    /// is the highest id handed out; returns whether it did and `last`. When a
    /// queued message names a group outside the routing table or a receiver
    /// outside the slots, or a receiver lacks room, nothing is dispatched.
    pub fn dispatch(&mut self) -> (r: (bool, u8))
        requires
            old(self).wf(),
        ensures
            final(self).wf(),
            final(self).spec_config() == old(self).spec_config(),
            final(self).table() == old(self).table(),
            final(self).spec_mint() == old(self).spec_mint(),
            final(self).spec_driver() == old(self).spec_driver(),
            final(self).slots().len() == old(self).slots().len(),
            (r.1 as int) < old(self).slots().len(),
            r.1 == old(self).last_slot(),
            r.1 == if mint_next(old(self).spec_mint()) - 1 > old(self).slots().len() - 1 {
                old(self).slots().len() - 1
            } else {
                mint_next(old(self).spec_mint()) - 1
            },
            r.0 == dispatch_ready(old(self).table(), old(self).slots(), r.1 as int),
            r.0 ==> dispatched(old(self).table(), old(self).slots(), final(self).slots(), r.1 as int),
            !r.0 ==> final(self).slots() == old(self).slots(),
    {
        let last = self.subscriber_range();
        proof {
            self.lemma_buffers_fit();
        }
        let ready = can_dispatch(self.driver.lookup_table(), &self.subscribers, last);
        if ready {
            proof {
                let subs = self.subscribers@;
                let n = last + 1;
                let counts = out_counts(subs, n);
                let busy = srcs_in_bucket(counts, 0);
                lemma_bucket_lengths(counts);
                lemma_bucket_members(counts, 0);
                assert forall|j: int| 0 <= j < busy.len() implies (#[trigger] busy[j] as int) < subs.len() by {}
                lemma_batched_bound(self.driver.table(), subs, busy);
                assert(busy.len() * M <= subs.len() * self.config.spec_max_messages()) by (nonlinear_arith)
                    requires
                        busy.len() <= subs.len(),
                        M <= self.config.spec_max_messages(),
                ;
            }
            self.driver.process_messages(&mut self.subscribers, &mut self.pool, last);
        }
        (ready, last)
    }

    /// Lets every registered subscriber of the slots `1..=last` read and write
    /// its buffers.
    pub fn notify_all(&mut self, last: u8)
        requires
            old(self).wf(),
            (last as int) < old(self).slots().len(),
        ensures
            final(self).wf(),
            final(self).spec_config() == old(self).spec_config(),
            final(self).table() == old(self).table(),
            final(self).spec_mint() == old(self).spec_mint(),
            final(self).spec_driver() == old(self).spec_driver(),
            notified(old(self).slots(), final(self).slots(), last as int),
            final(self).notify_log() == registered_upto(old(self).slots(), last + 1),
    {
        self.notified = Ghost(Seq::empty());
        let mut i: usize = 1;
        while i <= last as usize
            invariant
                self.wf(),
                self.spec_config() == old(self).spec_config(),
                self.table() == old(self).table(),
                self.spec_mint() == old(self).spec_mint(),
                self.spec_driver() == old(self).spec_driver(),
                (last as int) < self.slots().len(),
                1 <= i <= last + 1,
                notified(old(self).slots(), self.slots(), i - 1),
                self.notify_log() == registered_upto(old(self).slots(), i as int),
            decreases last + 1 - i,
        {
            let ghost before = self.subscribers@;
            let taken = self.subscribers[i].sub.take();
            if let Some(mut sub) = taken {
                let slot = &mut self.subscribers[i];
                sub.notify(&mut slot.incoming, &mut slot.outgoing);
                slot.sub = Some(sub);
                self.notified = Ghost(self.notified@.push(i as u8));
            }
            proof {
                assert forall|j: int| 0 <= j < self.subscribers@.len() implies (#[trigger] self.subscribers@[j]).wf() by {}
            }
            i = i + 1;
        }
    }

    /// One round of the bus: dispatch, then let the subscribers react; returns
    /// whether the dispatch took place.
    pub fn tick(&mut self) -> (r: bool)
        requires
            old(self).wf(),
        ensures
            final(self).wf(),
            final(self).spec_config() == old(self).spec_config(),
            final(self).table() == old(self).table(),
            final(self).spec_mint() == old(self).spec_mint(),
            final(self).spec_driver() == old(self).spec_driver(),
            r == dispatch_ready(old(self).table(), old(self).slots(), old(self).last_slot()),
            ticked(old(self).table(), old(self).slots(), final(self).slots(), old(self).last_slot()),
            final(self).notify_log() == registered_upto(old(self).slots(), old(self).last_slot() + 1),
    {
        let (ready, last) = self.dispatch();
        let ghost mid = self.subscribers@;
        proof {
            lemma_registered_same(mid, old(self).slots(), last + 1);
        }
        self.notify_all(last);
        assert(notified(mid, self.slots(), last as int));
        ready
    }

    /// Two rounds of the bus.
    pub fn full_tick(&mut self)
        requires
            old(self).wf(),
        ensures
            final(self).wf(),
            final(self).spec_config() == old(self).spec_config(),
            final(self).table() == old(self).table(),
            final(self).spec_mint() == old(self).spec_mint(),
            final(self).spec_driver() == old(self).spec_driver(),
            exists|mid: Seq<SubscriberData<S, M>>|
                #[trigger] ticked(old(self).table(), old(self).slots(), mid, old(self).last_slot())
                    && ticked(old(self).table(), mid, final(self).slots(), old(self).last_slot()),
    {
        self.tick();
        let ghost mid = self.subscribers@;
        self.tick();
        assert(ticked(old(self).table(), old(self).slots(), mid, old(self).last_slot()));
    }

    /// The number of registered subscribers, as the mint counts them: the
    /// values in use less the reserved 0.
    pub fn subscribers(&self) -> (r: u8)
        requires
            self.wf(),
        ensures
            r == mint_next(self.spec_mint()) - mint_returned_count(self.spec_mint()) - 1,
    {
        used_ids(&self.mint) - 1
    }

    pub fn get_driver(&self) -> (r: &D)
        ensures
            *r == self.spec_driver(),
    {
        self.driver.get_inner()
    }

    pub fn get_driver_mut(&mut self) -> (r: &mut D)
        ensures
            *r == old(self).spec_driver(),
            final(self).spec_driver() == *final(r),
            final(self).table() == old(self).table(),
            final(self).slots() == old(self).slots(),
            final(self).spec_config() == old(self).spec_config(),
    {
        self.driver.get_inner_mut()
    }

    /// The slot of `id`.
    pub fn slot(&self, id: usize) -> (r: &SubscriberData<S, M>)
        requires
            id < self.slots().len(),
        ensures
            *r == self.slots()[id as int],
    {
        &self.subscribers[id]
    }
}

} // verus!
