//! The driver: the user's policy of who may talk to whom, and the machinery
//! that applies it.
use vstd::prelude::*;
use vstd::string::StrSliceExecFns;

use crate::bus::SubscriberData;
use crate::config::ValidConfig;
use crate::dispatch::{MessagePipeline, batched, dispatch_ready, dispatched};
use crate::error::BusError;
use crate::lookup::{LookupTable, SubscriberLookupData, apply_all, back_entry, forward_entry, last_write, lemma_permissions_recorded, permissions_fit};
use crate::plan::{out_counts, srcs_in_bucket};
use crate::pool::MessagePool;
use crate::subscriber::SubscriberId;

verus! {

/// The user's policy: the permissions of a new subscriber, and what to do
/// when one leaves.
pub trait BusDriver {
    /// The permissions of subscriber `id`, who just joined.
    fn on_subscribe(&mut self, id: SubscriberId) -> Vec<SubscriberLookupData>;

    /// Subscriber `id` leaves.
    fn on_unsubscribe(&mut self, id: SubscriberId);
}

/// The routing table, the dispatch machinery and the user's driver.
pub struct Driver<D> {
    lookup_table: LookupTable,
    pipeline: MessagePipeline,
    inner: D,
    answer: Ghost<Seq<SubscriberLookupData>>,
}

/// Whether every permission of `data` for `id` names entries of `lut`.
fn permissions_in_table(lut: &LookupTable, id: SubscriberId, data: &Vec<SubscriberLookupData>) -> (r:
    bool)
    requires
        lut.wf(),
    ensures
        r == permissions_fit(lut@.len() as int, lut.spec_max_groups() as int, id.spec_u8() as int, data@),
{
    let groups = lut.max_groups();
    let len = lut.get_input().len();
    let row = id.get() as usize;
    let mut k: usize = 0;
    while k < data.len()
        invariant
            lut.wf(),
            groups == lut.spec_max_groups(),
            len == lut@.len(),
            row == id.spec_u8(),
            k <= data@.len(),
            permissions_fit(len as int, groups as int, row as int, data@.take(k as int)),
        decreases data@.len() - k,
    {
        let d = data[k];
        let provider = d.provider_id.get() as usize;
        let consumer = d.consumer_group_id as usize;
        let provided = d.provider_group_id as usize;
        assert(row * groups <= 255 * 128 && provider * groups <= 255 * 128) by (nonlinear_arith)
            requires
                row <= 255,
                provider <= 255,
                groups <= 128,
        ;
        if row * groups + consumer >= len || provider * groups + provided >= len {
            proof {
                assert(!permissions_fit(len as int, groups as int, row as int, data@)) by {
                    assert(data@[k as int] == d);
                }
            }
            return false;
        }
        proof {
            assert forall|j: int| 0 <= j < k + 1 implies {
                &&& row * groups + (#[trigger] data@.take(k + 1)[j]).consumer_group_id < len
                &&& data@.take(k + 1)[j].provider_id.spec_u8() * groups
                    + data@.take(k + 1)[j].provider_group_id < len
            } by {
                if j < k {
                    assert(data@.take(k + 1)[j] == data@.take(k as int)[j]);
                }
            }
        }
        k = k + 1;
    }
    assert(data@.take(data@.len() as int) == data@);
    true
}

impl<D: BusDriver> Driver<D> {
    pub open spec fn wf(self) -> bool {
        &&& self.table().wf()
        &&& self.spec_pipeline().wf()
    }

    pub closed spec fn table(self) -> LookupTable {
        self.lookup_table
    }

    pub closed spec fn spec_pipeline(self) -> MessagePipeline {
        self.pipeline
    }

    pub closed spec fn spec_inner(self) -> D {
        self.inner
    }

    /// The permissions the user's driver gave in the last `on_subscribe`.
    pub closed spec fn spec_answer(self) -> Seq<SubscriberLookupData> {
        self.answer@
    }

    /// A driver with an empty routing table for the slots and groups of `config`.
    pub fn new(config: &ValidConfig, driver: D) -> (r: Self)
        requires
            config.wf(),
        ensures
            r.wf(),
            r.table().spec_max_groups() == config.spec_max_groups(),
            r.table().spec_max_subscribers() == config.spec_max_subscribers(),
            forall|i: int| 0 <= i < r.table()@.len() ==> r.table()@[i] == 0,
            r.spec_inner() == driver,
    {
        Driver {
            lookup_table: LookupTable::new(config),
            pipeline: MessagePipeline::new(),
            inner: driver,
            answer: Ghost(Seq::empty()),
        }
    }

    /// Asks the user's driver for the permissions of `id` and records them;
    /// when one names a group or a subscriber outside the table, the table is
    /// left unchanged and the error says so.
    pub fn on_subscribe(&mut self, id: SubscriberId) -> (r: Result<(), BusError>)
        requires
            old(self).wf(),
        ensures
            final(self).wf(),
            final(self).table().spec_max_groups() == old(self).table().spec_max_groups(),
            final(self).table().spec_max_subscribers() == old(self).table().spec_max_subscribers(),
            r is Err ==> final(self).table() == old(self).table(),
            r is Err ==> r matches Err(BusError::DriverError(_)),
            (r is Ok) == permissions_fit(
                old(self).table()@.len() as int,
                old(self).table().spec_max_groups() as int,
                id.spec_u8() as int,
                final(self).spec_answer(),
            ),
            r is Ok ==> final(self).table()@ == apply_all(
                old(self).table()@,
                old(self).table().spec_max_groups() as int,
                id.spec_u8() as int,
                final(self).spec_answer(),
            ),
            r is Ok ==> forall|k: int|
                0 <= k < final(self).spec_answer().len() && last_write(
                    old(self).table().spec_max_groups() as int,
                    id.spec_u8() as int,
                    final(self).spec_answer(),
                    k,
                    back_entry(old(self).table().spec_max_groups() as int, final(self).spec_answer()[k]),
                ) ==> #[trigger] final(self).table()@[back_entry(
                    old(self).table().spec_max_groups() as int,
                    final(self).spec_answer()[k],
                )] == final(self).spec_answer()[k].consumer_group_id,
            r is Ok ==> forall|k: int|
                0 <= k < final(self).spec_answer().len() && last_write(
                    old(self).table().spec_max_groups() as int,
                    id.spec_u8() as int,
                    final(self).spec_answer(),
                    k,
                    forward_entry(old(self).table().spec_max_groups() as int, id.spec_u8() as int, final(self).spec_answer()[k]),
                ) && back_entry(old(self).table().spec_max_groups() as int, final(self).spec_answer()[k])
                    != forward_entry(old(self).table().spec_max_groups() as int, id.spec_u8() as int, final(self).spec_answer()[k])
                    ==> #[trigger] final(self).table()@[forward_entry(
                    old(self).table().spec_max_groups() as int,
                    id.spec_u8() as int,
                    final(self).spec_answer()[k],
                )] == final(self).spec_answer()[k].provider_group_id,
            exists|data: Seq<SubscriberLookupData>|
                {
                    &&& (r is Ok) == #[trigger] permissions_fit(
                        old(self).table()@.len() as int,
                        old(self).table().spec_max_groups() as int,
                        id.spec_u8() as int,
                        data,
                    )
                    &&& r is Ok ==> final(self).table()@ == apply_all(
                        old(self).table()@,
                        old(self).table().spec_max_groups() as int,
                        id.spec_u8() as int,
                        data,
                    )
                },
    {
        let data = self.inner.on_subscribe(id);
        self.answer = Ghost(data@);
        let fits = permissions_in_table(&self.lookup_table, id, &data);
        if !fits {
            return Err(BusError::DriverError(String::from_str("permission outside of the routing table")));
        }
        proof {
            lemma_permissions_recorded(
                old(self).table()@,
                old(self).table().spec_max_groups() as int,
                id.spec_u8() as int,
                data@,
            );
        }
        self.lookup_table.add(id, data.as_slice());
        Ok(())
    }

    /// Tells the user's driver that `id` leaves and zeroes its row.
    pub fn on_unsubscribe(&mut self, id: SubscriberId)
        requires
            old(self).wf(),
            id.spec_u8() < old(self).table().spec_max_subscribers(),
        ensures
            final(self).wf(),
            final(self).table().spec_max_groups() == old(self).table().spec_max_groups(),
            final(self).table().spec_max_subscribers() == old(self).table().spec_max_subscribers(),
            final(self).table()@.len() == old(self).table()@.len(),
            forall|i: int|
                0 <= i < old(self).table()@.len() ==> #[trigger] final(self).table()@[i] == if id.spec_u8()
                    * old(self).table().spec_max_groups() <= i < (id.spec_u8() + 1) * old(
                    self,
                ).table().spec_max_groups() {
                    0
                } else {
                    old(self).table()@[i]
                },
    {
        self.inner.on_unsubscribe(id);
        self.lookup_table.zeroize(id);
    }

    /// Dispatches the messages of the senders `0..=last`.
    pub fn process_messages<S, const M: usize>(
        &mut self,
        subs: &mut Vec<SubscriberData<S, M>>,
        pool: &mut MessagePool,
        last: u8,
    )
        requires
            old(self).wf(),
            dispatch_ready(old(self).table(), old(subs)@, last as int),
            old(pool).wf(),
            old(pool)@.len() == 0,
            batched(
                old(self).table(),
                old(subs)@,
                srcs_in_bucket(out_counts(old(subs)@, last + 1), 0),
            ).len() <= old(pool).spec_capacity(),
        ensures
            final(self).wf(),
            final(self).table() == old(self).table(),
            final(self).spec_inner() == old(self).spec_inner(),
            dispatched(old(self).table(), old(subs)@, final(subs)@, last as int),
            final(pool).wf(),
            final(pool)@.len() == 0,
            final(pool).spec_capacity() == old(pool).spec_capacity(),
    {
        self.pipeline.dispatch_messages(&self.lookup_table, subs, pool, last);
    }

    pub fn get_inner(&self) -> (r: &D)
        ensures
            *r == self.spec_inner(),
    {
        &self.inner
    }

    pub fn get_inner_mut(&mut self) -> (r: &mut D)
        ensures
            *r == old(self).spec_inner(),
            final(self).spec_inner() == *final(r),
            final(self).table() == old(self).table(),
            final(self).spec_pipeline() == old(self).spec_pipeline(),
    {
        &mut self.inner
    }

    /// The routing table.
    pub fn lookup_table(&self) -> (r: &LookupTable)
        ensures
            *r == self.table(),
    {
        &self.lookup_table
    }
}

} // verus!
