//! The routing table: which group of a receiver a group of a sender reaches.
//!
//! Row `id` of the table belongs to subscriber `id`; column `g` of that row
//! holds the group that messages `id` sends in its group `g` arrive in, or 0
//! when `id` may not send in `g`.
use vstd::prelude::*;

use crate::config::ValidConfig;
use crate::subscriber::SubscriberId;

verus! {

/// One permission: the subscriber that registers, in its `consumer_group_id`,
/// talks to `provider_id` in `provider_group_id`.
#[derive(Debug, Clone, Copy)]
pub struct SubscriberLookupData {
    pub consumer_group_id: u8,
    pub provider_group_id: u8,
    pub provider_id: SubscriberId,
}

/// The table of `max_subscribers` rows of `max_groups` entries.
#[derive(Debug)]
pub struct LookupTable {
    input: Vec<u8>,
    max_groups: usize,
    max_subscribers: usize,
}

/// `table` with entry `row * groups + column` set to `value`.
pub open spec fn set_entry(table: Seq<u8>, groups: int, row: int, column: int, value: u8) -> Seq<
    u8,
> {
    table.update(row * groups + column, value)
}

/// `table` after one permission of subscriber `id`: its own entry and the
/// entry of the provider that points back.
pub open spec fn apply_one(table: Seq<u8>, groups: int, id: int, data: SubscriberLookupData) -> Seq<
    u8,
> {
    let first = set_entry(table, groups, id, data.consumer_group_id as int, data.provider_group_id);
    set_entry(
        first,
        groups,
        data.provider_id.spec_u8() as int,
        data.provider_group_id as int,
        data.consumer_group_id,
    )
}

/// `table` after the permissions `data` of subscriber `id`, in order.
pub open spec fn apply_all(table: Seq<u8>, groups: int, id: int, data: Seq<SubscriberLookupData>) -> Seq<
    u8,
>
    decreases data.len(),
{
    if data.len() == 0 {
        table
    } else {
        apply_one(apply_all(table, groups, id, data.drop_last()), groups, id, data.last())
    }
}

/// Every permission of `data` for `id` names entries inside a table of `len`:
/// the entry `id * groups + consumer group` and the entry back from the
/// provider, `provider * groups + provider group`.
pub open spec fn permissions_fit(len: int, groups: int, id: int, data: Seq<SubscriberLookupData>) -> bool {
    forall|k: int|
        0 <= k < data.len() ==> {
            &&& id * groups + (#[trigger] data[k]).consumer_group_id < len
            &&& data[k].provider_id.spec_u8() * groups + data[k].provider_group_id < len
        }
}

/// The entry that permission `d` of subscriber `id` sets to its provider
/// group: row `id`, column of its consumer group.
pub open spec fn forward_entry(groups: int, id: int, d: SubscriberLookupData) -> int {
    id * groups + d.consumer_group_id
}

/// The entry that permission `d` sets to its consumer group: row of its
/// provider, column of its provider group.
pub open spec fn back_entry(groups: int, d: SubscriberLookupData) -> int {
    d.provider_id.spec_u8() * groups + d.provider_group_id
}

/// Permission `d` of subscriber `id` writes entry `x`.
pub open spec fn writes_entry(groups: int, id: int, d: SubscriberLookupData, x: int) -> bool {
    forward_entry(groups, id, d) == x || back_entry(groups, d) == x
}

/// None of the permissions after the `k`-th writes entry `x`.
pub open spec fn last_write(groups: int, id: int, data: Seq<SubscriberLookupData>, k: int, x: int) -> bool {
    forall|j: int| k < j < data.len() ==> !#[trigger] writes_entry(groups, id, data[j], x)
}

/// Recording the permissions of `id` records every one of them, in both
/// directions: for each permission, its forward entry holds its provider group
/// and its back entry holds its consumer group, unless a later permission (or,
/// for the forward entry, its own back entry) writes the same entry again;
/// an entry that no permission names keeps its value.
pub proof fn lemma_permissions_recorded(table: Seq<u8>, groups: int, id: int, data: Seq<SubscriberLookupData>)
    requires
        0 <= id,
        0 <= groups,
        permissions_fit(table.len() as int, groups, id, data),
    ensures
        apply_all(table, groups, id, data).len() == table.len(),
        forall|k: int|
            0 <= k < data.len() && last_write(groups, id, data, k, forward_entry(groups, id, data[k]))
                && back_entry(groups, data[k]) != forward_entry(groups, id, data[k]) ==> #[trigger] apply_all(
                table,
                groups,
                id,
                data,
            )[forward_entry(groups, id, data[k])] == data[k].provider_group_id,
        forall|k: int|
            0 <= k < data.len() && last_write(groups, id, data, k, back_entry(groups, data[k])) ==> #[trigger] apply_all(
                table,
                groups,
                id,
                data,
            )[back_entry(groups, data[k])] == data[k].consumer_group_id,
        forall|x: int|
            0 <= x < table.len() && (forall|j: int| 0 <= j < data.len() ==> !#[trigger] writes_entry(groups, id, data[j], x))
                ==> #[trigger] apply_all(table, groups, id, data)[x] == table[x],
    decreases data.len(),
{
    if data.len() > 0 {
        let init = data.drop_last();
        let d = data.last();
        let n = data.len() - 1;
        assert(permissions_fit(table.len() as int, groups, id, init)) by {
            assert forall|k: int| 0 <= k < init.len() implies {
                &&& id * groups + (#[trigger] init[k]).consumer_group_id < table.len()
                &&& init[k].provider_id.spec_u8() * groups + init[k].provider_group_id < table.len()
            } by {
                assert(init[k] == data[k]);
            }
        }
        lemma_permissions_recorded(table, groups, id, init);
        let prev = apply_all(table, groups, id, init);
        let f = forward_entry(groups, id, d);
        let b = back_entry(groups, d);
        assert(data[n] == d);
        assert(0 <= id * groups) by (nonlinear_arith)
            requires
                0 <= id,
                0 <= groups,
        ;
        assert(0 <= d.provider_id.spec_u8() * groups) by (nonlinear_arith)
            requires
                0 <= groups,
        ;
        assert(0 <= f < table.len());
        assert(0 <= b < table.len());
        let r = apply_all(table, groups, id, data);
        assert(r == prev.update(f, d.provider_group_id).update(b, d.consumer_group_id));
        assert forall|k: int|
            0 <= k < data.len() && last_write(groups, id, data, k, forward_entry(groups, id, data[k]))
                && back_entry(groups, data[k]) != forward_entry(groups, id, data[k]) implies #[trigger] r[forward_entry(
                groups,
                id,
                data[k],
            )] == data[k].provider_group_id by {
            let x = forward_entry(groups, id, data[k]);
            if k < n {
                assert(!writes_entry(groups, id, data[n], x));
                assert(init[k] == data[k]);
                assert forall|j: int| k < j < init.len() implies !#[trigger] writes_entry(groups, id, init[j], x) by {
                    assert(init[j] == data[j]);
                    assert(!writes_entry(groups, id, data[j], x));
                }
                assert(last_write(groups, id, init, k, forward_entry(groups, id, init[k])));
            }
        }
        assert forall|k: int|
            0 <= k < data.len() && last_write(groups, id, data, k, back_entry(groups, data[k])) implies #[trigger] r[back_entry(
                groups,
                data[k],
            )] == data[k].consumer_group_id by {
            let x = back_entry(groups, data[k]);
            if k < n {
                assert(!writes_entry(groups, id, data[n], x));
                assert(init[k] == data[k]);
                assert forall|j: int| k < j < init.len() implies !#[trigger] writes_entry(groups, id, init[j], x) by {
                    assert(init[j] == data[j]);
                    assert(!writes_entry(groups, id, data[j], x));
                }
                assert(last_write(groups, id, init, k, back_entry(groups, init[k])));
            }
        }
        assert forall|x: int|
            0 <= x < table.len() && (forall|j: int| 0 <= j < data.len() ==> !#[trigger] writes_entry(groups, id, data[j], x))
                implies #[trigger] r[x] == table[x] by {
            assert(!writes_entry(groups, id, data[n], x));
            assert forall|j: int| 0 <= j < init.len() implies !#[trigger] writes_entry(groups, id, init[j], x) by {
                assert(init[j] == data[j]);
            }
        }
    }
}

impl LookupTable {
    pub closed spec fn view(self) -> Seq<u8> {
        self.input@
    }

    pub closed spec fn spec_max_groups(self) -> usize {
        self.max_groups
    }

    pub closed spec fn spec_max_subscribers(self) -> usize {
        self.max_subscribers
    }

    /// The table has a row of `max_groups` entries for each subscriber slot.
    pub open spec fn wf(self) -> bool {
        &&& self@.len() == self.spec_max_subscribers() * self.spec_max_groups()
        &&& self@.len() <= 255 * 128
        &&& 0 < self.spec_max_groups() <= 128
        &&& 0 < self.spec_max_subscribers() <= 255
    }

    /// The entry of row `id`, column `group`.
    pub open spec fn entry(self, id: int, group: int) -> u8 {
        self@[id * self.spec_max_groups() + group]
    }

    /// A table of zeros for the slots and groups of `config`.
    pub fn new(config: &ValidConfig) -> (r: Self)
        requires
            config.wf(),
        ensures
            r.wf(),
            r.spec_max_groups() == config.spec_max_groups(),
            r.spec_max_subscribers() == config.spec_max_subscribers(),
            forall|i: int| 0 <= i < r@.len() ==> r@[i] == 0,
    {
        let groups = config.max_groups().get() as usize;
        let subscribers = config.max_subscribers().get() as usize;
        assert(subscribers * groups <= 255 * 128) by (nonlinear_arith)
            requires
                subscribers <= 255,
                groups <= 128,
        ;
        let n = subscribers * groups;
        let mut input: Vec<u8> = Vec::new();
        let mut i: usize = 0;
        while i < n
            invariant
                i <= n,
                input@.len() == i,
                forall|j: int| 0 <= j < i ==> input@[j] == 0,
            decreases n - i,
        {
            input.push(0u8);
            i = i + 1;
        }
        LookupTable { input, max_groups: groups, max_subscribers: subscribers }
    }

    pub fn max_groups(&self) -> (r: usize)
        ensures
            r == self.spec_max_groups(),
    {
        self.max_groups
    }

    pub fn max_subscribers(&self) -> (r: usize)
        ensures
            r == self.spec_max_subscribers(),
    {
        self.max_subscribers
    }

    /// Records the permissions `lookup_data` of subscriber `id`: for each, the
    /// entry of `id` in the consumer group becomes the provider group, and the
    /// entry of the provider in the provider group becomes the consumer group.
    pub fn add(&mut self, id: SubscriberId, lookup_data: &[SubscriberLookupData])
        requires
            old(self).wf(),
            permissions_fit(
                old(self)@.len() as int,
                old(self).spec_max_groups() as int,
                id.spec_u8() as int,
                lookup_data@,
            ),
        ensures
            final(self).wf(),
            final(self).spec_max_groups() == old(self).spec_max_groups(),
            final(self).spec_max_subscribers() == old(self).spec_max_subscribers(),
            final(self)@ == apply_all(
                old(self)@,
                old(self).spec_max_groups() as int,
                id.spec_u8() as int,
                lookup_data@,
            ),
            forall|k: int|
                0 <= k < lookup_data@.len() && last_write(
                    old(self).spec_max_groups() as int,
                    id.spec_u8() as int,
                    lookup_data@,
                    k,
                    back_entry(old(self).spec_max_groups() as int, lookup_data@[k]),
                ) ==> #[trigger] final(self)@[back_entry(old(self).spec_max_groups() as int, lookup_data@[k])]
                    == lookup_data@[k].consumer_group_id,
            forall|k: int|
                0 <= k < lookup_data@.len() && last_write(
                    old(self).spec_max_groups() as int,
                    id.spec_u8() as int,
                    lookup_data@,
                    k,
                    forward_entry(old(self).spec_max_groups() as int, id.spec_u8() as int, lookup_data@[k]),
                ) && back_entry(old(self).spec_max_groups() as int, lookup_data@[k]) != forward_entry(
                    old(self).spec_max_groups() as int,
                    id.spec_u8() as int,
                    lookup_data@[k],
                ) ==> #[trigger] final(self)@[forward_entry(
                    old(self).spec_max_groups() as int,
                    id.spec_u8() as int,
                    lookup_data@[k],
                )] == lookup_data@[k].provider_group_id,
            forall|x: int|
                0 <= x < old(self)@.len() && (forall|j: int|
                    0 <= j < lookup_data@.len() ==> !#[trigger] writes_entry(
                        old(self).spec_max_groups() as int,
                        id.spec_u8() as int,
                        lookup_data@[j],
                        x,
                    )) ==> #[trigger] final(self)@[x] == old(self)@[x],
    {
        proof {
            lemma_permissions_recorded(
                old(self)@,
                old(self).spec_max_groups() as int,
                id.spec_u8() as int,
                lookup_data@,
            );
        }
        let id = id.get() as usize;
        let mut k: usize = 0;
        while k < lookup_data.len()
            invariant
                self.wf(),
                self.spec_max_groups() == old(self).spec_max_groups(),
                self.spec_max_subscribers() == old(self).spec_max_subscribers(),
                self@.len() == old(self)@.len(),
                k <= lookup_data@.len(),
                permissions_fit(
                    old(self)@.len() as int,
                    old(self).spec_max_groups() as int,
                    id as int,
                    lookup_data@,
                ),
                self@ == apply_all(
                    old(self)@,
                    old(self).spec_max_groups() as int,
                    id as int,
                    lookup_data@.take(k as int),
                ),
            decreases lookup_data@.len() - k,
        {
            let lookup_data_k = lookup_data[k];
            assert(permissions_fit(
                old(self)@.len() as int,
                old(self).spec_max_groups() as int,
                id as int,
                lookup_data@,
            ));
            assert(lookup_data@[k as int] == lookup_data_k);
            self.set_values(id, lookup_data_k);
            let back = SubscriberLookupData {
                consumer_group_id: lookup_data_k.provider_group_id,
                provider_group_id: lookup_data_k.consumer_group_id,
                provider_id: lookup_data_k.provider_id,
            };
            self.set_values(lookup_data_k.provider_id.get() as usize, back);
            assert(lookup_data@.take(k + 1).drop_last() =~= lookup_data@.take(k as int));
            k = k + 1;
        }
        assert(lookup_data@.take(lookup_data@.len() as int) =~= lookup_data@);
    }

    /// Sets the entry of row `id` in the consumer group of `data` to its
    /// provider group.
    fn set_values(&mut self, id: usize, data: SubscriberLookupData)
        requires
            old(self).wf(),
            id * old(self).spec_max_groups() + data.consumer_group_id < old(self)@.len(),
        ensures
            final(self).wf(),
            final(self).spec_max_groups() == old(self).spec_max_groups(),
            final(self).spec_max_subscribers() == old(self).spec_max_subscribers(),
            final(self)@ == set_entry(
                old(self)@,
                old(self).spec_max_groups() as int,
                id as int,
                data.consumer_group_id as int,
                data.provider_group_id,
            ),
    {
        assert(id * self.max_groups < self.input@.len());
        let slice = id * self.max_groups;
        let in_idx = slice + data.consumer_group_id as usize;
        self.input.set(in_idx, data.provider_group_id);
    }

    /// Zeroes the row of `id`: it may no longer send in any group.
    pub fn zeroize(&mut self, id: SubscriberId)
        requires
            old(self).wf(),
            id.spec_u8() < old(self).spec_max_subscribers(),
        ensures
            final(self).wf(),
            final(self).spec_max_groups() == old(self).spec_max_groups(),
            final(self).spec_max_subscribers() == old(self).spec_max_subscribers(),
            final(self)@.len() == old(self)@.len(),
            forall|i: int|
                0 <= i < old(self)@.len() ==> #[trigger] final(self)@[i] == if id.spec_u8()
                    * old(self).spec_max_groups() <= i < (id.spec_u8() + 1)
                    * old(self).spec_max_groups() {
                    0
                } else {
                    old(self)@[i]
                },
    {
        let id = id.get() as usize;
        let groups = self.max_groups;
        assert((id + 1) * groups <= self.max_subscribers * groups && id * groups + groups == (id + 1) * groups) by (nonlinear_arith)
            requires
                id < self.max_subscribers,
        ;
        assert(self.max_subscribers * groups == self.input@.len());
        let start = id * groups;
        let end = start + groups;
        let mut i: usize = start;
        while i < end
            invariant
                self.wf(),
                self.spec_max_groups() == groups,
                self.spec_max_subscribers() == old(self).spec_max_subscribers(),
                groups == old(self).spec_max_groups(),
                start == id * groups,
                end == start + groups,
                end <= self@.len(),
                self@.len() == old(self)@.len(),
                start <= i <= end,
                forall|j: int|
                    0 <= j < old(self)@.len() ==> #[trigger] self@[j] == if start <= j < i {
                        0
                    } else {
                        old(self)@[j]
                    },
            decreases end - i,
        {
            self.input.set(i, 0);
            i = i + 1;
        }
    }

    /// The entries, row after row.
    pub fn get_input(&self) -> (r: &[u8])
        ensures
            r@ == self@,
    {
        self.input.as_slice()
    }
}

} // verus!
