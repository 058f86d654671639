//! The dispatch: every message queued by a sender is prepared and appended to
//! the incoming buffer of its destination. Busy senders go through the shared
//! pool, sorted by destination, and are copied in one block per receiver; the
//! other senders are delivered message by message.
use vstd::prelude::*;

use crate::bus::SubscriberData;
use crate::lookup::LookupTable;
use crate::message::UntypedMessage;
use crate::plan::{PipelinePlan, bucket, lemma_bucket_complete, lemma_bucket_lengths, lemma_bucket_members, out_counts, plan_of, srcs_in_bucket};
use crate::pool::{MessagePool, sorted_by_dst};
use crate::config::ValidConfig;
use crate::routing::{ScalarInstructionSet, lemma_rows, prepared, prepared_seq};

verus! {

/// The messages of `q` addressed to `d`, in order.
pub open spec fn to_dst(q: Seq<UntypedMessage>, d: u8) -> Seq<UntypedMessage> {
    q.filter(|m: UntypedMessage| m.dst == d)
}

/// The messages that slot `src` has queued, newest first.
pub open spec fn queue_of<S, const M: usize>(subs: Seq<SubscriberData<S, M>>, src: int) -> Seq<
    UntypedMessage,
> {
    subs[src].outgoing.queued()
}

/// The queued messages of slot `src`, as the bus delivers them.
pub open spec fn sent_by<S, const M: usize>(
    lut: LookupTable,
    subs: Seq<SubscriberData<S, M>>,
    src: int,
) -> Seq<UntypedMessage> {
    prepared_seq(lut@, lut.spec_max_groups() as int, src, queue_of(subs, src))
}

/// What the senders `srcs`, one after the other, deliver to `d`.
pub open spec fn delivered<S, const M: usize>(
    lut: LookupTable,
    subs: Seq<SubscriberData<S, M>>,
    srcs: Seq<u8>,
    d: u8,
) -> Seq<UntypedMessage>
    decreases srcs.len(),
{
    if srcs.len() == 0 {
        Seq::empty()
    } else {
        delivered(lut, subs, srcs.drop_last(), d) + to_dst(
            sent_by(lut, subs, srcs.last() as int),
            d,
        )
    }
}

/// What the senders `0..n` deliver to `d`.
pub open spec fn delivered_upto<S, const M: usize>(
    lut: LookupTable,
    subs: Seq<SubscriberData<S, M>>,
    n: int,
    d: u8,
) -> Seq<UntypedMessage>
    decreases n,
{
    if n <= 0 {
        Seq::empty()
    } else {
        delivered_upto(lut, subs, n - 1, d) + to_dst(sent_by(lut, subs, n - 1), d)
    }
}

/// The senders `srcs` can be prepared: their rows exist, their messages name
/// groups of the table, and every prepared message names an existing slot.
pub open spec fn senders_valid<S, const M: usize>(
    lut: LookupTable,
    subs: Seq<SubscriberData<S, M>>,
    src: int,
) -> bool {
    &&& 0 <= src < subs.len()
    &&& src < lut.spec_max_subscribers()
    &&& subs[src].wf()
    &&& forall|i: int|
        0 <= i < sent_by(lut, subs, src).len() ==> (#[trigger] sent_by(lut, subs, src)[i]).dst
            < subs.len()
}

/// Every slot is well formed.
pub open spec fn all_wf<S, const M: usize>(subs: Seq<SubscriberData<S, M>>) -> bool {
    forall|i: int| 0 <= i < subs.len() ==> (#[trigger] subs[i]).wf()
}

/// `after` is `before` with the incoming buffer of every receiver `d != 0`
/// extended by `extra(d)`, the outgoing buffers of the slots `except` changed,
/// and every other outgoing buffer and every subscriber unchanged.
pub open spec fn slots_grow<S, const M: usize>(
    before: Seq<SubscriberData<S, M>>,
    after: Seq<SubscriberData<S, M>>,
    extra: spec_fn(u8) -> Seq<UntypedMessage>,
    except: spec_fn(int) -> bool,
) -> bool {
    &&& after.len() == before.len()
    &&& all_wf(after)
    &&& forall|d: int|
        0 < d < before.len() ==> #[trigger] after[d].incoming.pending() == before[d].incoming.pending()
            + extra(d as u8)
    &&& forall|i: int|
        0 <= i < before.len() && !except(i) ==> #[trigger] after[i].outgoing == before[i].outgoing
    &&& forall|i: int| 0 <= i < before.len() ==> #[trigger] after[i].sub == before[i].sub
}

/// Writes the prepared `message` into the incoming buffer of its destination;
/// the count of the sink is reset to zero, so what is sent there is dropped.
fn deliver_one<S, const M: usize>(subs: &mut Vec<SubscriberData<S, M>>, message: UntypedMessage)
    requires
        all_wf(old(subs)@),
        (message.dst as int) < old(subs)@.len(),
        old(subs)@[message.dst as int].incoming.spec_count() < M,
    ensures
        final(subs)@.len() == old(subs)@.len(),
        all_wf(final(subs)@),
        forall|d: int|
            0 < d < old(subs)@.len() ==> #[trigger] final(subs)@[d].incoming.pending() == if d
                == message.dst {
                old(subs)@[d].incoming.pending().push(message)
            } else {
                old(subs)@[d].incoming.pending()
            },
        final(subs)@[0].incoming.spec_count() == if message.dst == 0 {
            0
        } else {
            old(subs)@[0].incoming.spec_count()
        },
        forall|i: int| 0 <= i < old(subs)@.len() ==> #[trigger] final(subs)@[i].outgoing == old(subs)@[i].outgoing,
        forall|i: int| 0 <= i < old(subs)@.len() ==> #[trigger] final(subs)@[i].sub == old(subs)@[i].sub,
{
    let dst = message.dst as usize;
    let ghost before = subs@[dst as int];
    let buffer = subs[dst].incoming_mut();
    let count = buffer.count();
    buffer.set_slot(count as usize, message);
    let is_live: u32 = if message.dst != 0 {
        1
    } else {
        0
    };
    buffer.set_count((count + 1) * is_live);
    proof {
        let after = subs@[dst as int];
        assert(after.incoming.pending() =~= if dst == 0 {
            Seq::<UntypedMessage>::empty()
        } else {
            before.incoming.pending().push(message)
        });
    }
}

/// Taking one more message into a prefix adds it to what goes to its
/// destination.
proof fn lemma_to_dst_take_step(s: Seq<UntypedMessage>, i: int, d: u8)
    requires
        0 <= i < s.len(),
    ensures
        to_dst(s.take(i + 1), d) == if s[i].dst == d {
            to_dst(s.take(i), d).push(s[i])
        } else {
            to_dst(s.take(i), d)
        },
        to_dst(s.take(i + 1), d).len() <= to_dst(s, d).len(),
{
    assert(s.take(i + 1) == s.take(i).push(s[i]));
    s.take(i).lemma_filter_push(s[i], |m: UntypedMessage| m.dst == d);
    s.lemma_filter_take_len(|m: UntypedMessage| m.dst == d, i + 1);
}

/// Prepares every queued message of `src` in place and writes each into the
/// incoming buffer of its destination, in queue order. The count of the
/// outgoing buffer is left to the caller.
fn prepare_and_send_direct_slice<S, const M: usize>(
    lut: &LookupTable,
    subs: &mut Vec<SubscriberData<S, M>>,
    src: usize,
)
    requires
        lut.wf(),
        all_wf(old(subs)@),
        0 < old(subs)@.len() <= 256,
        senders_valid(*lut, old(subs)@, src as int),
        forall|d: int|
            0 < d < old(subs)@.len() ==> #[trigger] old(subs)@[d].incoming.spec_count() + to_dst(
                sent_by(*lut, old(subs)@, src as int),
                d as u8,
            ).len() <= M,
        old(subs)@[0].incoming.spec_count() < M,
    ensures
        slots_grow(
            old(subs)@,
            final(subs)@,
            |d: u8| to_dst(sent_by(*lut, old(subs)@, src as int), d),
            |i: int| i == src,
        ),
        final(subs)@[src as int].outgoing.spec_count() == old(subs)@[src as int].outgoing.spec_count(),
        final(subs)@[0].incoming.spec_count() < M,
        final(subs)@[0].incoming.spec_count() == if to_dst(sent_by(*lut, old(subs)@, src as int), 0).len() > 0 {
            0
        } else {
            old(subs)@[0].incoming.spec_count()
        },
{
    let ghost old_subs = subs@;
    let ghost q = queue_of(old_subs, src as int);
    let ghost sent = sent_by(*lut, old_subs, src as int);
    let count = subs[src].outgoing.count() as usize;
    let start = M - count;
    let mut i: usize = 0;
    while i < count
        invariant
            lut.wf(),
            senders_valid(*lut, old_subs, src as int),
            q == queue_of(old_subs, src as int),
            sent == sent_by(*lut, old_subs, src as int),
            count == old_subs[src as int].outgoing.spec_count(),
            all_wf(old_subs),
            old_subs.len() <= 256,
            count <= M,
            start == M - count,
            q.len() == count,
            sent.len() == count,
            i <= count,
            subs@.len() == old_subs.len(),
            all_wf(subs@),
            subs@[src as int].outgoing.spec_count() == count,
            forall|j: int| i <= j < count ==> #[trigger] subs@[src as int].outgoing.inner().slots()[start + j] == q[j],
            forall|d: int|
                0 < d < old_subs.len() ==> #[trigger] subs@[d].incoming.pending() == old_subs[d].incoming.pending()
                    + to_dst(sent.take(i as int), d as u8),
            forall|d: int|
                0 < d < old_subs.len() ==> #[trigger] old_subs[d].incoming.spec_count() + to_dst(
                    sent,
                    d as u8,
                ).len() <= M,
            subs@[0].incoming.spec_count() < M,
            subs@[0].incoming.spec_count() == if to_dst(sent.take(i as int), 0).len() > 0 {
                0
            } else {
                old_subs[0].incoming.spec_count()
            },
            forall|x: int|
                0 <= x < old_subs.len() && x != src ==> #[trigger] subs@[x].outgoing == old_subs[x].outgoing,
            forall|x: int| 0 <= x < old_subs.len() ==> #[trigger] subs@[x].sub == old_subs[x].sub,
        decreases count - i,
    {
        assert(subs@[src as int].outgoing.inner().slots()[start + i] == q[i as int]);
        assert(subs@[src as int].outgoing.queued()[i as int] == subs@[src as int].outgoing.inner().slots()[start + i]);
        let mut m = subs[src].outgoing.read_slice()[i];
        assert(m == q[i as int]);
        ScalarInstructionSet::prepare_single_message(lut, src, &mut m);
        assert(m == sent[i as int]);
        let ghost mid = subs@;
        subs[src].outgoing_mut().set_slot(start + i, m);
        proof {
            assert(forall|d: int| 0 <= d < old_subs.len() ==> #[trigger] subs@[d].incoming == mid[d].incoming);
            assert(subs@[src as int].outgoing.spec_count() == count);
            assert(all_wf(subs@));
            lemma_to_dst_take_step(sent, i as int, m.dst);
            assert(m.dst < old_subs.len());
            if m.dst != 0 {
                let dd = m.dst as int;
                assert(subs@[dd].wf());
                assert(subs@[dd].incoming.spec_count() == subs@[dd].incoming.pending().len());
                assert(subs@[dd].incoming.pending() == old_subs[dd].incoming.pending() + to_dst(sent.take(i as int), dd as u8));
                assert(old_subs[dd].wf());
                assert(old_subs[dd].incoming.spec_count() == old_subs[dd].incoming.pending().len());
                assert(old_subs[dd].incoming.spec_count() + to_dst(sent, dd as u8).len() <= M);
                assert(to_dst(sent.take(i + 1), dd as u8) == to_dst(sent.take(i as int), dd as u8).push(m));
            }
        }
        let ghost pre = subs@;
        deliver_one(subs, m);
        proof {
            lemma_to_dst_take_step(sent, i as int, 0);
            assert(pre[0].incoming == mid[0].incoming);
            assert forall|d: int|
                0 < d < old_subs.len() implies #[trigger] subs@[d].incoming.pending() == old_subs[d].incoming.pending()
                    + to_dst(sent.take(i + 1), d as u8) by {
                lemma_to_dst_take_step(sent, i as int, d as u8);
                assert(pre[d].incoming == mid[d].incoming);
                assert(mid[d].incoming.pending() == old_subs[d].incoming.pending() + to_dst(sent.take(i as int), d as u8));
                if d == m.dst {
                    assert(subs@[d].incoming.pending() == pre[d].incoming.pending().push(m));
                    assert(old_subs[d].incoming.pending() + to_dst(sent.take(i as int), d as u8).push(m)
                        =~= (old_subs[d].incoming.pending() + to_dst(sent.take(i as int), d as u8)).push(m));
                } else {
                    assert(subs@[d].incoming.pending() == pre[d].incoming.pending());
                }
            }
        }
        i = i + 1;
    }
    proof {
        assert(sent.take(count as int) == sent);
    }
}

/// What a prefix of the senders delivers is a prefix of what they all deliver.
proof fn lemma_delivered_prefix<S, const M: usize>(
    lut: LookupTable,
    subs: Seq<SubscriberData<S, M>>,
    srcs: Seq<u8>,
    k: int,
    d: u8,
)
    requires
        0 <= k <= srcs.len(),
    ensures
        delivered(lut, subs, srcs.take(k), d).len() <= delivered(lut, subs, srcs, d).len(),
    decreases srcs.len() - k,
{
    if k < srcs.len() {
        lemma_delivered_prefix(lut, subs, srcs, k + 1, d);
        assert(srcs.take(k + 1).drop_last() == srcs.take(k));
    } else {
        assert(srcs.take(k) == srcs);
    }
}

/// What the senders deliver depends only on their outgoing buffers.
proof fn lemma_delivered_same_outgoing<S, const M: usize>(
    lut: LookupTable,
    a: Seq<SubscriberData<S, M>>,
    b: Seq<SubscriberData<S, M>>,
    srcs: Seq<u8>,
    d: u8,
)
    requires
        forall|j: int| 0 <= j < srcs.len() ==> #[trigger] a[srcs[j] as int].outgoing == b[srcs[j] as int].outgoing,
    ensures
        delivered(lut, a, srcs, d) == delivered(lut, b, srcs, d),
    decreases srcs.len(),
{
    if srcs.len() > 0 {
        lemma_delivered_same_outgoing(lut, a, b, srcs.drop_last(), d);
        assert(a[srcs.last() as int].outgoing == b[srcs.last() as int].outgoing);
    }
}

/// Delivers, one sender after the other, every queued message of the senders
/// `srcs` and empties their outgoing buffers.
fn prepare_and_send_direct_all<S, const M: usize>(
    lut: &LookupTable,
    subs: &mut Vec<SubscriberData<S, M>>,
    srcs: &[u8],
)
    requires
        lut.wf(),
        all_wf(old(subs)@),
        0 < old(subs)@.len() <= 256,
        srcs@.no_duplicates(),
        forall|j: int| 0 <= j < srcs@.len() ==> senders_valid(*lut, old(subs)@, #[trigger] srcs@[j] as int),
        forall|d: int|
            0 < d < old(subs)@.len() ==> #[trigger] old(subs)@[d].incoming.spec_count() + delivered(
                *lut,
                old(subs)@,
                srcs@,
                d as u8,
            ).len() <= M,
        old(subs)@[0].incoming.spec_count() < M,
    ensures
        final(subs)@.len() == old(subs)@.len(),
        all_wf(final(subs)@),
        forall|d: int|
            0 < d < old(subs)@.len() ==> #[trigger] final(subs)@[d].incoming.pending() == old(subs)@[d].incoming.pending()
                + delivered(*lut, old(subs)@, srcs@, d as u8),
        forall|i: int|
            0 <= i < old(subs)@.len() && !srcs@.contains(i as u8) ==> #[trigger] final(subs)@[i].outgoing
                == old(subs)@[i].outgoing,
        forall|j: int|
            0 <= j < srcs@.len() ==> #[trigger] final(subs)@[srcs@[j] as int].outgoing.spec_count() == 0,
        forall|i: int| 0 <= i < old(subs)@.len() ==> #[trigger] final(subs)@[i].sub == old(subs)@[i].sub,
        final(subs)@[0].incoming.spec_count() < M,
        final(subs)@[0].incoming.spec_count() == if delivered(*lut, old(subs)@, srcs@, 0).len() > 0 {
            0
        } else {
            old(subs)@[0].incoming.spec_count()
        },
{
    let ghost old_subs = subs@;
    let mut k: usize = 0;
    while k < srcs.len()
        invariant
            lut.wf(),
            all_wf(old_subs),
            0 < old_subs.len() <= 256,
            srcs@.no_duplicates(),
            forall|j: int| 0 <= j < srcs@.len() ==> senders_valid(*lut, old_subs, #[trigger] srcs@[j] as int),
            forall|d: int|
                0 < d < old_subs.len() ==> #[trigger] old_subs[d].incoming.spec_count() + delivered(
                    *lut,
                    old_subs,
                    srcs@,
                    d as u8,
                ).len() <= M,
            k <= srcs@.len(),
            subs@.len() == old_subs.len(),
            all_wf(subs@),
            forall|d: int|
                0 < d < old_subs.len() ==> #[trigger] subs@[d].incoming.pending() == old_subs[d].incoming.pending()
                    + delivered(*lut, old_subs, srcs@.take(k as int), d as u8),
            forall|i: int|
                0 <= i < old_subs.len() && !srcs@.take(k as int).contains(i as u8) ==> #[trigger] subs@[i].outgoing
                    == old_subs[i].outgoing,
            forall|j: int| 0 <= j < k ==> #[trigger] subs@[srcs@[j] as int].outgoing.spec_count() == 0,
            forall|i: int| 0 <= i < old_subs.len() ==> #[trigger] subs@[i].sub == old_subs[i].sub,
            subs@[0].incoming.spec_count() < M,
            subs@[0].incoming.spec_count() == if delivered(*lut, old_subs, srcs@.take(k as int), 0).len() > 0 {
                0
            } else {
                old_subs[0].incoming.spec_count()
            },
        decreases srcs@.len() - k,
    {
        let src = srcs[k] as usize;
        let ghost cur = subs@;
        proof {
            assert(senders_valid(*lut, old_subs, src as int));
            assert(!srcs@.take(k as int).contains(src as u8)) by {
                if srcs@.take(k as int).contains(src as u8) {
                    let j = choose|j: int| 0 <= j < k && srcs@.take(k as int)[j] == src as u8;
                    assert(srcs@[j] == srcs@[k as int]);
                }
            }
            assert(cur[src as int].outgoing == old_subs[src as int].outgoing);
            assert(sent_by(*lut, cur, src as int) == sent_by(*lut, old_subs, src as int));
            assert(srcs@.take(k + 1).drop_last() == srcs@.take(k as int));
            assert forall|d: int| 0 < d < cur.len() implies #[trigger] cur[d].incoming.spec_count() + to_dst(
                sent_by(*lut, cur, src as int),
                d as u8,
            ).len() <= M by {
                lemma_delivered_prefix(*lut, old_subs, srcs@, k + 1, d as u8);
                assert(cur[d].wf());
                assert(old_subs[d].wf());
                assert(srcs@.take(k + 1).last() == src as u8);
                assert(delivered(*lut, old_subs, srcs@.take(k + 1), d as u8) == delivered(
                    *lut,
                    old_subs,
                    srcs@.take(k as int),
                    d as u8,
                ) + to_dst(sent_by(*lut, old_subs, src as int), d as u8));
                assert(cur[d].incoming.spec_count() == cur[d].incoming.pending().len());
                assert(old_subs[d].incoming.spec_count() == old_subs[d].incoming.pending().len());
            }
        }
        prepare_and_send_direct_slice(lut, subs, src);
        subs[src].outgoing_mut().set_count(0);
        proof {
            assert(srcs@.take(k + 1).last() == src as u8);
            assert(delivered(*lut, old_subs, srcs@.take(k + 1), 0) == delivered(
                *lut,
                old_subs,
                srcs@.take(k as int),
                0,
            ) + to_dst(sent_by(*lut, old_subs, src as int), 0));
            assert forall|i: int|
                0 <= i < old_subs.len() && !srcs@.take(k + 1).contains(i as u8) implies #[trigger] subs@[i].outgoing
                    == old_subs[i].outgoing by {
                assert(srcs@.take(k + 1)[k as int] == src as u8);
                if srcs@.take(k as int).contains(i as u8) {
                    let j = choose|j: int| 0 <= j < k && srcs@.take(k as int)[j] == i as u8;
                    assert(srcs@.take(k + 1)[j] == i as u8);
                }
            }
            assert forall|j: int| 0 <= j < k + 1 implies #[trigger] subs@[srcs@[j] as int].outgoing.spec_count() == 0 by {
                if j < k {
                    assert(srcs@[j] != srcs@[k as int]);
                }
            }
        }
        k = k + 1;
    }
    proof {
        assert(srcs@.take(srcs@.len() as int) == srcs@);
    }
}

/// The queued messages of the senders `srcs`, prepared, one sender after the
/// other: what the batch path collects in the pool.
pub open spec fn batched<S, const M: usize>(
    lut: LookupTable,
    subs: Seq<SubscriberData<S, M>>,
    srcs: Seq<u8>,
) -> Seq<UntypedMessage>
    decreases srcs.len(),
{
    if srcs.len() == 0 {
        Seq::empty()
    } else {
        batched(lut, subs, srcs.drop_last()) + sent_by(lut, subs, srcs.last() as int)
    }
}

/// What the batch collects for `d` is what the senders deliver to `d`.
proof fn lemma_batched_to_dst<S, const M: usize>(
    lut: LookupTable,
    subs: Seq<SubscriberData<S, M>>,
    srcs: Seq<u8>,
    d: u8,
)
    ensures
        to_dst(batched(lut, subs, srcs), d) == delivered(lut, subs, srcs, d),
    decreases srcs.len(),
{
    if srcs.len() > 0 {
        lemma_batched_to_dst(lut, subs, srcs.drop_last(), d);
        Seq::filter_distributes_over_add(
            batched(lut, subs, srcs.drop_last()),
            sent_by(lut, subs, srcs.last() as int),
            |m: UntypedMessage| m.dst == d,
        );
    } else {
        assert(to_dst(Seq::<UntypedMessage>::empty(), d) =~= Seq::<UntypedMessage>::empty());
    }
}

/// Moves the prepared queued messages of the senders `srcs` into the pool, one
/// sender after the other, and empties their outgoing buffers.
fn prepare_batches<S, const M: usize>(
    lut: &LookupTable,
    subs: &mut Vec<SubscriberData<S, M>>,
    pool: &mut MessagePool,
    srcs: &[u8],
)
    requires
        lut.wf(),
        all_wf(old(subs)@),
        srcs@.no_duplicates(),
        forall|j: int| 0 <= j < srcs@.len() ==> senders_valid(*lut, old(subs)@, #[trigger] srcs@[j] as int),
        old(pool).wf(),
        old(pool)@.len() + batched(*lut, old(subs)@, srcs@).len() <= old(pool).spec_capacity(),
    ensures
        final(subs)@.len() == old(subs)@.len(),
        all_wf(final(subs)@),
        final(pool).wf(),
        final(pool).spec_capacity() == old(pool).spec_capacity(),
        final(pool)@ == old(pool)@ + batched(*lut, old(subs)@, srcs@),
        forall|i: int| 0 <= i < old(subs)@.len() ==> #[trigger] final(subs)@[i].incoming == old(subs)@[i].incoming,
        forall|i: int|
            0 <= i < old(subs)@.len() && !srcs@.contains(i as u8) ==> #[trigger] final(subs)@[i].outgoing
                == old(subs)@[i].outgoing,
        forall|j: int|
            0 <= j < srcs@.len() ==> #[trigger] final(subs)@[srcs@[j] as int].outgoing.spec_count() == 0,
        forall|i: int| 0 <= i < old(subs)@.len() ==> #[trigger] final(subs)@[i].sub == old(subs)@[i].sub,
{
    let ghost old_subs = subs@;
    let ghost old_pool = pool@;
    let mut k: usize = 0;
    while k < srcs.len()
        invariant
            lut.wf(),
            all_wf(old_subs),
            srcs@.no_duplicates(),
            forall|j: int| 0 <= j < srcs@.len() ==> senders_valid(*lut, old_subs, #[trigger] srcs@[j] as int),
            k <= srcs@.len(),
            subs@.len() == old_subs.len(),
            all_wf(subs@),
            pool.wf(),
            pool.spec_capacity() == old(pool).spec_capacity(),
            old_pool.len() + batched(*lut, old_subs, srcs@).len() <= pool.spec_capacity(),
            pool@ == old_pool + batched(*lut, old_subs, srcs@.take(k as int)),
            forall|i: int| 0 <= i < old_subs.len() ==> #[trigger] subs@[i].incoming == old_subs[i].incoming,
            forall|i: int|
                0 <= i < old_subs.len() && !srcs@.take(k as int).contains(i as u8) ==> #[trigger] subs@[i].outgoing
                    == old_subs[i].outgoing,
            forall|j: int| 0 <= j < k ==> #[trigger] subs@[srcs@[j] as int].outgoing.spec_count() == 0,
            forall|i: int| 0 <= i < old_subs.len() ==> #[trigger] subs@[i].sub == old_subs[i].sub,
        decreases srcs@.len() - k,
    {
        let src = srcs[k] as usize;
        let ghost sent = sent_by(*lut, old_subs, src as int);
        proof {
            assert(senders_valid(*lut, old_subs, src as int));
            assert(!srcs@.take(k as int).contains(src as u8)) by {
                if srcs@.take(k as int).contains(src as u8) {
                    let j = choose|j: int| 0 <= j < k && srcs@.take(k as int)[j] == src as u8;
                    assert(srcs@[j] == srcs@[k as int]);
                }
            }
            assert(srcs@.take(k + 1).drop_last() == srcs@.take(k as int));
            assert(srcs@.take(k + 1).last() == src as u8);
            lemma_batched_prefix(*lut, old_subs, srcs@, k + 1);
        }
        let read = subs[src].outgoing.read_slice();
        let ghost before = pool@;
        let mut i: usize = 0;
        while i < read.len()
            invariant
                lut.wf(),
                senders_valid(*lut, old_subs, src as int),
                read@ == queue_of(old_subs, src as int),
                sent == sent_by(*lut, old_subs, src as int),
                i <= read@.len(),
                pool.wf(),
                pool.spec_capacity() == old(pool).spec_capacity(),
                before.len() + sent.len() <= pool.spec_capacity(),
                pool@ == before + sent.take(i as int),
            decreases read@.len() - i,
        {
            let mut m = read[i];
            ScalarInstructionSet::prepare_single_message(lut, src, &mut m);
            pool.push(m);
            proof {
                assert(sent.take(i + 1) == sent.take(i as int).push(m));
            }
            i = i + 1;
        }
        subs[src].outgoing_mut().set_count(0);
        proof {
            assert(sent.take(sent.len() as int) == sent);
            assert forall|i: int|
                0 <= i < old_subs.len() && !srcs@.take(k + 1).contains(i as u8) implies #[trigger] subs@[i].outgoing
                    == old_subs[i].outgoing by {
                assert(srcs@.take(k + 1)[k as int] == src as u8);
                if srcs@.take(k as int).contains(i as u8) {
                    let j = choose|j: int| 0 <= j < k && srcs@.take(k as int)[j] == i as u8;
                    assert(srcs@.take(k + 1)[j] == i as u8);
                }
            }
            assert forall|j: int| 0 <= j < k + 1 implies #[trigger] subs@[srcs@[j] as int].outgoing.spec_count() == 0 by {
                if j < k {
                    assert(srcs@[j] != srcs@[k as int]);
                }
            }
        }
        k = k + 1;
    }
    proof {
        assert(srcs@.take(srcs@.len() as int) == srcs@);
    }
}

/// The batch of a prefix of the senders is no longer than their whole batch.
proof fn lemma_batched_prefix<S, const M: usize>(
    lut: LookupTable,
    subs: Seq<SubscriberData<S, M>>,
    srcs: Seq<u8>,
    k: int,
)
    requires
        0 <= k <= srcs.len(),
    ensures
        batched(lut, subs, srcs.take(k)).len() <= batched(lut, subs, srcs).len(),
    decreases srcs.len() - k,
{
    if k < srcs.len() {
        lemma_batched_prefix(lut, subs, srcs, k + 1);
        assert(srcs.take(k + 1).drop_last() == srcs.take(k));
    } else {
        assert(srcs.take(k) == srcs);
    }
}

/// Counting `y` among the messages of `s` that go to `d`.
proof fn lemma_to_dst_count(s: Seq<UntypedMessage>, d: u8, y: UntypedMessage)
    ensures
        to_dst(s, d).to_multiset().count(y) == if y.dst == d {
            s.to_multiset().count(y)
        } else {
            0
        },
    decreases s.len(),
{
    broadcast use vstd::seq_lib::group_to_multiset_ensures;

    if s.len() == 0 {
        assert(to_dst(s, d) =~= Seq::<UntypedMessage>::empty());
    } else {
        let init = s.drop_last();
        let x = s.last();
        assert(s == init.push(x));
        lemma_to_dst_count(init, d, y);
        init.lemma_filter_push(x, |m: UntypedMessage| m.dst == d);
    }
}

/// Reordering messages reorders what goes to each destination the same way.
pub proof fn lemma_to_dst_permutation(a: Seq<UntypedMessage>, b: Seq<UntypedMessage>, d: u8)
    requires
        a.to_multiset() == b.to_multiset(),
    ensures
        to_dst(a, d).to_multiset() == to_dst(b, d).to_multiset(),
        to_dst(a, d).len() == to_dst(b, d).len(),
{
    broadcast use vstd::seq_lib::group_to_multiset_ensures;

    assert forall|y: UntypedMessage| #[trigger]
        to_dst(a, d).to_multiset().count(y) == to_dst(b, d).to_multiset().count(y) by {
        lemma_to_dst_count(a, d, y);
        lemma_to_dst_count(b, d, y);
    }
    assert(to_dst(a, d).to_multiset() =~= to_dst(b, d).to_multiset());
    vstd::seq_lib::to_multiset_len(to_dst(a, d));
    vstd::seq_lib::to_multiset_len(to_dst(b, d));
}

/// When every message of `s` goes to `d`, all of `s` goes to `d`; when none
/// does, nothing does.
proof fn lemma_to_dst_uniform(s: Seq<UntypedMessage>, d: u8)
    ensures
        (forall|i: int| 0 <= i < s.len() ==> (#[trigger] s[i]).dst == d) ==> to_dst(s, d) == s,
        (forall|i: int| 0 <= i < s.len() ==> (#[trigger] s[i]).dst != d) ==> to_dst(s, d)
            == Seq::<UntypedMessage>::empty(),
    decreases s.len(),
{
    if s.len() == 0 {
        assert(to_dst(s, d) =~= Seq::<UntypedMessage>::empty());
    } else {
        let init = s.drop_last();
        let x = s.last();
        assert(s == init.push(x));
        lemma_to_dst_uniform(init, d);
        init.lemma_filter_push(x, |m: UntypedMessage| m.dst == d);
        if forall|i: int| 0 <= i < s.len() ==> (#[trigger] s[i]).dst == d {
            assert(forall|i: int| 0 <= i < init.len() ==> (#[trigger] init[i]).dst == s[i].dst);
        }
        if forall|i: int| 0 <= i < s.len() ==> (#[trigger] s[i]).dst != d {
            assert(forall|i: int| 0 <= i < init.len() ==> (#[trigger] init[i]).dst == s[i].dst);
        }
    }
}

/// The part of `p` that a run covers goes to one destination, so it is no
/// longer than everything `p` holds for that destination.
proof fn lemma_run_len(p: Seq<UntypedMessage>, i: int, j: int, d: u8)
    requires
        0 <= i <= j <= p.len(),
        forall|k: int| i <= k < j ==> (#[trigger] p[k]).dst == d,
    ensures
        j - i <= to_dst(p, d).len(),
{
    let run = p.subrange(i, j);
    assert(p == p.take(i) + run + p.skip(j));
    Seq::filter_distributes_over_add(p.take(i) + run, p.skip(j), |m: UntypedMessage| m.dst == d);
    Seq::filter_distributes_over_add(p.take(i), run, |m: UntypedMessage| m.dst == d);
    lemma_to_dst_uniform(run, d);
}

/// Where the messages before the `k`-th run of `entries` end in `p`.
pub open spec fn run_end(p: Seq<UntypedMessage>, entries: Seq<(u8, u32, usize)>, k: int) -> int {
    if k == 0 {
        if entries.len() > 0 {
            entries[0].2 as int
        } else {
            p.len() as int
        }
    } else {
        entries[k - 1].2 + entries[k - 1].1
    }
}

/// `entries` splits `p` into runs: the messages before the first run go to the
/// sink, each run `(dst, len, start)` holds `len` messages to `dst != 0` from
/// position `start` on, each run starts where the previous one ends, and the
/// last one ends with `p`.
pub open spec fn runs(p: Seq<UntypedMessage>, entries: Seq<(u8, u32, usize)>) -> bool {
    &&& 0 <= run_end(p, entries, 0) <= p.len()
    &&& forall|i: int| 0 <= i < run_end(p, entries, 0) ==> (#[trigger] p[i]).dst == 0
    &&& forall|j: int|
        0 <= j < entries.len() ==> {
            &&& (#[trigger] entries[j]).0 != 0
            &&& entries[j].1 > 0
            &&& entries[j].2 + entries[j].1 <= p.len()
            &&& forall|i: int|
                entries[j].2 <= i < entries[j].2 + entries[j].1 ==> (#[trigger] p[i]).dst
                    == entries[j].0
        }
    &&& forall|j: int|
        0 <= j < entries.len() ==> #[trigger] run_end(p, entries, j) == entries[j].2
    &&& run_end(p, entries, entries.len() as int) == p.len()
}

/// Splits the sorted pool into runs of messages to the same destination,
/// skipping the messages to the sink at its front.
fn group_runs(pool: &MessagePool, batch: &mut Vec<(u8, u32, usize)>)
    requires
        old(batch)@.len() == 0,
        sorted_by_dst(pool@),
        forall|d: u8| d != 0 ==> #[trigger] to_dst(pool@, d).len() <= u32::MAX,
    ensures
        runs(pool@, final(batch)@),
{
    let p = pool.as_slice();
    let len = p.len();
    let mut start: usize = 0;
    while start < len && p[start].dst == 0
        invariant
            start <= len,
            len == p@.len(),
            forall|i: int| 0 <= i < start ==> (#[trigger] p@[i]).dst == 0,
        decreases len - start,
    {
        start = start + 1;
    }
    let mut i: usize = start;
    while i < len
        invariant
            p@ == pool@,
            len == p@.len(),
            sorted_by_dst(p@),
            forall|d: u8| d != 0 ==> #[trigger] to_dst(p@, d).len() <= u32::MAX,
            start <= i <= len,
            forall|k: int| 0 <= k < start ==> (#[trigger] p@[k]).dst == 0,
            start < len ==> p@[start as int].dst != 0,
            batch@.len() == 0 ==> i == start,
            batch@.len() > 0 ==> batch@[0].2 == start,
            forall|j: int|
                0 <= j < batch@.len() ==> {
                    &&& (#[trigger] batch@[j]).0 != 0
                    &&& batch@[j].1 > 0
                    &&& batch@[j].2 + batch@[j].1 <= len
                    &&& forall|k: int|
                        batch@[j].2 <= k < batch@[j].2 + batch@[j].1 ==> (#[trigger] p@[k]).dst
                            == batch@[j].0
                },
            forall|j: int|
                0 <= j < batch@.len() ==> #[trigger] run_end(p@, batch@, j) == batch@[j].2,
            batch@.len() > 0 ==> run_end(p@, batch@, batch@.len() as int) == i,
        decreases len - i,
    {
        let dst = p[i].dst;
        assert(p@[start as int].dst <= p@[i as int].dst);
        let mut j: usize = i + 1;
        while j < len && p[j].dst == dst
            invariant
                i < j <= len,
                len == p@.len(),
                dst == p@[i as int].dst,
                forall|k: int| i <= k < j ==> (#[trigger] p@[k]).dst == dst,
            decreases len - j,
        {
            j = j + 1;
        }
        proof {
            lemma_run_len(p@, i as int, j as int, dst);
        }
        let ghost prev = batch@;
        batch.push((dst, (j - i) as u32, i));
        proof {
            assert forall|jj: int| 0 <= jj < batch@.len() implies #[trigger] run_end(p@, batch@, jj)
                == batch@[jj].2 by {
                if jj < prev.len() {
                    assert(run_end(p@, batch@, jj) == run_end(p@, prev, jj));
                }
            }
        }
        i = j;
    }
}

/// Sorts the pool by destination and splits it into runs.
fn batch_messages(pool: &mut MessagePool, batch: &mut Vec<(u8, u32, usize)>)
    requires
        old(pool).wf(),
        old(batch)@.len() == 0,
        forall|d: u8| d != 0 ==> #[trigger] to_dst(old(pool)@, d).len() <= u32::MAX,
    ensures
        final(pool).wf(),
        final(pool).spec_capacity() == old(pool).spec_capacity(),
        final(pool)@.to_multiset() == old(pool)@.to_multiset(),
        sorted_by_dst(final(pool)@),
        runs(final(pool)@, final(batch)@),
{
    pool.sort_by_dst();
    proof {
        assert forall|d: u8| d != 0 implies #[trigger] to_dst(pool@, d).len() <= u32::MAX by {
            lemma_to_dst_permutation(pool@, old(pool)@, d);
        }
    }
    group_runs(pool, batch);
}

/// Appends every run of the pool to the incoming buffer of its destination.
fn send_batches<S, const M: usize>(
    subs: &mut Vec<SubscriberData<S, M>>,
    pool: &MessagePool,
    batch: &mut Vec<(u8, u32, usize)>,
)
    requires
        all_wf(old(subs)@),
        0 < old(subs)@.len() <= 256,
        runs(pool@, old(batch)@),
        forall|i: int| 0 <= i < pool@.len() ==> (#[trigger] pool@[i]).dst < old(subs)@.len(),
        forall|d: int|
            0 < d < old(subs)@.len() ==> #[trigger] old(subs)@[d].incoming.spec_count() + to_dst(
                pool@,
                d as u8,
            ).len() <= M,
    ensures
        final(subs)@.len() == old(subs)@.len(),
        all_wf(final(subs)@),
        forall|d: int|
            0 < d < old(subs)@.len() ==> #[trigger] final(subs)@[d].incoming.pending() == old(subs)@[d].incoming.pending()
                + to_dst(pool@, d as u8),
        forall|i: int| 0 <= i < old(subs)@.len() ==> #[trigger] final(subs)@[i].outgoing == old(subs)@[i].outgoing,
        forall|i: int| 0 <= i < old(subs)@.len() ==> #[trigger] final(subs)@[i].sub == old(subs)@[i].sub,
        final(subs)@[0].incoming == old(subs)@[0].incoming,
        forall|d: int|
            0 < d < old(subs)@.len() && to_dst(pool@, d as u8).len() == 0 ==> #[trigger] final(subs)@[d].incoming
                == old(subs)@[d].incoming,
        forall|d: int|
            0 < d < old(subs)@.len() ==> #[trigger] final(subs)@[d].incoming.inner().slots().skip(
                final(subs)@[d].incoming.spec_count() as int,
            ) == old(subs)@[d].incoming.inner().slots().skip(final(subs)@[d].incoming.spec_count() as int),
        final(batch)@.len() == 0,
{
    let ghost old_subs = subs@;
    let ghost p = pool@;
    proof {
        assert forall|d: int| 0 < d < old_subs.len() implies #[trigger] to_dst(
            p.take(run_end(p, batch@, 0)),
            d as u8,
        ) == Seq::<UntypedMessage>::empty() by {
            let pre = p.take(run_end(p, batch@, 0));
            assert(forall|i: int| 0 <= i < pre.len() ==> (#[trigger] pre[i]).dst == p[i].dst);
            lemma_to_dst_uniform(pre, d as u8);
        }
        assert forall|d: int| 0 < d < old_subs.len() implies #[trigger] subs@[d].incoming.pending()
            == old_subs[d].incoming.pending() + to_dst(p.take(run_end(p, batch@, 0)), d as u8) by {
            assert(old_subs[d].incoming.pending() + Seq::<UntypedMessage>::empty() =~= old_subs[d].incoming.pending());
        }
    }
    let mut k: usize = 0;
    while k < batch.len()
        invariant
            all_wf(old_subs),
            0 < old_subs.len() <= 256,
            p == pool@,
            runs(p, batch@),
            forall|i: int| 0 <= i < p.len() ==> (#[trigger] p[i]).dst < old_subs.len(),
            forall|d: int|
                0 < d < old_subs.len() ==> #[trigger] old_subs[d].incoming.spec_count() + to_dst(
                    p,
                    d as u8,
                ).len() <= M,
            k <= batch@.len(),
            subs@.len() == old_subs.len(),
            all_wf(subs@),
            forall|d: int|
                0 < d < old_subs.len() ==> #[trigger] subs@[d].incoming.pending() == old_subs[d].incoming.pending()
                    + to_dst(p.take(run_end(p, batch@, k as int)), d as u8),
            forall|i: int| 0 <= i < old_subs.len() ==> #[trigger] subs@[i].outgoing == old_subs[i].outgoing,
            forall|i: int| 0 <= i < old_subs.len() ==> #[trigger] subs@[i].sub == old_subs[i].sub,
            subs@[0].incoming == old_subs[0].incoming,
            forall|d: int|
                0 < d < old_subs.len() && to_dst(p.take(run_end(p, batch@, k as int)), d as u8).len() == 0
                    ==> #[trigger] subs@[d].incoming == old_subs[d].incoming,
            forall|d: int|
                0 < d < old_subs.len() ==> #[trigger] subs@[d].incoming.inner().slots().skip(
                    subs@[d].incoming.spec_count() as int,
                ) == old_subs[d].incoming.inner().slots().skip(subs@[d].incoming.spec_count() as int),
        decreases batch@.len() - k,
    {
        let (dst, len, ptr_location) = batch[k];
        let ghost seg = p.subrange(ptr_location as int, ptr_location + len);
        let ghost before = p.take(run_end(p, batch@, k as int));
        let ghost after = p.take(run_end(p, batch@, k + 1));
        proof {
            assert(batch@[k as int] == (dst, len, ptr_location));
            assert(run_end(p, batch@, k as int) == ptr_location);
            assert(run_end(p, batch@, k + 1) == ptr_location + len);
            assert(after == before + seg);
            assert(forall|i: int| 0 <= i < seg.len() ==> (#[trigger] seg[i]).dst == p[ptr_location + i].dst);
            assert(p[ptr_location as int].dst == dst);
            assert forall|d: int| 0 < d < old_subs.len() implies #[trigger] to_dst(after, d as u8) == to_dst(
                before,
                d as u8,
            ) + if d == dst {
                seg
            } else {
                Seq::<UntypedMessage>::empty()
            } by {
                Seq::filter_distributes_over_add(before, seg, |m: UntypedMessage| m.dst == d as u8);
                lemma_to_dst_uniform(seg, d as u8);
                if d != dst {
                    assert(to_dst(before, d as u8) + Seq::<UntypedMessage>::empty() =~= to_dst(before, d as u8));
                }
            }
            p.lemma_filter_take_len(|m: UntypedMessage| m.dst == dst, run_end(p, batch@, k + 1));
            assert(subs@[dst as int].wf());
            assert(old_subs[dst as int].wf());
            assert(dst < old_subs.len());
            let dd = dst as int;
            assert(0 < dd < old_subs.len());
            assert(to_dst(after, dd as u8) == to_dst(before, dd as u8) + seg);
            assert(dd as u8 == dst);
            assert(to_dst(after, dst) == to_dst(before, dst) + seg);
            assert(subs@[dst as int].incoming.spec_count() == subs@[dst as int].incoming.pending().len());
            assert(old_subs[dst as int].incoming.spec_count() == old_subs[dst as int].incoming.pending().len());
            assert(subs@[dst as int].incoming.pending() == old_subs[dst as int].incoming.pending() + to_dst(before, dst));
            assert(old_subs[dst as int].incoming.spec_count() + to_dst(p, dst).len() <= M);
        }
        let read = pool.slice(len as usize, ptr_location);
        let ghost mid = subs@;
        subs[dst as usize].incoming_mut().write_slice(read);
        subs[dst as usize].incoming_mut().add_count(len);
        proof {
            assert(subs@[dst as int].incoming.pending() =~= mid[dst as int].incoming.pending() + seg);
            assert forall|d: int| 0 < d < old_subs.len() implies #[trigger] subs@[d].incoming.pending()
                == old_subs[d].incoming.pending() + to_dst(after, d as u8) by {
                if d == dst {
                    assert(old_subs[d].incoming.pending() + (to_dst(before, d as u8) + seg)
                        =~= old_subs[d].incoming.pending() + to_dst(before, d as u8) + seg);
                }
            }
            assert forall|d: int|
                0 < d < old_subs.len() && to_dst(after, d as u8).len() == 0 implies #[trigger] subs@[d].incoming
                    == old_subs[d].incoming by {
                if d == dst {
                    assert(seg.len() > 0);
                    assert(to_dst(after, d as u8).len() == to_dst(before, d as u8).len() + seg.len());
                } else {
                    assert(subs@[d] == mid[d]);
                }
            }
            assert forall|d: int| 0 < d < old_subs.len() implies #[trigger] subs@[d].incoming.inner().slots().skip(
                subs@[d].incoming.spec_count() as int,
            ) == old_subs[d].incoming.inner().slots().skip(subs@[d].incoming.spec_count() as int) by {
                if d == dst {
                    let c = mid[d].incoming.spec_count() as int;
                    let a = mid[d].incoming.inner().slots();
                    let o = old_subs[d].incoming.inner().slots();
                    let e = c + seg.len();
                    assert(a.skip(c) == o.skip(c));
                    assert(a.len() == o.len());
                    assert(subs@[d].incoming.spec_count() == e);
                    assert forall|j: int| 0 <= j < a.len() - e implies a.skip(e)[j] == o.skip(e)[j] by {
                        assert(a.skip(e)[j] == a.skip(c)[j + seg.len()]);
                        assert(o.skip(e)[j] == o.skip(c)[j + seg.len()]);
                    }
                    assert(subs@[d].incoming.inner().slots().skip(e) =~= o.skip(e));
                } else {
                    assert(subs@[d] == mid[d]);
                }
            }
        }
        k = k + 1;
    }
    proof {
        assert(p.take(p.len() as int) == p);
    }
    batch.clear();
}

/// Delivering the busy senders and then the scalar senders delivers, up to
/// order, what the senders `0..n` deliver one after the other; idle senders
/// deliver nothing.
proof fn lemma_delivered_split<S, const M: usize>(
    lut: LookupTable,
    subs: Seq<SubscriberData<S, M>>,
    n: int,
    d: u8,
)
    requires
        0 <= n <= subs.len(),
        n <= 256,
        all_wf(subs),
    ensures
        delivered_upto(lut, subs, n, d).to_multiset() == delivered(
            lut,
            subs,
            srcs_in_bucket(out_counts(subs, n), 0),
            d,
        ).to_multiset().add(
            delivered(lut, subs, srcs_in_bucket(out_counts(subs, n), 1), d).to_multiset(),
        ),
    decreases n,
{
    broadcast use vstd::seq_lib::group_to_multiset_ensures;

    let c = out_counts(subs, n);
    if n > 0 {
        lemma_delivered_split(lut, subs, n - 1, d);
        let c1 = out_counts(subs, n - 1);
        assert(c.drop_last() =~= c1);
        let x = ((n - 1) as u8) as int;
        assert(x == n - 1);
        let extra = to_dst(sent_by(lut, subs, n - 1), d);
        let b0 = srcs_in_bucket(c1, 0);
        let b1 = srcs_in_bucket(c1, 1);
        vstd::seq_lib::lemma_multiset_commutative(delivered_upto(lut, subs, n - 1, d), extra);
        vstd::seq_lib::lemma_multiset_commutative(delivered(lut, subs, b0, d), extra);
        vstd::seq_lib::lemma_multiset_commutative(delivered(lut, subs, b1, d), extra);
        if bucket(c.last() as int) == 0 {
            assert(srcs_in_bucket(c, 0) == b0.push((n - 1) as u8));
            assert(b0.push((n - 1) as u8).drop_last() == b0);
            assert(delivered(lut, subs, srcs_in_bucket(c, 0), d) == delivered(lut, subs, b0, d) + extra);
            assert(srcs_in_bucket(c, 1) == b1);
        } else if bucket(c.last() as int) == 1 {
            assert(srcs_in_bucket(c, 1) == b1.push((n - 1) as u8));
            assert(b1.push((n - 1) as u8).drop_last() == b1);
            assert(delivered(lut, subs, srcs_in_bucket(c, 1), d) == delivered(lut, subs, b1, d) + extra);
            assert(srcs_in_bucket(c, 0) == b0);
        } else {
            assert(subs[n - 1].outgoing.spec_count() == 0);
            assert(queue_of(subs, n - 1) =~= Seq::<UntypedMessage>::empty());
            assert(sent_by(lut, subs, n - 1) =~= Seq::<UntypedMessage>::empty());
            lemma_to_dst_uniform(sent_by(lut, subs, n - 1), d);
            assert(extra =~= Seq::<UntypedMessage>::empty());
            assert(srcs_in_bucket(c, 0) == b0);
            assert(srcs_in_bucket(c, 1) == b1);
            assert(delivered_upto(lut, subs, n, d) =~= delivered_upto(lut, subs, n - 1, d));
        }
    } else {
        assert(c =~= Seq::<u32>::empty());
    }
}

/// With no busy sender, the scalar senders, in order, deliver exactly what all
/// the senders deliver, in the same order: the idle ones send nothing.
proof fn lemma_delivered_scalar_only<S, const M: usize>(
    lut: LookupTable,
    subs: Seq<SubscriberData<S, M>>,
    n: int,
    d: u8,
)
    requires
        0 <= n <= subs.len(),
        n <= 256,
        all_wf(subs),
        srcs_in_bucket(out_counts(subs, n), 0).len() == 0,
    ensures
        delivered(lut, subs, srcs_in_bucket(out_counts(subs, n), 1), d) == delivered_upto(lut, subs, n, d),
    decreases n,
{
    let c = out_counts(subs, n);
    if n > 0 {
        let c1 = out_counts(subs, n - 1);
        assert(c.drop_last() =~= c1);
        let b1 = srcs_in_bucket(c1, 1);
        assert(bucket(c.last() as int) != 0);
        assert(srcs_in_bucket(c, 0) == srcs_in_bucket(c1, 0));
        lemma_delivered_scalar_only(lut, subs, n - 1, d);
        let x = ((n - 1) as u8) as int;
        assert(x == n - 1);
        let extra = to_dst(sent_by(lut, subs, n - 1), d);
        if bucket(c.last() as int) == 1 {
            assert(srcs_in_bucket(c, 1) == b1.push((n - 1) as u8));
            assert(b1.push((n - 1) as u8).drop_last() == b1);
        } else {
            assert(subs[n - 1].wf());
            assert(subs[n - 1].outgoing.spec_count() == 0);
            assert(queue_of(subs, n - 1) =~= Seq::<UntypedMessage>::empty());
            assert(sent_by(lut, subs, n - 1) =~= Seq::<UntypedMessage>::empty());
            lemma_to_dst_uniform(sent_by(lut, subs, n - 1), d);
            assert(extra =~= Seq::<UntypedMessage>::empty());
            assert(srcs_in_bucket(c, 1) == b1);
            assert(delivered_upto(lut, subs, n, d) =~= delivered_upto(lut, subs, n - 1, d));
        }
    } else {
        assert(c =~= Seq::<u32>::empty());
    }
}

/// What a dispatch of the senders `0..=last` needs: the table and the slots
/// are well formed, every sender's messages can be prepared, and every
/// receiver has room for what it is sent.
pub open spec fn dispatch_ready<S, const M: usize>(
    lut: LookupTable,
    subs: Seq<SubscriberData<S, M>>,
    last: int,
) -> bool {
    &&& lut.wf()
    &&& all_wf(subs)
    &&& 0 < subs.len() <= 256
    &&& 0 <= last < subs.len()
    &&& last < 255
    &&& forall|src: int| 0 <= src <= last ==> #[trigger] senders_valid(lut, subs, src)
    &&& forall|d: int|
        0 < d < subs.len() ==> #[trigger] subs[d].incoming.spec_count() + delivered_upto(
            lut,
            subs,
            last + 1,
            d as u8,
        ).len() <= M
    &&& subs[0].incoming.spec_count() < M
}

/// `after` is `before` once the senders `0..=last` are dispatched: every
/// receiver `d != 0` holds, up to order, its earlier messages and everything
/// the senders sent it, prepared; when no sender is busy enough for the batch
/// path, in order: its earlier messages, then what each sender sent it, sender
/// by sender, each in the order queued. The senders' outgoing buffers are
/// empty; every other outgoing buffer and every subscriber is unchanged.
pub open spec fn dispatched<S, const M: usize>(
    lut: LookupTable,
    before: Seq<SubscriberData<S, M>>,
    after: Seq<SubscriberData<S, M>>,
    last: int,
) -> bool {
    &&& after.len() == before.len()
    &&& all_wf(after)
    &&& forall|d: int|
        0 < d < before.len() ==> #[trigger] after[d].incoming.pending().to_multiset()
            == before[d].incoming.pending().to_multiset().add(
            delivered_upto(lut, before, last + 1, d as u8).to_multiset(),
        )
    &&& srcs_in_bucket(out_counts(before, last + 1), 0).len() == 0 ==> forall|d: int|
        0 < d < before.len() ==> #[trigger] after[d].incoming.pending() == before[d].incoming.pending()
            + delivered_upto(lut, before, last + 1, d as u8)
    &&& forall|i: int| 0 <= i <= last ==> #[trigger] after[i].outgoing.spec_count() == 0
    &&& forall|i: int| last < i < before.len() ==> #[trigger] after[i].outgoing == before[i].outgoing
    &&& forall|i: int| 0 <= i < before.len() ==> #[trigger] after[i].sub == before[i].sub
    &&& after[0].incoming.spec_count() < M
}

/// The dispatch machinery: the plan of the current dispatch and the runs of
/// the pool.
#[derive(Debug)]
pub struct MessagePipeline {
    plan: PipelinePlan,
    batch: Vec<(u8, u32, usize)>,
}

impl MessagePipeline {
    pub open spec fn wf(self) -> bool {
        self.spec_batch().len() == 0
    }

    pub closed spec fn spec_batch(self) -> Seq<(u8, u32, usize)> {
        self.batch@
    }

    pub fn new() -> (r: Self)
        ensures
            r.wf(),
    {
        MessagePipeline { plan: PipelinePlan::new(), batch: Vec::new() }
    }

    /// Moves every message queued by the senders `0..=last` into the incoming
    /// buffer of its destination, prepared.
    pub fn dispatch_messages<S, const M: usize>(
        &mut self,
        lut: &LookupTable,
        subs: &mut Vec<SubscriberData<S, M>>,
        pool: &mut MessagePool,
        last: u8,
    )
        requires
            old(self).wf(),
            dispatch_ready(*lut, old(subs)@, last as int),
            old(pool).wf(),
            old(pool)@.len() == 0,
            batched(*lut, old(subs)@, srcs_in_bucket(out_counts(old(subs)@, last + 1), 0)).len()
                <= old(pool).spec_capacity(),
        ensures
            final(self).wf(),
            dispatched(*lut, old(subs)@, final(subs)@, last as int),
            final(pool).wf(),
            final(pool)@.len() == 0,
            final(pool).spec_capacity() == old(pool).spec_capacity(),
    {
        broadcast use {vstd::seq_lib::group_to_multiset_ensures, vstd::multiset::group_multiset_axioms};

        let ghost s0 = subs@;
        let ghost n = last + 1;
        let ghost counts = out_counts(s0, n);
        let ghost busy = srcs_in_bucket(counts, 0);
        let ghost scalar = srcs_in_bucket(counts, 1);
        self.plan.prepare(subs, last);
        let indices = self.plan.indices;
        let nb = self.plan.offsets.batch as usize;
        let ns = self.plan.offsets.scalar as usize;
        proof {
            lemma_bucket_lengths(counts);
            lemma_bucket_members(counts, 0);
            lemma_bucket_members(counts, 1);
            assert(indices@.subrange(0, nb as int) == busy);
            assert(indices@.subrange(nb as int, (nb + ns) as int) == scalar);
            assert forall|j: int| 0 <= j < busy.len() implies senders_valid(*lut, s0, #[trigger] busy[j] as int) by {
                assert(busy[j] < n);
            }
            assert forall|j: int| 0 <= j < scalar.len() implies senders_valid(*lut, s0, #[trigger] scalar[j] as int) by {
                assert(scalar[j] < n);
            }
            assert forall|d: int| 0 < d < s0.len() implies #[trigger] delivered(*lut, s0, busy, d as u8).len()
                + delivered(*lut, s0, scalar, d as u8).len() == delivered_upto(*lut, s0, n, d as u8).len() by {
                lemma_delivered_split(*lut, s0, n, d as u8);
                vstd::seq_lib::to_multiset_len(delivered_upto(*lut, s0, n, d as u8));
                vstd::seq_lib::to_multiset_len(delivered(*lut, s0, busy, d as u8));
                vstd::seq_lib::to_multiset_len(delivered(*lut, s0, scalar, d as u8));
            }
        }
        let ghost s_plan = subs@;
        assert(s_plan == s0);
        if nb != 0 {
            let busy_slice = &indices.as_slice()[0..nb];
            assert(busy_slice@ == busy);
            prepare_batches(lut, subs, pool, busy_slice);
            let ghost s1 = subs@;
            let ghost collected = pool@;
            proof {
                assert(collected =~= batched(*lut, s0, busy));
                assert forall|d: u8| d != 0 implies #[trigger] to_dst(pool@, d).len() <= u32::MAX by {
                    lemma_batched_to_dst(*lut, s0, busy, d);
                    let di = d as int;
                    if di < s0.len() {
                        assert(s0[di].wf());
                        assert(delivered(*lut, s0, busy, di as u8).len() + delivered(*lut, s0, scalar, di as u8).len()
                            == delivered_upto(*lut, s0, n, di as u8).len());
                        assert(s0[di].incoming.spec_count() + delivered_upto(*lut, s0, last + 1, di as u8).len() <= M);
                        assert(di as u8 == d);
                    } else {
                        lemma_delivered_outside(*lut, s0, busy, d);
                    }
                }
            }
            batch_messages(pool, &mut self.batch);
            proof {
                assert forall|i: int| 0 <= i < pool@.len() implies (#[trigger] pool@[i]).dst < s1.len() by {
                    let m = pool@[i];
                    if m.dst >= s1.len() {
                        lemma_to_dst_permutation(pool@, collected, m.dst);
                        lemma_batched_to_dst(*lut, s0, busy, m.dst);
                        lemma_delivered_outside(*lut, s0, busy, m.dst);
                        assert(pool@.contains(m));
                        pool@.lemma_filter_contains_rev(|x: UntypedMessage| x.dst == m.dst, m);
                        assert(to_dst(pool@, m.dst).len() > 0);
                    }
                }
                assert forall|d: int| 0 < d < s1.len() implies #[trigger] s1[d].incoming.spec_count() + to_dst(
                    pool@,
                    d as u8,
                ).len() <= M by {
                    lemma_to_dst_permutation(pool@, collected, d as u8);
                    lemma_batched_to_dst(*lut, s0, busy, d as u8);
                    assert(s1[d].incoming == s0[d].incoming);
                }
            }
            send_batches(subs, pool, &mut self.batch);
            proof {
                let s2 = subs@;
                assert forall|d: int| 0 < d < s0.len() implies #[trigger] s2[d].incoming.pending().to_multiset()
                    == s0[d].incoming.pending().to_multiset().add(
                    delivered(*lut, s0, busy, d as u8).to_multiset(),
                ) by {
                    lemma_to_dst_permutation(pool@, collected, d as u8);
                    lemma_batched_to_dst(*lut, s0, busy, d as u8);
                    vstd::seq_lib::lemma_multiset_commutative(
                        s0[d].incoming.pending(),
                        to_dst(pool@, d as u8),
                    );
                    assert(s1[d].incoming == s0[d].incoming);
                }
            }
            pool.clear();
        } else {
            proof {
                assert(busy.len() == 0);
                assert forall|d: int| 0 < d < s0.len() implies #[trigger] subs@[d].incoming.pending().to_multiset()
                    == s0[d].incoming.pending().to_multiset().add(
                    delivered(*lut, s0, busy, d as u8).to_multiset(),
                ) by {
                    assert(delivered(*lut, s0, busy, d as u8) =~= Seq::<UntypedMessage>::empty());
                    assert(s0[d].incoming.pending().to_multiset().add(Seq::<UntypedMessage>::empty().to_multiset())
                        =~= s0[d].incoming.pending().to_multiset());
                }
            }
        }
        let ghost s2 = subs@;
        proof {
            assert forall|j: int| 0 <= j < scalar.len() implies #[trigger] s2[scalar[j] as int].outgoing
                == s0[scalar[j] as int].outgoing by {
                if busy.contains(scalar[j]) {
                    let k = choose|k: int| 0 <= k < busy.len() && busy[k] == scalar[j];
                    assert(bucket(counts[busy[k] as int] as int) == 0);
                    assert(bucket(counts[scalar[j] as int] as int) == 1);
                }
            }
        }
        if ns != 0 {
            let scalar_slice = &indices.as_slice()[nb..nb + ns];
            assert(scalar_slice@ == scalar);
            proof {
                assert forall|j: int| 0 <= j < scalar.len() implies senders_valid(*lut, s2, #[trigger] scalar[j] as int) by {
                    assert(s2[scalar[j] as int].outgoing == s0[scalar[j] as int].outgoing);
                    assert(senders_valid(*lut, s0, scalar[j] as int));
                    assert(sent_by(*lut, s2, scalar[j] as int) == sent_by(*lut, s0, scalar[j] as int));
                    assert(s2[scalar[j] as int].wf());
                }
                lemma_delivered_same_outgoing(*lut, s2, s0, scalar, 0);
                assert forall|d: int| 0 < d < s2.len() implies #[trigger] s2[d].incoming.spec_count() + delivered(
                    *lut,
                    s2,
                    scalar,
                    d as u8,
                ).len() <= M by {
                    lemma_delivered_same_outgoing(*lut, s2, s0, scalar, d as u8);
                    vstd::seq_lib::to_multiset_len(s2[d].incoming.pending());
                    vstd::seq_lib::to_multiset_len(s0[d].incoming.pending());
                    vstd::seq_lib::to_multiset_len(delivered(*lut, s0, busy, d as u8));
                    assert(s2[d].wf());
                    assert(s0[d].wf());
                }
            }
            prepare_and_send_direct_all(lut, subs, scalar_slice);
        }
        proof {
            let s3 = subs@;
            if busy.len() == 0 {
                assert(s2 == s0);
                assert forall|d: int| 0 < d < s0.len() implies #[trigger] s3[d].incoming.pending()
                    == s0[d].incoming.pending() + delivered_upto(*lut, s0, n, d as u8) by {
                    lemma_delivered_scalar_only(*lut, s0, n, d as u8);
                    if ns == 0 {
                        assert(delivered(*lut, s0, scalar, d as u8) =~= Seq::<UntypedMessage>::empty());
                        assert(s0[d].incoming.pending() + Seq::<UntypedMessage>::empty() =~= s0[d].incoming.pending());
                    }
                }
            }
            assert forall|i: int| 0 <= i <= last implies #[trigger] s3[i].outgoing.spec_count() == 0 by {
                lemma_bucket_complete(counts, i);
                assert(counts[i] == s0[i].outgoing.spec_count());
                let b = bucket(counts[i] as int);
                let k = choose|k: int| 0 <= k < srcs_in_bucket(counts, b).len() && srcs_in_bucket(counts, b)[k] == i as u8;
                assert(i as u8 as int == i);
                if b == 2 {
                    if busy.contains(i as u8) {
                        let kk = choose|kk: int| 0 <= kk < busy.len() && busy[kk] == i as u8;
                        assert(bucket(counts[busy[kk] as int] as int) == 0);
                    }
                    if scalar.contains(i as u8) {
                        let kk = choose|kk: int| 0 <= kk < scalar.len() && scalar[kk] == i as u8;
                        assert(bucket(counts[scalar[kk] as int] as int) == 1);
                    }
                }
            }
            assert forall|i: int| last < i < s0.len() implies #[trigger] s3[i].outgoing == s0[i].outgoing by {
                if busy.contains(i as u8) {
                    let kk = choose|kk: int| 0 <= kk < busy.len() && busy[kk] == i as u8;
                    assert(busy[kk] < n);
                }
                if scalar.contains(i as u8) {
                    let kk = choose|kk: int| 0 <= kk < scalar.len() && scalar[kk] == i as u8;
                    assert(scalar[kk] < n);
                }
            }
            assert forall|d: int| 0 < d < s0.len() implies #[trigger] s3[d].incoming.pending().to_multiset()
                == s0[d].incoming.pending().to_multiset().add(
                delivered_upto(*lut, s0, n, d as u8).to_multiset(),
            ) by {
                lemma_delivered_split(*lut, s0, n, d as u8);
                lemma_delivered_same_outgoing(*lut, s2, s0, scalar, d as u8);
                if ns != 0 {
                    vstd::seq_lib::lemma_multiset_commutative(
                        s2[d].incoming.pending(),
                        delivered(*lut, s0, scalar, d as u8),
                    );
                } else {
                    assert(delivered(*lut, s0, scalar, d as u8) =~= Seq::<UntypedMessage>::empty());
                }
                assert(s0[d].incoming.pending().to_multiset().add(delivered(*lut, s0, busy, d as u8).to_multiset()).add(
                    delivered(*lut, s0, scalar, d as u8).to_multiset())
                    =~= s0[d].incoming.pending().to_multiset().add(
                    delivered_upto(*lut, s0, n, d as u8).to_multiset()));
            }
        }
    }
}

/// Nothing is delivered to a destination beyond the slots.
proof fn lemma_delivered_outside<S, const M: usize>(
    lut: LookupTable,
    subs: Seq<SubscriberData<S, M>>,
    srcs: Seq<u8>,
    d: u8,
)
    requires
        forall|j: int| 0 <= j < srcs.len() ==> senders_valid(lut, subs, #[trigger] srcs[j] as int),
        d >= subs.len(),
    ensures
        delivered(lut, subs, srcs, d).len() == 0,
    decreases srcs.len(),
{
    if srcs.len() > 0 {
        let init = srcs.drop_last();
        assert forall|j: int| 0 <= j < init.len() implies senders_valid(lut, subs, #[trigger] init[j] as int) by {
            assert(init[j] == srcs[j]);
        }
        lemma_delivered_outside(lut, subs, init, d);
        let src = srcs.last() as int;
        assert(senders_valid(lut, subs, srcs[srcs.len() - 1] as int));
        let sent = sent_by(lut, subs, src);
        assert(forall|i: int| 0 <= i < sent.len() ==> (#[trigger] sent[i]).dst != d);
        lemma_to_dst_uniform(sent, d);
    }
}

/// What a prefix of the senders delivers is a prefix of what more senders
/// deliver.
pub proof fn lemma_delivered_upto_prefix<S, const M: usize>(
    lut: LookupTable,
    subs: Seq<SubscriberData<S, M>>,
    k: int,
    n: int,
    d: u8,
)
    requires
        0 <= k <= n,
    ensures
        delivered_upto(lut, subs, k, d).len() <= delivered_upto(lut, subs, n, d).len(),
    decreases n - k,
{
    if k < n {
        lemma_delivered_upto_prefix(lut, subs, k, n - 1, d);
    }
}

/// The batch of the senders `srcs` holds at most `M` messages per sender.
pub proof fn lemma_batched_bound<S, const M: usize>(
    lut: LookupTable,
    subs: Seq<SubscriberData<S, M>>,
    srcs: Seq<u8>,
)
    requires
        forall|j: int| 0 <= j < srcs.len() ==> (#[trigger] srcs[j] as int) < subs.len(),
        all_wf(subs),
    ensures
        batched(lut, subs, srcs).len() <= srcs.len() * M,
    decreases srcs.len(),
{
    if srcs.len() > 0 {
        let init = srcs.drop_last();
        assert forall|j: int| 0 <= j < init.len() implies (#[trigger] init[j] as int) < subs.len() by {
            assert(init[j] == srcs[j]);
        }
        lemma_batched_bound(lut, subs, init);
        let src = srcs.last() as int;
        assert((srcs[srcs.len() - 1] as int) < subs.len());
        assert(subs[src].wf());
        assert(sent_by(lut, subs, src).len() <= M);
        assert(init.len() * M + M == srcs.len() * M) by (nonlinear_arith)
            requires
                init.len() + 1 == srcs.len(),
        ;
    }
}

/// Whether the senders `0..=last` can be dispatched: checks every queued
/// message and the room of every receiver.
pub fn can_dispatch<S, const M: usize>(
    lut: &LookupTable,
    subs: &Vec<SubscriberData<S, M>>,
    last: u8,
) -> (r: bool)
    requires
        lut.wf(),
        all_wf(subs@),
        0 < subs@.len() <= 256,
        (last as int) < subs@.len(),
        last < 255,
        subs@.len() <= lut.spec_max_subscribers(),
    ensures
        r == dispatch_ready(*lut, subs@, last as int),
{
    let len = subs.len();
    let groups = lut.max_groups();
    let n: usize = last as usize + 1;
    let mut totals: Vec<u64> = Vec::new();
    let mut t: usize = 0;
    while t < len
        invariant
            t <= len,
            totals@.len() == t,
            forall|d: int| 0 <= d < t ==> totals@[d] == 0,
        decreases len - t,
    {
        totals.push(0);
        t = t + 1;
    }
    let mut src: usize = 0;
    while src < n
        invariant
            lut.wf(),
            all_wf(subs@),
            len == subs@.len(),
            0 < len <= 256,
            n == last + 1,
            n <= len,
            len <= lut.spec_max_subscribers(),
            groups == lut.spec_max_groups(),
            src <= n,
            totals@.len() == len,
            forall|d: int| 0 <= d < len ==> #[trigger] totals@[d] == delivered_upto(*lut, subs@, src as int, d as u8).len(),
            forall|d: int| 0 <= d < len ==> #[trigger] delivered_upto(*lut, subs@, src as int, d as u8).len() <= src * M,
            forall|x: int| 0 <= x < src ==> #[trigger] senders_valid(*lut, subs@, x),
        decreases n - src,
    {
        let q = subs[src].outgoing.read_slice();
        let ghost sent = sent_by(*lut, subs@, src as int);
        assert(subs@[src as int].wf());
        let mut i: usize = 0;
        while i < q.len()
            invariant
                lut.wf(),
                all_wf(subs@),
                len == subs@.len(),
                0 < len <= 256,
                n <= len,
                n == last + 1,
                src < n,
                len <= lut.spec_max_subscribers(),
                groups == lut.spec_max_groups(),
                q@ == queue_of(subs@, src as int),
                q@.len() <= M,
                sent == sent_by(*lut, subs@, src as int),
                i <= q@.len(),
                totals@.len() == len,
                forall|d: int| 0 <= d < len ==> #[trigger] totals@[d] == delivered_upto(*lut, subs@, src as int, d as u8).len()
                    + to_dst(sent.take(i as int), d as u8).len(),
                forall|d: int| 0 <= d < len ==> #[trigger] delivered_upto(*lut, subs@, src as int, d as u8).len() <= src * M,
                forall|k: int| 0 <= k < i ==> (#[trigger] sent[k]).dst < len,
            decreases q@.len() - i,
        {
            let m = q[i];
            let mut prepared_m = m;
            ScalarInstructionSet::prepare_single_message(lut, src, &mut prepared_m);
            assert(prepared_m == sent[i as int]);
            let dst = prepared_m.dst as usize;
            if dst >= len {
                proof {
                    assert(sent_by(*lut, subs@, src as int)[i as int].dst == dst);
                    assert(!senders_valid(*lut, subs@, src as int));
                }
                return false;
            }
            proof {
                lemma_to_dst_take_step(sent, i as int, prepared_m.dst);
                lemma_to_dst_take_step(sent, i as int, (dst as int) as u8);
                assert(to_dst(sent.take(i + 1), dst as u8).len() <= to_dst(sent, dst as u8).len());
                assert(to_dst(sent, dst as u8).len() <= sent.len()) by {
                    sent.lemma_filter_len(|x: UntypedMessage| x.dst == dst as u8);
                }
                assert(totals@[dst as int] + 1 <= src * M + M);
                assert(src * M + M <= 256 * 0xFFFF_FFFFu64) by (nonlinear_arith)
                    requires
                        src < 256,
                        M <= 0xFFFF_FFFFu64,
                ;
            }
            let cur = totals[dst];
            totals.set(dst, cur + 1);
            proof {
                assert forall|d: int| 0 <= d < len implies #[trigger] totals@[d] == delivered_upto(*lut, subs@, src as int, d as u8).len()
                    + to_dst(sent.take(i + 1), d as u8).len() by {
                    lemma_to_dst_take_step(sent, i as int, d as u8);
                }
            }
            i = i + 1;
        }
        proof {
            assert(sent.take(q@.len() as int) == sent);
            assert(senders_valid(*lut, subs@, src as int));
            assert forall|d: int| 0 <= d < len implies #[trigger] delivered_upto(*lut, subs@, src + 1, d as u8).len() <= (src + 1) * M by {
                sent.lemma_filter_len(|x: UntypedMessage| x.dst == d as u8);
                assert(src * M + M == (src + 1) * M) by (nonlinear_arith);
                assert(delivered_upto(*lut, subs@, src as int, d as u8).len() <= src * M);
                assert(sent.len() == q@.len());
                assert(delivered_upto(*lut, subs@, src + 1, d as u8) == delivered_upto(*lut, subs@, src as int, d as u8)
                    + to_dst(sent, d as u8));
            }
        }
        src = src + 1;
    }
    let c0 = subs[0].incoming.count() as usize;
    if c0 >= M {
        return false;
    }
    let mut d: usize = 1;
    while d < len
        invariant
            lut.wf(),
            all_wf(subs@),
            len == subs@.len(),
            0 < len <= 256,
            n == last + 1,
            1 <= d <= len,
            totals@.len() == len,
            forall|x: int| 0 <= x < len ==> #[trigger] totals@[x] == delivered_upto(*lut, subs@, n as int, x as u8).len(),
            forall|x: int| 0 <= x < len ==> #[trigger] delivered_upto(*lut, subs@, n as int, x as u8).len() <= n * M,
            forall|x: int| 1 <= x < d ==> #[trigger] subs@[x].incoming.spec_count() + delivered_upto(*lut, subs@, n as int, x as u8).len() <= M,
        decreases len - d,
    {
        let c = subs[d].incoming.count() as u64;
        proof {
            assert(totals@[d as int] <= n * M);
            assert(n * M <= 256 * 0xFFFF_FFFFu64) by (nonlinear_arith)
                requires
                    n <= 256,
                    M <= 0xFFFF_FFFFu64,
            ;
            assert(subs@[0].wf());
        }
        if c + totals[d] > M as u64 {
            return false;
        }
        d = d + 1;
    }
    true
}

/// Whatever a sender queues, in whatever group and to whatever destination,
/// every message the bus prepares from it names one of the table's slots:
/// with a slot per row of the table, every sender can be dispatched, and what
/// holds a dispatch back is only a receiver without room.
pub proof fn lemma_senders_always_valid<S, const M: usize>(
    lut: LookupTable,
    subs: Seq<SubscriberData<S, M>>,
    src: int,
)
    requires
        lut.wf(),
        subs.len() == lut.spec_max_subscribers(),
        0 <= src < subs.len(),
        subs[src].wf(),
    ensures
        senders_valid(lut, subs, src),
{
    lemma_rows(lut);
    let sent = sent_by(lut, subs, src);
    assert forall|i: int| 0 <= i < sent.len() implies (#[trigger] sent[i]).dst < subs.len() by {
        let m = queue_of(subs, src)[i];
        assert(sent[i] == prepared(lut@, lut.spec_max_groups() as int, src, m));
    }
}

/// Every message that reaches receiver `d != 0` from the senders `0..n`
/// names `d`, carries the id of the sender that queued it (no subscriber can
/// pass a message off as another's), and arrives in a group that the routing
/// table granted (a message without permission goes to the sink instead).
pub proof fn lemma_delivered_stamped<S, const M: usize>(
    lut: LookupTable,
    subs: Seq<SubscriberData<S, M>>,
    n: int,
    d: u8,
)
    requires
        0 <= n <= 256,
        d != 0,
    ensures
        forall|i: int|
            0 <= i < delivered_upto(lut, subs, n, d).len() ==> {
                let m = #[trigger] delivered_upto(lut, subs, n, d)[i];
                &&& m.dst == d
                &&& m.group != 0
                &&& (m.src as int) < n
            },
    decreases n,
{
    if n > 0 {
        lemma_delivered_stamped(lut, subs, n - 1, d);
        let prev = delivered_upto(lut, subs, n - 1, d);
        let sent = sent_by(lut, subs, n - 1);
        let mine = to_dst(sent, d);
        let all = delivered_upto(lut, subs, n, d);
        assert(all == prev + mine);
        assert forall|i: int| 0 <= i < all.len() implies {
            let m = #[trigger] all[i];
            &&& m.dst == d
            &&& m.group != 0
            &&& (m.src as int) < n
        } by {
            if i >= prev.len() {
                let m = mine[i - prev.len()];
                assert(all[i] == m);
                assert(mine.contains(m));
                sent.lemma_filter_contains_rev(|x: UntypedMessage| x.dst == d, m);
                sent.lemma_filter_pred(|x: UntypedMessage| x.dst == d, i - prev.len());
                let j = choose|j: int| 0 <= j < sent.len() && sent[j] == m;
                let q = queue_of(subs, n - 1);
                assert(sent[j] == prepared(lut@, lut.spec_max_groups() as int, n - 1, q[j]));
            } else {
                assert(all[i] == prev[i]);
            }
        }
    }
}

} // verus!
