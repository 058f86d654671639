//! The plan of a dispatch: senders sorted into buckets by how many messages
//! they queued. Busy senders (128 messages or more) go through the shared pool
//! in one batch; the others are delivered message by message; idle senders are
//! skipped.
use vstd::prelude::*;

use crate::bus::SubscriberData;

verus! {

/// Number of buckets of the plan.
pub const MAX_SLICE_SIZE: usize = 3;

/// Fewest queued messages that make a sender busy.
pub const BATCH_THRESHOLD: usize = 128;

/// How many senders each bucket holds.
#[derive(Debug, Copy, Clone, PartialEq, Eq, PartialOrd, Ord, Hash)]
pub struct Offsets {
    pub batch: u8,
    pub scalar: u8,
    pub ignore: u8,
}

impl Default for Offsets {
    fn default() -> (r: Self)
        ensures
            r == (Offsets { batch: 0, scalar: 0, ignore: 0 }),
    {
        Offsets { batch: 0, scalar: 0, ignore: 0 }
    }
}

impl Offsets {
    /// Empties every bucket.
    pub fn reset(&mut self)
        ensures
            *final(self) == (Offsets { batch: 0, scalar: 0, ignore: 0 }),
    {
        *self = Offsets::default();
    }
}

/// The bucket of a sender with `count` queued messages: 0 busy, 1 scalar, 2 idle.
pub open spec fn bucket(count: int) -> int {
    if count >= BATCH_THRESHOLD {
        0
    } else if count >= 1 {
        1
    } else {
        2
    }
}

/// The senders among `0..counts.len()` whose count falls in bucket `b`, in order.
pub open spec fn srcs_in_bucket(counts: Seq<u32>, b: int) -> Seq<u8>
    decreases counts.len(),
{
    if counts.len() == 0 {
        Seq::empty()
    } else {
        let prev = srcs_in_bucket(counts.drop_last(), b);
        if bucket(counts.last() as int) == b {
            prev.push((counts.len() - 1) as u8)
        } else {
            prev
        }
    }
}

/// How a dispatch sorts senders into buckets.
pub trait Strategy {
    /// Counts a sender with `count` queued messages into its bucket.
    fn add_offset(offsets: &mut Offsets, count: usize)
        requires
            old(offsets).batch < 255,
            old(offsets).scalar < 255,
    ;

    /// The bucket of a sender with `count` queued messages.
    fn get_bucket_idx(count: usize) -> (r: usize)
        ensures
            r < MAX_SLICE_SIZE,
    ;

    /// The first position of each bucket in the plan.
    fn get_write_ptr(offsets: Offsets) -> (r: [u8; 3])
        requires
            offsets.batch + offsets.scalar <= 255,
    ;
}

/// The strategy of the scalar dispatch: busy senders in one batch, the others
/// one message at a time.
pub struct Fallback;

impl Strategy for Fallback {
    fn add_offset(offsets: &mut Offsets, count: usize)
        ensures
            final(offsets).batch == old(offsets).batch + if count >= BATCH_THRESHOLD {
                1int
            } else {
                0
            },
            final(offsets).scalar == old(offsets).scalar + if 1 <= count < BATCH_THRESHOLD {
                1int
            } else {
                0
            },
            final(offsets).ignore == if count == 0 {
                1u8
            } else {
                0
            },
    {
        offsets.batch = offsets.batch + if count >= BATCH_THRESHOLD {
            1
        } else {
            0
        };
        offsets.scalar = offsets.scalar + if 1 <= count && count < BATCH_THRESHOLD {
            1
        } else {
            0
        };
        offsets.ignore = if count == 0 {
            1
        } else {
            0
        };
    }

    fn get_bucket_idx(count: usize) -> (r: usize)
        ensures
            r == bucket(count as int),
    {
        let below: usize = if count < BATCH_THRESHOLD {
            1
        } else {
            0
        };
        let idle: usize = if count == 0 {
            1
        } else {
            0
        };
        below + idle
    }

    fn get_write_ptr(offsets: Offsets) -> (r: [u8; 3])
        ensures
            r@ == seq![0u8, offsets.batch, (offsets.batch + offsets.scalar) as u8],
    {
        let mut ptrs = [0u8; 3];
        let mut current: u8 = 0;
        current = current + offsets.batch;
        ptrs[1] = current;
        current = current + offsets.scalar;
        ptrs[2] = current;
        assert(ptrs@ =~= seq![0u8, offsets.batch, (offsets.batch + offsets.scalar) as u8]);
        ptrs
    }
}

/// The outgoing counts of slots `0..n`.
pub open spec fn out_counts<S, const M: usize>(subscribers: Seq<SubscriberData<S, M>>, n: int) -> Seq<
    u32,
> {
    Seq::new(n as nat, |i: int| subscribers[i].outgoing.spec_count())
}

/// The buckets of a dispatch and the senders in them.
#[derive(Debug)]
pub struct PipelinePlan {
    pub offsets: Offsets,
    pub indices: [u8; 256],
}

/// `indices` lists the busy senders of `counts`, then the scalar ones, then the
/// idle ones, each group in order; the rest of `indices` is zero.
pub open spec fn plan_of(counts: Seq<u32>, offsets: Offsets, indices: Seq<u8>) -> bool {
    let busy = srcs_in_bucket(counts, 0);
    let scalar = srcs_in_bucket(counts, 1);
    let idle = srcs_in_bucket(counts, 2);
    &&& offsets.batch == busy.len()
    &&& offsets.scalar == scalar.len()
    &&& indices.len() == 256
    &&& indices.subrange(0, busy.len() as int) == busy
    &&& indices.subrange(busy.len() as int, (busy.len() + scalar.len()) as int) == scalar
    &&& indices.subrange((busy.len() + scalar.len()) as int, counts.len() as int) == idle
    &&& forall|i: int| counts.len() <= i < 256 ==> indices[i] == 0
}

/// The three buckets together hold every sender once.
pub proof fn lemma_bucket_lengths(counts: Seq<u32>)
    ensures
        srcs_in_bucket(counts, 0).len() + srcs_in_bucket(counts, 1).len() + srcs_in_bucket(
            counts,
            2,
        ).len() == counts.len(),
    decreases counts.len(),
{
    if counts.len() > 0 {
        lemma_bucket_lengths(counts.drop_last());
    }
}

impl PipelinePlan {
    pub fn new() -> (r: Self)
        ensures
            r.offsets == (Offsets { batch: 0, scalar: 0, ignore: 0 }),
            forall|i: int| 0 <= i < 256 ==> r.indices@[i] == 0,
    {
        PipelinePlan { offsets: Offsets::default(), indices: [0u8; 256] }
    }

    /// Sorts the senders of slots `0..=last` into buckets by their outgoing
    /// counts.
    pub fn prepare<S, const M: usize>(&mut self, subscribers: &Vec<SubscriberData<S, M>>, last: u8)
        requires
            (last as int) < subscribers@.len(),
            last < 255,
        ensures
            plan_of(
                out_counts(subscribers@, last + 1),
                final(self).offsets,
                final(self).indices@,
            ),
            final(self).offsets.ignore == if subscribers@[last as int].outgoing.spec_count() == 0 {
                1u8
            } else {
                0
            },
    {
        let ghost counts = out_counts(subscribers@, last + 1);
        self.offsets.reset();
        self.indices = [0u8; 256];
        let n: usize = last as usize + 1;
        let mut src: usize = 0;
        while src < n
            invariant
                n == last + 1,
                n <= 255,
                n <= subscribers@.len(),
                counts == out_counts(subscribers@, n as int),
                src <= n,
                self.offsets.batch == srcs_in_bucket(counts.take(src as int), 0).len(),
                self.offsets.scalar == srcs_in_bucket(counts.take(src as int), 1).len(),
                src > 0 ==> self.offsets.ignore == if counts[src - 1] == 0 {
                    1u8
                } else {
                    0
                },
                forall|i: int| 0 <= i < 256 ==> self.indices@[i] == 0,
            decreases n - src,
        {
            proof {
                lemma_bucket_lengths(counts.take(src as int));
                assert(counts.take(src + 1).drop_last() == counts.take(src as int));
            }
            let count = subscribers[src].outgoing_ref().count();
            Fallback::add_offset(&mut self.offsets, count as usize);
            src = src + 1;
        }
        assert(counts.take(n as int) == counts);
        proof {
            lemma_bucket_lengths(counts);
        }
        let mut write_ptr = Fallback::get_write_ptr(self.offsets);
        let ghost planned = self.offsets;
        let ghost busy = srcs_in_bucket(counts, 0);
        let ghost scalar = srcs_in_bucket(counts, 1);
        let ghost idle = srcs_in_bucket(counts, 2);
        let ghost starts = seq![0int, busy.len() as int, (busy.len() + scalar.len()) as int];
        let ghost ends = seq![busy.len() as int, (busy.len() + scalar.len()) as int, n as int];
        proof {
            assert(counts.take(0) =~= Seq::<u32>::empty());
            assert(srcs_in_bucket(counts.take(0), 0) =~= Seq::<u8>::empty());
            assert(srcs_in_bucket(counts.take(0), 1) =~= Seq::<u8>::empty());
            assert(srcs_in_bucket(counts.take(0), 2) =~= Seq::<u8>::empty());
            assert(forall|b: int| 0 <= b < 3 ==> self.indices@.subrange(starts[b], starts[b])
                =~= Seq::<u8>::empty());
        }
        let mut src: usize = 0;
        while src < n
            invariant
                n == last + 1,
                n <= 255,
                n <= subscribers@.len(),
                counts == out_counts(subscribers@, n as int),
                src <= n,
                busy == srcs_in_bucket(counts, 0),
                scalar == srcs_in_bucket(counts, 1),
                idle == srcs_in_bucket(counts, 2),
                self.offsets == planned,
                planned.ignore == if counts[n - 1] == 0 {
                    1u8
                } else {
                    0
                },
                self.offsets.batch == busy.len(),
                self.offsets.scalar == scalar.len(),
                busy.len() + scalar.len() + idle.len() == n,
                starts == seq![0int, busy.len() as int, (busy.len() + scalar.len()) as int],
                ends == seq![busy.len() as int, (busy.len() + scalar.len()) as int, n as int],
                self.indices@.len() == 256,
                forall|b: int|
                    0 <= b < 3 ==> starts[b] + #[trigger] srcs_in_bucket(counts.take(src as int), b).len()
                        <= ends[b],
                forall|b: int|
                    0 <= b < 3 ==> #[trigger] write_ptr@[b] == starts[b] + srcs_in_bucket(
                        counts.take(src as int),
                        b,
                    ).len(),
                forall|b: int|
                    0 <= b < 3 ==> #[trigger] self.indices@.subrange(
                        starts[b],
                        starts[b] + srcs_in_bucket(counts.take(src as int), b).len(),
                    ) == srcs_in_bucket(counts.take(src as int), b),
                forall|i: int|
                    0 <= i < 256 && !(starts[0] <= i < starts[0] + srcs_in_bucket(
                        counts.take(src as int),
                        0,
                    ).len()) && !(starts[1] <= i < starts[1] + srcs_in_bucket(
                        counts.take(src as int),
                        1,
                    ).len()) && !(starts[2] <= i < starts[2] + srcs_in_bucket(
                        counts.take(src as int),
                        2,
                    ).len()) ==> #[trigger] self.indices@[i] == 0,
            decreases n - src,
        {
            let count = subscribers[src].outgoing_ref().count();
            let bucket_idx = Fallback::get_bucket_idx(count as usize);
            let ghost k = src as int;
            let ghost old_indices = self.indices@;
            proof {
                assert(counts[k] == count);
                lemma_bucket_prefix(counts, k);
                assert(srcs_in_bucket(counts.take(k), bucket_idx as int).len() < srcs_in_bucket(
                    counts,
                    bucket_idx as int,
                ).len());
                assert(srcs_in_bucket(counts.take(k), 0).len() <= busy.len());
            }
            let pos = write_ptr[bucket_idx];
            self.indices[pos as usize] = src as u8;
            write_ptr[bucket_idx] = pos + 1;
            src = src + 1;
            proof {
                assert forall|b: int| 0 <= b < 3 implies #[trigger] self.indices@.subrange(
                    starts[b],
                    starts[b] + srcs_in_bucket(counts.take(src as int), b).len(),
                ) == srcs_in_bucket(counts.take(src as int), b) by {
                    if b == bucket_idx {
                        assert(self.indices@.subrange(
                            starts[b],
                            starts[b] + srcs_in_bucket(counts.take(src as int), b).len(),
                        ) =~= old_indices.subrange(
                            starts[b],
                            starts[b] + srcs_in_bucket(counts.take(k), b).len(),
                        ).push(k as u8));
                    } else {
                        assert(self.indices@.subrange(
                            starts[b],
                            starts[b] + srcs_in_bucket(counts.take(src as int), b).len(),
                        ) =~= old_indices.subrange(
                            starts[b],
                            starts[b] + srcs_in_bucket(counts.take(k), b).len(),
                        ));
                    }
                }
            }
        }
        proof {
            assert(counts.take(n as int) =~= counts);
            assert(self.indices@.subrange(starts[0], starts[0] + srcs_in_bucket(counts.take(n as int), 0).len()) == srcs_in_bucket(counts.take(n as int), 0));
            assert(self.indices@.subrange(starts[1], starts[1] + srcs_in_bucket(counts.take(n as int), 1).len()) == srcs_in_bucket(counts.take(n as int), 1));
            assert(self.indices@.subrange(starts[2], starts[2] + srcs_in_bucket(counts.take(n as int), 2).len()) == srcs_in_bucket(counts.take(n as int), 2));
            assert(self.indices@.subrange(0, busy.len() as int) == busy);
            assert(self.indices@.subrange(busy.len() as int, (busy.len() + scalar.len()) as int)
                == scalar);
            assert(self.indices@.subrange((busy.len() + scalar.len()) as int, n as int) == idle);
        }
    }
}

/// Every bucket of a prefix of `counts` is a prefix of the bucket of `counts`,
/// and the buckets of a longer prefix grow by the next sender only in its bucket.
proof fn lemma_bucket_prefix(counts: Seq<u32>, k: int)
    requires
        0 <= k < counts.len(),
    ensures
        forall|b: int|
            #[trigger] srcs_in_bucket(counts.take(k + 1), b) == if bucket(counts[k] as int) == b {
                srcs_in_bucket(counts.take(k), b).push(k as u8)
            } else {
                srcs_in_bucket(counts.take(k), b)
            },
        forall|b: int|
            #[trigger] srcs_in_bucket(counts.take(k), b).len() < srcs_in_bucket(counts, b).len()
                || bucket(counts[k] as int) != b,
{
    assert(counts.take(k + 1).drop_last() == counts.take(k));
    assert forall|b: int| #[trigger]
        srcs_in_bucket(counts.take(k), b).len() < srcs_in_bucket(counts, b).len() || bucket(
            counts[k] as int,
        ) != b by {
        if bucket(counts[k] as int) == b {
            lemma_bucket_monotone(counts, k + 1, b);
        }
    }
}

/// The bucket of a prefix is no longer than the bucket of the whole.
proof fn lemma_bucket_monotone(counts: Seq<u32>, k: int, b: int)
    requires
        0 <= k <= counts.len(),
    ensures
        srcs_in_bucket(counts.take(k), b).len() <= srcs_in_bucket(counts, b).len(),
    decreases counts.len() - k,
{
    if k < counts.len() {
        lemma_bucket_monotone(counts, k + 1, b);
        assert(counts.take(k + 1).drop_last() == counts.take(k));
    } else {
        assert(counts.take(k) == counts);
    }
}

/// The senders of a bucket are senders of `counts` that fall in the bucket,
/// in increasing order.
pub proof fn lemma_bucket_members(counts: Seq<u32>, b: int)
    requires
        counts.len() <= 256,
    ensures
        forall|j: int|
            0 <= j < srcs_in_bucket(counts, b).len() ==> {
                &&& (#[trigger] srcs_in_bucket(counts, b)[j]) < counts.len()
                &&& bucket(counts[srcs_in_bucket(counts, b)[j] as int] as int) == b
            },
        forall|i: int, j: int|
            0 <= i < j < srcs_in_bucket(counts, b).len() ==> #[trigger] srcs_in_bucket(counts, b)[i]
                < #[trigger] srcs_in_bucket(counts, b)[j],
        srcs_in_bucket(counts, b).no_duplicates(),
    decreases counts.len(),
{
    if counts.len() > 0 {
        let init = counts.drop_last();
        lemma_bucket_members(init, b);
        assert forall|j: int| 0 <= j < init.len() implies init[j] == counts[j] by {}
    }
    let s = srcs_in_bucket(counts, b);
    assert forall|i: int, j: int| 0 <= i < s.len() && 0 <= j < s.len() && i != j implies s[i] != s[j] by {
        if i < j {
            assert(s[i] < s[j]);
        } else {
            assert(s[j] < s[i]);
        }
    }
}

/// Every sender is in the bucket of its count.
pub proof fn lemma_bucket_complete(counts: Seq<u32>, i: int)
    requires
        0 <= i < counts.len() <= 256,
    ensures
        srcs_in_bucket(counts, bucket(counts[i] as int)).contains(i as u8),
    decreases counts.len(),
{
    let b = bucket(counts[i] as int);
    let init = counts.drop_last();
    if i < counts.len() - 1 {
        lemma_bucket_complete(init, i);
        assert(init[i] == counts[i]);
        let prev = srcs_in_bucket(init, b);
        let k = choose|k: int| 0 <= k < prev.len() && prev[k] == i as u8;
        if bucket(counts.last() as int) == b {
            assert(srcs_in_bucket(counts, b) == prev.push((counts.len() - 1) as u8));
            assert(srcs_in_bucket(counts, b)[k] == i as u8);
        }
    } else {
        let full = srcs_in_bucket(counts, b);
        assert(full == srcs_in_bucket(init, b).push(i as u8));
        assert(full[full.len() - 1] == i as u8);
    }
}

} // verus!
