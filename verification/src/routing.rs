//! Preparing a message for delivery: the bus stamps the sender into it and
//! translates its group through the routing table; a message whose group the
//! sender may not use goes to the sink (destination 0).
use vstd::prelude::*;

use crate::lookup::LookupTable;
use crate::message::UntypedMessage;

verus! {

/// The message `m`, sent by `src`, as the bus delivers it: `src` stamped in,
/// the group translated through row `src` of `table` (a group outside the
/// row translates to 0), and the destination kept only when that translation
/// is not 0 and the destination is one of the table's subscribers; otherwise
/// the message goes to the sink, destination 0.
pub open spec fn prepared(table: Seq<u8>, groups: int, src: int, m: UntypedMessage) -> UntypedMessage {
    let relative = if (m.group as int) < groups {
        table[src * groups + m.group]
    } else {
        0
    };
    UntypedMessage {
        dst: if relative != 0 && (m.dst as int) < (table.len() as int) / groups {
            m.dst
        } else {
            0
        },
        group: relative,
        src: src as u8,
        ..m
    }
}

/// Every message of `q` sent by `src`, prepared.
pub open spec fn prepared_seq(table: Seq<u8>, groups: int, src: int, q: Seq<UntypedMessage>) -> Seq<
    UntypedMessage,
> {
    q.map_values(|m: UntypedMessage| prepared(table, groups, src, m))
}

/// The row of `src` exists in the table.
pub open spec fn sender_in_range(lut: LookupTable, src: int) -> bool {
    0 <= src < lut.spec_max_subscribers()
}

/// A scalar implementation of the dispatch primitives, one message at a time.
pub struct ScalarInstructionSet;

/// Index of row `src`, column `group`, inside the table.
proof fn lemma_entry_index(subscribers: int, groups: int, src: int, group: int)
    requires
        0 <= src < subscribers,
        0 <= group < groups,
    ensures
        0 <= src * groups + group < subscribers * groups,
        src * groups <= subscribers * groups,
{
    assert(src * groups + group < subscribers * groups) by (nonlinear_arith)
        requires
            0 <= src < subscribers,
            0 <= group < groups,
    ;
    assert(0 <= src * groups) by (nonlinear_arith)
        requires
            0 <= src,
            0 <= groups,
    ;
}

/// The table has one row of `max_groups` entries per subscriber.
pub proof fn lemma_rows(lut: LookupTable)
    requires
        lut.wf(),
    ensures
        (lut@.len() as int) / (lut.spec_max_groups() as int) == lut.spec_max_subscribers(),
{
    vstd::arithmetic::div_mod::lemma_div_multiples_vanish(
        lut.spec_max_subscribers() as int,
        lut.spec_max_groups() as int,
    );
    vstd::arithmetic::mul::lemma_mul_is_commutative(
        lut.spec_max_subscribers() as int,
        lut.spec_max_groups() as int,
    );
}

impl ScalarInstructionSet {
    /// Stamps `src` into `message` and translates its group through the table;
    /// a message the table does not allow goes to the sink.
    pub fn prepare_single_message(lut: &LookupTable, src: usize, message: &mut UntypedMessage)
        requires
            lut.wf(),
            sender_in_range(*lut, src as int),
        ensures
            *final(message) == prepared(lut@, lut.spec_max_groups() as int, src as int, *old(message)),
    {
        let groups = lut.max_groups();
        let relative_to_dst_group = if (message.group as usize) < groups {
            proof {
                lemma_entry_index(
                    lut.spec_max_subscribers() as int,
                    groups as int,
                    src as int,
                    message.group as int,
                );
            }
            lut.get_input()[src * groups + message.group as usize]
        } else {
            0
        };
        proof {
            lemma_rows(*lut);
        }
        let in_slots = (message.dst as usize) < lut.max_subscribers();
        message.src = src as u8;
        if relative_to_dst_group == 0 || !in_slots {
            message.dst = 0;
        }
        message.group = relative_to_dst_group;
    }

    /// Copies the first `min(read.len(), write.len())` messages of `read` into
    /// `write`.
    pub fn send_to(read: &[UntypedMessage], write: &mut [UntypedMessage])
        ensures
            final(write)@.len() == old(write)@.len(),
            forall|i: int|
                0 <= i < old(write)@.len() ==> #[trigger] final(write)@[i] == if i < read@.len() {
                    read@[i]
                } else {
                    old(write)@[i]
                },
    {
        let len = if read.len() < write.len() {
            read.len()
        } else {
            write.len()
        };
        let mut i: usize = 0;
        while i < len
            invariant
                len <= read@.len(),
                len <= old(write)@.len(),
                len == read@.len() || len == old(write)@.len(),
                i <= len,
                write@.len() == old(write)@.len(),
                forall|k: int|
                    0 <= k < old(write)@.len() ==> #[trigger] write@[k] == if k < i {
                        read@[k]
                    } else {
                        old(write)@[k]
                    },
            decreases len - i,
        {
            write[i] = read[i];
            i = i + 1;
        }
    }

    /// Copies the first `min(read.len(), write.len())` messages of `read` into
    /// `write`, prepared as sent by `src`.
    pub fn prepare_and_send_to(
        lut: &LookupTable,
        src: usize,
        read: &[UntypedMessage],
        write: &mut [UntypedMessage],
    )
        requires
            lut.wf(),
            sender_in_range(*lut, src as int),
        ensures
            final(write)@.len() == old(write)@.len(),
            forall|i: int|
                0 <= i < old(write)@.len() ==> #[trigger] final(write)@[i] == if i < read@.len() {
                    prepared(lut@, lut.spec_max_groups() as int, src as int, read@[i])
                } else {
                    old(write)@[i]
                },
    {
        let len = if read.len() < write.len() {
            read.len()
        } else {
            write.len()
        };
        let mut i: usize = 0;
        while i < len
            invariant
                lut.wf(),
                sender_in_range(*lut, src as int),
                len <= read@.len(),
                len <= old(write)@.len(),
                len == read@.len() || len == old(write)@.len(),
                i <= len,
                write@.len() == old(write)@.len(),
                forall|k: int|
                    0 <= k < old(write)@.len() ==> #[trigger] write@[k] == if k < i {
                        prepared(lut@, lut.spec_max_groups() as int, src as int, read@[k])
                    } else {
                        old(write)@[k]
                    },
            decreases len - i,
        {
            let mut m = read[i];
            Self::prepare_single_message(lut, src, &mut m);
            write[i] = m;
            i = i + 1;
        }
    }
}

/// Copies a chunk of `N` messages.
fn copy_chunk<const N: usize>(read: &[UntypedMessage; N], write: &mut [UntypedMessage; N])
    ensures
        final(write)@ == read@,
{
    let mut i: usize = 0;
    while i < N
        invariant
            i <= N,
            read@.len() == N,
            write@.len() == N,
            forall|k: int| 0 <= k < i ==> #[trigger] write@[k] == read@[k],
        decreases N - i,
    {
        write[i] = read[i];
        i = i + 1;
    }
    assert(write@ =~= read@);
}

/// Copies a chunk of `N` messages, each prepared as sent by `src`.
fn prepare_chunk<const N: usize>(
    lut: &LookupTable,
    src: usize,
    read: &[UntypedMessage; N],
    write: &mut [UntypedMessage; N],
)
    requires
        lut.wf(),
        sender_in_range(*lut, src as int),
    ensures
        final(write)@ == prepared_seq(lut@, lut.spec_max_groups() as int, src as int, read@),
{
    let mut i: usize = 0;
    while i < N
        invariant
            lut.wf(),
            sender_in_range(*lut, src as int),
            i <= N,
            read@.len() == N,
            write@.len() == N,
            forall|k: int|
                0 <= k < i ==> #[trigger] write@[k] == prepared(
                    lut@,
                    lut.spec_max_groups() as int,
                    src as int,
                    read@[k],
                ),
        decreases N - i,
    {
        let mut m = read[i];
        ScalarInstructionSet::prepare_single_message(lut, src, &mut m);
        write[i] = m;
        i = i + 1;
    }
    assert(write@ =~= prepared_seq(lut@, lut.spec_max_groups() as int, src as int, read@));
}

/// The dispatch primitives on chunks of four messages, where the processor
/// has SSE 4.1; the same results as one message at a time.
pub struct Sse41InstructionSet;

/// The dispatch primitives on chunks of eight messages, where the processor
/// has AVX2; the same results as one message at a time.
pub struct Avx2InstructionSet;

/// The dispatch primitives on chunks of sixteen messages, where the
/// processor has AVX-512F; the same results as one message at a time.
pub struct Avx512FInstructionSet;

/// `write` after the first `min(read.len(), write.len())` messages of `read`
/// were copied into it, each passed through `f`.
pub open spec fn copied_prefix(
    read: Seq<UntypedMessage>,
    write: Seq<UntypedMessage>,
    f: spec_fn(UntypedMessage) -> UntypedMessage,
) -> Seq<UntypedMessage> {
    Seq::new(write.len(), |i: int| if i < read.len() { f(read[i]) } else { write[i] })
}

/// `write` after `read` and `write` were both cut into chunks of `c`
/// messages: each of the chunks they share copied, then what is left of
/// `read` after its chunks copied into what is left of `write` after its
/// chunks, as far as both reach; each message passed through `f`.
pub open spec fn copied_in_chunks(
    read: Seq<UntypedMessage>,
    write: Seq<UntypedMessage>,
    c: int,
    f: spec_fn(UntypedMessage) -> UntypedMessage,
) -> Seq<UntypedMessage> {
    let rc = read.len() - (read.len() as int) % c;
    let wc = write.len() - (write.len() as int) % c;
    let shared = if rc < wc {
        rc
    } else {
        wc
    };
    Seq::new(
        write.len(),
        |i: int|
            if i < shared {
                f(read[i])
            } else if wc <= i && i - wc < read.len() - rc {
                f(read[rc + (i - wc)])
            } else {
                write[i]
            },
    )
}

/// The identity on messages.
pub open spec fn unchanged(m: UntypedMessage) -> UntypedMessage {
    m
}

/// What [`copied_in_chunks`] describes, one message at a time.
fn chunked_copy(c: usize, read: &[UntypedMessage], write: &mut [UntypedMessage])
    requires
        c > 0,
    ensures
        final(write)@ == copied_in_chunks(read@, old(write)@, c as int, |m: UntypedMessage| unchanged(m)),
{
    proof {
        vstd::arithmetic::div_mod::lemma_mod_decreases(read@.len(), c as nat);
        vstd::arithmetic::div_mod::lemma_mod_decreases(old(write)@.len(), c as nat);
    }
    let rc = read.len() - read.len() % c;
    let wc = write.len() - write.len() % c;
    let shared = if rc < wc {
        rc
    } else {
        wc
    };
    let ghost target = copied_in_chunks(read@, old(write)@, c as int, |m: UntypedMessage| unchanged(m));
    let mut i: usize = 0;
    while i < shared
        invariant
            i <= shared,
            shared <= rc <= read@.len(),
            shared <= wc <= old(write)@.len(),
            rc == read@.len() - (read@.len() as int) % (c as int),
            wc == old(write)@.len() - (old(write)@.len() as int) % (c as int),
            shared == if rc < wc { rc } else { wc },
            target == copied_in_chunks(read@, old(write)@, c as int, |m: UntypedMessage| unchanged(m)),
            write@.len() == old(write)@.len(),
            forall|k: int| 0 <= k < write@.len() ==> #[trigger] write@[k] == if k < i {
                target[k]
            } else {
                old(write)@[k]
            },
        decreases shared - i,
    {
        write[i] = read[i];
        i = i + 1;
    }
    let m = if read.len() - rc < write.len() - wc {
        read.len() - rc
    } else {
        write.len() - wc
    };
    let mut j: usize = 0;
    while j < m
        invariant
            j <= m,
            shared <= rc <= read@.len(),
            shared <= wc <= old(write)@.len(),
            rc == read@.len() - (read@.len() as int) % (c as int),
            wc == old(write)@.len() - (old(write)@.len() as int) % (c as int),
            shared == if rc < wc { rc } else { wc },
            m == if read@.len() - rc < old(write)@.len() - wc { read@.len() - rc } else { old(write)@.len() - wc },
            rc + m <= read@.len() <= usize::MAX,
            wc + m <= old(write)@.len() <= usize::MAX,
            target == copied_in_chunks(read@, old(write)@, c as int, |m: UntypedMessage| unchanged(m)),
            write@.len() == old(write)@.len(),
            forall|k: int| 0 <= k < write@.len() ==> #[trigger] write@[k] == if k < shared || (wc <= k < wc + j) {
                target[k]
            } else {
                old(write)@[k]
            },
        decreases m - j,
    {
        write[wc + j] = read[rc + j];
        j = j + 1;
    }
    assert(write@ =~= target);
}

/// What [`copied_in_chunks`] describes, one message at a time, each message
/// prepared as sent by `src`.
fn chunked_prepare(c: usize, lut: &LookupTable, src: usize, read: &[UntypedMessage], write: &mut [UntypedMessage])
    requires
        c > 0,
        lut.wf(),
        sender_in_range(*lut, src as int),
    ensures
        final(write)@ == copied_in_chunks(
            read@,
            old(write)@,
            c as int,
            |m: UntypedMessage| prepared(lut@, lut.spec_max_groups() as int, src as int, m),
        ),
{
    proof {
        vstd::arithmetic::div_mod::lemma_mod_decreases(read@.len(), c as nat);
        vstd::arithmetic::div_mod::lemma_mod_decreases(old(write)@.len(), c as nat);
    }
    let rc = read.len() - read.len() % c;
    let wc = write.len() - write.len() % c;
    let shared = if rc < wc {
        rc
    } else {
        wc
    };
    let ghost target = copied_in_chunks(
        read@,
        old(write)@,
        c as int,
        |m: UntypedMessage| prepared(lut@, lut.spec_max_groups() as int, src as int, m),
    );
    let mut i: usize = 0;
    while i < shared
        invariant
            lut.wf(),
            sender_in_range(*lut, src as int),
            i <= shared,
            shared <= rc <= read@.len(),
            shared <= wc <= old(write)@.len(),
            rc == read@.len() - (read@.len() as int) % (c as int),
            wc == old(write)@.len() - (old(write)@.len() as int) % (c as int),
            shared == if rc < wc { rc } else { wc },
            target == copied_in_chunks(
                read@,
                old(write)@,
                c as int,
                |m: UntypedMessage| prepared(lut@, lut.spec_max_groups() as int, src as int, m),
            ),
            write@.len() == old(write)@.len(),
            forall|k: int| 0 <= k < write@.len() ==> #[trigger] write@[k] == if k < i {
                target[k]
            } else {
                old(write)@[k]
            },
        decreases shared - i,
    {
        let mut msg = read[i];
        ScalarInstructionSet::prepare_single_message(lut, src, &mut msg);
        write[i] = msg;
        i = i + 1;
    }
    let m = if read.len() - rc < write.len() - wc {
        read.len() - rc
    } else {
        write.len() - wc
    };
    let mut j: usize = 0;
    while j < m
        invariant
            lut.wf(),
            sender_in_range(*lut, src as int),
            j <= m,
            shared <= rc <= read@.len(),
            shared <= wc <= old(write)@.len(),
            rc == read@.len() - (read@.len() as int) % (c as int),
            wc == old(write)@.len() - (old(write)@.len() as int) % (c as int),
            shared == if rc < wc { rc } else { wc },
            m == if read@.len() - rc < old(write)@.len() - wc { read@.len() - rc } else { old(write)@.len() - wc },
            rc + m <= read@.len() <= usize::MAX,
            wc + m <= old(write)@.len() <= usize::MAX,
            target == copied_in_chunks(
                read@,
                old(write)@,
                c as int,
                |m: UntypedMessage| prepared(lut@, lut.spec_max_groups() as int, src as int, m),
            ),
            write@.len() == old(write)@.len(),
            forall|k: int| 0 <= k < write@.len() ==> #[trigger] write@[k] == if k < shared || (wc <= k < wc + j) {
                target[k]
            } else {
                old(write)@[k]
            },
        decreases m - j,
    {
        let mut msg = read[rc + j];
        ScalarInstructionSet::prepare_single_message(lut, src, &mut msg);
        write[wc + j] = msg;
        j = j + 1;
    }
    assert(write@ =~= target);
}

/// The primitives the dispatch is made of, on chunks of `CHUNK_SIZE`
/// messages and on what is left over.
pub trait InstructionSet<const CHUNK_SIZE: usize> {
    /// Copies a chunk.
    fn send_exactly(read: &[UntypedMessage; CHUNK_SIZE], write: &mut [UntypedMessage; CHUNK_SIZE])
        ensures
            final(write)@ == read@,
    ;

    /// Copies what is left over, as far as both slices reach.
    fn send_remainder(read: &[UntypedMessage], write: &mut [UntypedMessage])
        ensures
            final(write)@ == copied_prefix(read@, old(write)@, |m: UntypedMessage| unchanged(m)),
    ;

    /// Copies a chunk, each message prepared as sent by `src`.
    fn prepare_and_send_exactly(
        lut: &LookupTable,
        src: usize,
        read: &[UntypedMessage; CHUNK_SIZE],
        write: &mut [UntypedMessage; CHUNK_SIZE],
    )
        requires
            lut.wf(),
            sender_in_range(*lut, src as int),
        ensures
            final(write)@ == prepared_seq(lut@, lut.spec_max_groups() as int, src as int, read@),
    ;

    /// Copies what is left over, as far as both slices reach, each message
    /// prepared as sent by `src`.
    fn prepare_and_send_remainder(
        lut: &LookupTable,
        src: usize,
        read: &[UntypedMessage],
        write: &mut [UntypedMessage],
    )
        requires
            lut.wf(),
            sender_in_range(*lut, src as int),
        ensures
            final(write)@ == copied_prefix(
                read@,
                old(write)@,
                |m: UntypedMessage| prepared(lut@, lut.spec_max_groups() as int, src as int, m),
            ),
    ;

    /// Cuts both slices into chunks: copies the chunks they share, then what
    /// is left of `read` into what is left of `write`.
    fn slices_send(read: &[UntypedMessage], write: &mut [UntypedMessage])
        requires
            CHUNK_SIZE > 0,
        ensures
            final(write)@ == copied_in_chunks(
                read@,
                old(write)@,
                CHUNK_SIZE as int,
                |m: UntypedMessage| unchanged(m),
            ),
    {
        chunked_copy(CHUNK_SIZE, read, write);
    }

    /// Cuts both slices into chunks: copies the chunks they share, then what
    /// is left of `read` into what is left of `write`; each message prepared
    /// as sent by `src`.
    fn slices_prepare_and_send(
        lut: &LookupTable,
        src: usize,
        read: &[UntypedMessage],
        write: &mut [UntypedMessage],
    )
        requires
            CHUNK_SIZE > 0,
            lut.wf(),
            sender_in_range(*lut, src as int),
        ensures
            final(write)@ == copied_in_chunks(
                read@,
                old(write)@,
                CHUNK_SIZE as int,
                |m: UntypedMessage| prepared(lut@, lut.spec_max_groups() as int, src as int, m),
            ),
    {
        chunked_prepare(CHUNK_SIZE, lut, src, read, write);
    }
}

proof fn lemma_copied_prefix(
    read: Seq<UntypedMessage>,
    before: Seq<UntypedMessage>,
    after: Seq<UntypedMessage>,
    f: spec_fn(UntypedMessage) -> UntypedMessage,
)
    requires
        after.len() == before.len(),
        forall|i: int|
            0 <= i < before.len() ==> #[trigger] after[i] == if i < read.len() {
                f(read[i])
            } else {
                before[i]
            },
    ensures
        after == copied_prefix(read, before, f),
{
    assert(after =~= copied_prefix(read, before, f));
}

impl InstructionSet<1> for ScalarInstructionSet {
    fn send_exactly(read: &[UntypedMessage; 1], write: &mut [UntypedMessage; 1]) {
        copy_chunk(read, write);
    }

    fn send_remainder(read: &[UntypedMessage], write: &mut [UntypedMessage]) {
        let ghost before = write@;
        Self::send_to(read, write);
        proof {
            lemma_copied_prefix(read@, before, write@, |m: UntypedMessage| unchanged(m));
        }
    }

    fn prepare_and_send_exactly(
        lut: &LookupTable,
        src: usize,
        read: &[UntypedMessage; 1],
        write: &mut [UntypedMessage; 1],
    ) {
        prepare_chunk(lut, src, read, write);
    }

    fn prepare_and_send_remainder(
        lut: &LookupTable,
        src: usize,
        read: &[UntypedMessage],
        write: &mut [UntypedMessage],
    ) {
        let ghost before = write@;
        Self::prepare_and_send_to(lut, src, read, write);
        proof {
            lemma_copied_prefix(
                read@,
                before,
                write@,
                |m: UntypedMessage| prepared(lut@, lut.spec_max_groups() as int, src as int, m),
            );
        }
    }
}

impl InstructionSet<4> for Sse41InstructionSet {
    fn send_exactly(read: &[UntypedMessage; 4], write: &mut [UntypedMessage; 4]) {
        copy_chunk(read, write);
    }

    fn send_remainder(read: &[UntypedMessage], write: &mut [UntypedMessage]) {
        ScalarInstructionSet::send_remainder(read, write);
    }

    fn prepare_and_send_exactly(
        lut: &LookupTable,
        src: usize,
        read: &[UntypedMessage; 4],
        write: &mut [UntypedMessage; 4],
    ) {
        prepare_chunk(lut, src, read, write);
    }

    fn prepare_and_send_remainder(
        lut: &LookupTable,
        src: usize,
        read: &[UntypedMessage],
        write: &mut [UntypedMessage],
    ) {
        ScalarInstructionSet::prepare_and_send_remainder(lut, src, read, write);
    }
}

impl InstructionSet<8> for Avx2InstructionSet {
    fn send_exactly(read: &[UntypedMessage; 8], write: &mut [UntypedMessage; 8]) {
        copy_chunk(read, write);
    }

    fn send_remainder(read: &[UntypedMessage], write: &mut [UntypedMessage]) {
        ScalarInstructionSet::send_remainder(read, write);
    }

    fn prepare_and_send_exactly(
        lut: &LookupTable,
        src: usize,
        read: &[UntypedMessage; 8],
        write: &mut [UntypedMessage; 8],
    ) {
        prepare_chunk(lut, src, read, write);
    }

    fn prepare_and_send_remainder(
        lut: &LookupTable,
        src: usize,
        read: &[UntypedMessage],
        write: &mut [UntypedMessage],
    ) {
        ScalarInstructionSet::prepare_and_send_remainder(lut, src, read, write);
    }
}

impl InstructionSet<16> for Avx512FInstructionSet {
    fn send_exactly(read: &[UntypedMessage; 16], write: &mut [UntypedMessage; 16]) {
        copy_chunk(read, write);
    }

    fn send_remainder(read: &[UntypedMessage], write: &mut [UntypedMessage]) {
        ScalarInstructionSet::send_remainder(read, write);
    }

    fn prepare_and_send_exactly(
        lut: &LookupTable,
        src: usize,
        read: &[UntypedMessage; 16],
        write: &mut [UntypedMessage; 16],
    ) {
        prepare_chunk(lut, src, read, write);
    }

    fn prepare_and_send_remainder(
        lut: &LookupTable,
        src: usize,
        read: &[UntypedMessage],
        write: &mut [UntypedMessage],
    ) {
        ScalarInstructionSet::prepare_and_send_remainder(lut, src, read, write);
    }
}

} // verus!
