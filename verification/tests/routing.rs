use cbus::config::BusConfig;
use cbus::dst::Destination;
use cbus::lookup::{LookupTable, SubscriberLookupData};
use cbus::message::UntypedMessage;
use cbus::plan::{Offsets, PipelinePlan};
use cbus::pool::MessagePool;
use cbus::routing::{
    Avx2InstructionSet, Avx512FInstructionSet, InstructionSet, ScalarInstructionSet, Sse41InstructionSet,
};
use cbus::subscriber::SubscriberId;

fn table() -> LookupTable {
    let config = BusConfig::new(4, 1024, 4).into_valid().unwrap();
    LookupTable::new(&config)
}

fn msg(dst: u8, group: u8, tag: u8) -> UntypedMessage {
    let mut payload = [0u8; 28];
    payload[27] = tag;
    UntypedMessage::new(dst, group, 1, payload)
}

#[test]
fn permissions_are_written_both_ways() {
    let mut lut = table();
    assert_eq!(lut.max_groups(), 4);
    assert_eq!(lut.max_subscribers(), 4);
    assert!(lut.get_input().iter().all(|&g| g == 0));
    lut.add(
        SubscriberId::new(2),
        &[SubscriberLookupData { consumer_group_id: 1, provider_group_id: 3, provider_id: SubscriberId::new(3) }],
    );
    let input = lut.get_input();
    assert_eq!(input[2 * 4 + 1], 3);
    assert_eq!(input[3 * 4 + 3], 1);
    assert_eq!(input.iter().filter(|&&g| g != 0).count(), 2);
    lut.zeroize(SubscriberId::new(2));
    assert!(lut.get_input()[8..12].iter().all(|&g| g == 0));
    assert_eq!(lut.get_input()[3 * 4 + 3], 1);
}

#[test]
fn preparing_a_message_sets_source_and_group() {
    let mut lut = table();
    lut.add(
        SubscriberId::new(1),
        &[SubscriberLookupData { consumer_group_id: 2, provider_group_id: 1, provider_id: SubscriberId::new(3) }],
    );
    let mut allowed = msg(3, 2, 0);
    allowed.src = 9;
    ScalarInstructionSet::prepare_single_message(&lut, 1, &mut allowed);
    assert_eq!((allowed.dst, allowed.group, allowed.src), (3, 1, 1));

    let mut denied = msg(3, 1, 0);
    ScalarInstructionSet::prepare_single_message(&lut, 1, &mut denied);
    assert_eq!((denied.dst, denied.group, denied.src), (0, 0, 1));
}

#[test]
fn copies_stop_at_the_shorter_slice() {
    let read = [msg(1, 0, 1), msg(1, 0, 2), msg(1, 0, 3)];
    let mut write = [UntypedMessage::default(); 2];
    ScalarInstructionSet::send_to(&read, &mut write);
    assert_eq!(write.map(|m| m.payload[27]), [1, 2]);

    let mut lut = table();
    lut.add(
        SubscriberId::new(2),
        &[SubscriberLookupData { consumer_group_id: 0, provider_group_id: 2, provider_id: SubscriberId::new(2) }],
    );
    let mut write = [UntypedMessage::default(); 4];
    ScalarInstructionSet::prepare_and_send_to(&lut, 2, &read[..2], &mut write);
    assert_eq!(write.map(|m| (m.dst, m.group, m.src)), [(1, 2, 2), (1, 2, 2), (0, 0, 0), (0, 0, 0)]);
}

#[test]
fn pool_sorts_by_destination() {
    let config = BusConfig::new(2, 1024, 2).into_valid().unwrap();
    let mut pool = MessagePool::new(&config);
    assert_eq!(pool.capacity(), 2048);
    for (dst, tag) in [(3, 1), (1, 2), (2, 3), (1, 4)] {
        pool.push(msg(dst, 0, tag));
    }
    assert_eq!(pool.count(), 4);
    pool.sort_by_dst();
    let dsts: Vec<u8> = pool.as_slice().iter().map(|m| m.dst).collect();
    assert_eq!(dsts, vec![1, 1, 2, 3]);
    let mut tags: Vec<u8> = pool.slice(2, 0).iter().map(|m| m.payload[27]).collect();
    tags.sort();
    assert_eq!(tags, vec![2, 4]);
    pool.clear();
    assert_eq!(pool.count(), 0);
}

#[test]
fn offsets_reset_to_zero() {
    let mut offsets = Offsets { batch: 3, scalar: 2, ignore: 1 };
    offsets.reset();
    assert_eq!(offsets, Offsets::default());
    let plan = PipelinePlan::new();
    assert_eq!(plan.offsets, Offsets::default());
    assert!(plan.indices.iter().all(|&i| i == 0));
}

#[test]
fn destinations_and_ids() {
    assert_eq!(Destination::zero().u8(), 0);
    assert_eq!(Destination::new(5).cast_usize(), 5);
    assert_eq!(*Destination::new(5), 5);
    assert_eq!(Destination::new(5).as_subscriber_id().get(), 5);
    assert_eq!(SubscriberId::new_u8(0), None);
    let id = SubscriberId::new_u8(7).unwrap();
    assert_eq!((id.as_u8(), id.as_inner(), id.as_usize()), (7, 7, 7));
}

fn prepared_by_scalar<const N: usize>(lut: &LookupTable, src: usize, read: &[UntypedMessage; N]) -> [UntypedMessage; N] {
    let mut expected = *read;
    for m in expected.iter_mut() {
        ScalarInstructionSet::prepare_single_message(lut, src, m);
    }
    expected
}

#[test]
fn chunked_instruction_sets_match_the_scalar_one() {
    let mut lut = table();
    lut.add(
        SubscriberId::new(1),
        &[SubscriberLookupData { consumer_group_id: 1, provider_group_id: 2, provider_id: SubscriberId::new(2) }],
    );
    let read4: [UntypedMessage; 4] = core::array::from_fn(|i| msg(2, (i % 2) as u8, i as u8));
    let mut write4 = [UntypedMessage::default(); 4];
    Sse41InstructionSet::send_exactly(&read4, &mut write4);
    assert_eq!(write4, read4);
    Sse41InstructionSet::prepare_and_send_exactly(&lut, 1, &read4, &mut write4);
    assert_eq!(write4, prepared_by_scalar(&lut, 1, &read4));
    assert_eq!(write4.map(|m| (m.dst, m.group)), [(0, 0), (2, 2), (0, 0), (2, 2)]);

    let read8: [UntypedMessage; 8] = core::array::from_fn(|i| msg(3, (i % 2) as u8, i as u8));
    let mut write8 = [UntypedMessage::default(); 8];
    Avx2InstructionSet::send_exactly(&read8, &mut write8);
    assert_eq!(write8, read8);
    Avx2InstructionSet::prepare_and_send_exactly(&lut, 1, &read8, &mut write8);
    assert_eq!(write8, prepared_by_scalar(&lut, 1, &read8));

    let read16: [UntypedMessage; 16] = core::array::from_fn(|i| msg(1, (i % 2) as u8, i as u8));
    let mut write16 = [UntypedMessage::default(); 16];
    Avx512FInstructionSet::send_exactly(&read16, &mut write16);
    assert_eq!(write16, read16);
    Avx512FInstructionSet::prepare_and_send_exactly(&lut, 1, &read16, &mut write16);
    assert_eq!(write16, prepared_by_scalar(&lut, 1, &read16));
    assert!(write16.iter().all(|m| m.src == 1));
}

#[test]
fn pool_reserves_zeroed_room() {
    let config = BusConfig::new(2, 1024, 2).into_valid().unwrap();
    let mut pool = MessagePool::new(&config);
    pool.push(msg(1, 0, 7));
    let room = pool.reserve_slice(2);
    assert_eq!(room.len(), 2);
    room[1] = msg(2, 0, 9);
    assert_eq!(pool.count(), 3);
    assert_eq!(pool.as_slice().iter().map(|m| m.payload[27]).collect::<Vec<_>>(), vec![7, 0, 9]);
    pool.as_mut_slice()[0].dst = 5;
    assert_eq!(pool.as_slice()[0].dst, 5);
}

#[test]
fn slices_are_sent_chunk_by_chunk_then_the_rest() {
    let read: Vec<UntypedMessage> = (1..=5).map(|t| msg(1, 0, t)).collect();
    let mut write = vec![UntypedMessage::default(); 5];
    <Sse41InstructionSet as InstructionSet<4>>::slices_send(&read, &mut write);
    assert_eq!(write.iter().map(|m| m.payload[27]).collect::<Vec<_>>(), vec![1, 2, 3, 4, 5]);

    // With a longer destination, what is left of the source goes after the
    // destination's own chunks.
    let mut write = vec![UntypedMessage::default(); 9];
    <Sse41InstructionSet as InstructionSet<4>>::slices_send(&read, &mut write);
    assert_eq!(
        write.iter().map(|m| m.payload[27]).collect::<Vec<_>>(),
        vec![1, 2, 3, 4, 0, 0, 0, 0, 5]
    );

    let mut write = vec![UntypedMessage::default(); 9];
    <ScalarInstructionSet as InstructionSet<1>>::slices_send(&read, &mut write);
    assert_eq!(
        write.iter().map(|m| m.payload[27]).collect::<Vec<_>>(),
        vec![1, 2, 3, 4, 5, 0, 0, 0, 0]
    );

    let mut lut = table();
    lut.add(
        SubscriberId::new(2),
        &[SubscriberLookupData { consumer_group_id: 0, provider_group_id: 3, provider_id: SubscriberId::new(2) }],
    );
    let mut write = vec![UntypedMessage::default(); 5];
    <Avx2InstructionSet as InstructionSet<8>>::slices_prepare_and_send(&lut, 2, &read, &mut write);
    assert!(write.iter().all(|m| (m.dst, m.group, m.src) == (1, 3, 2)));
    let mut remainder = vec![UntypedMessage::default(); 2];
    <Avx512FInstructionSet as InstructionSet<16>>::prepare_and_send_remainder(&lut, 2, &read, &mut remainder);
    assert_eq!(remainder.iter().map(|m| m.payload[27]).collect::<Vec<_>>(), vec![1, 2]);
}

#[test]
fn groups_and_destinations_outside_the_table_go_to_the_sink() {
    let mut lut = table();
    lut.add(
        SubscriberId::new(1),
        &[SubscriberLookupData { consumer_group_id: 2, provider_group_id: 1, provider_id: SubscriberId::new(3) }],
    );
    let mut foreign_group = msg(3, 200, 0);
    ScalarInstructionSet::prepare_single_message(&lut, 1, &mut foreign_group);
    assert_eq!((foreign_group.dst, foreign_group.group, foreign_group.src), (0, 0, 1));

    let mut foreign_dst = msg(9, 2, 0);
    ScalarInstructionSet::prepare_single_message(&lut, 1, &mut foreign_dst);
    assert_eq!((foreign_dst.dst, foreign_dst.group, foreign_dst.src), (0, 1, 1));

    let read = [msg(3, 2, 1), msg(3, 200, 2), msg(3, 2, 3), msg(3, 7, 4)];
    let mut write = [UntypedMessage::default(); 4];
    <Sse41InstructionSet as InstructionSet<4>>::slices_prepare_and_send(&lut, 1, &read, &mut write);
    assert_eq!(write.map(|m| (m.dst, m.group)), [(3, 1), (0, 0), (3, 1), (0, 0)]);
}

#[test]
fn a_permission_past_its_row_writes_the_entry_it_names() {
    let mut lut = table();
    lut.add(
        SubscriberId::new(1),
        &[SubscriberLookupData { consumer_group_id: 6, provider_group_id: 1, provider_id: SubscriberId::new(2) }],
    );
    let input = lut.get_input();
    assert_eq!(input[1 * 4 + 6], 1);
    assert_eq!(input[2 * 4 + 1], 6);
}
