use cbus::buffer::runtime::{DynIncBuf, DynOutBuf, DynSharedBuf};
use cbus::buffer::{IncBuf, OutBuf, SharedBuf};
use cbus::message::UntypedMessage;

fn msg(tag: u8) -> UntypedMessage {
    let mut payload = [0u8; 28];
    payload[0] = tag;
    UntypedMessage::new(2, 1, 7, payload)
}

#[test]
fn out_buffer_queues_from_the_back_newest_first() {
    let mut out = OutBuf::<4>::new();
    assert_eq!(out.available_space(), 4);
    assert!(out.send_many_iter_exact(&[msg(1), msg(2)]));
    assert_eq!(out.count(), 2);
    assert_eq!(out.available_space(), 2);
    let queued: Vec<u8> = out.read_slice().iter().map(|m| m.payload[0]).collect();
    assert_eq!(queued, vec![2, 1]);
    assert!(out.send_many_iter_exact(&[msg(3)]));
    let queued: Vec<u8> = out.read_slice().iter().map(|m| m.payload[0]).collect();
    assert_eq!(queued, vec![3, 2, 1]);
    assert!(!out.send_many_iter_exact(&[msg(4), msg(5)]));
    assert_eq!(out.count(), 3);
    assert!(out.send_many_iter_with_count(&[msg(9)], 1));
    assert_eq!(out.available_space(), 0);
    assert!(!out.send_many_iter_with_count(&[], 1));
}

#[test]
fn reserved_slots_count_even_when_left_empty() {
    let mut out = OutBuf::<8>::new();
    assert!(out.send_many_iter_with_count(&[msg(1)], 3));
    assert_eq!(out.count(), 3);
    let queued: Vec<u8> = out.read_slice().iter().map(|m| m.payload[0]).collect();
    assert_eq!(queued, vec![1, 0, 0]);
}

#[test]
fn incoming_buffer_pops_newest_first() {
    let mut shared = SharedBuf::<4>::new();
    {
        let raw = shared.as_mut_buf();
        raw.write_slice(&[msg(1), msg(2), msg(3)]);
        raw.add_count(3);
        assert_eq!(raw.count(), 3);
    }
    let mut inc = IncBuf::from_buf(shared);
    assert_eq!(inc.count(), 3);
    assert_eq!(inc.pop().map(|m| m.payload[0]), Some(3));
    let rest: Vec<u8> = inc.pop_all().iter().map(|m| m.payload[0]).collect();
    assert_eq!(rest, vec![1, 2]);
    assert_eq!(inc.count(), 0);
    assert!(inc.pop().is_none());
}

#[test]
fn incoming_buffer_clear_drops_everything() {
    let mut shared = SharedBuf::<2>::new();
    shared.as_mut_buf().set_slot(0, msg(5));
    shared.as_mut_buf().set_count(1);
    let mut inc = IncBuf::from_buf(shared);
    inc.clear();
    assert!(inc.pop().is_none());
    assert_eq!(inc.as_inner_ref().as_ref_buf().count(), 0);
}

#[test]
fn mutable_slices_of_a_buffer() {
    let mut shared = SharedBuf::<4>::new();
    let raw = shared.as_mut_buf();
    raw.slice_mut()[0] = msg(1);
    raw.set_count(1);
    raw.write_slice_mut(2)[1] = msg(3);
    assert_eq!(raw.slice().iter().map(|m| m.payload[0]).collect::<Vec<_>>(), vec![1, 0, 3, 0]);
    raw.read_slice_mut()[0] = msg(8);
    assert_eq!(raw.read_slice().len(), 1);
    assert_eq!(raw.slice()[3].payload[0], 8);
}

#[test]
fn runtime_buffers_send_and_pop() {
    let shared = DynSharedBuf::new(3).unwrap();
    let mut out = DynOutBuf::from_buf(shared);
    assert_eq!(out.available_space(), 3);
    assert!(out.send_untyped(&msg(1)));
    assert!(out.send(&msg(2)));
    assert!(out.send_many_iter_exact(&[msg(3)]));
    assert!(!out.send_untyped(&msg(4)));
    assert_eq!(out.count(), 3);
    assert_eq!(out.available_space(), 0);

    let mut shared = DynSharedBuf::new(2).unwrap();
    {
        let raw = shared.as_mut_buf();
        raw.set_count(2);
        let slice = raw.read_slice_mut();
        slice[0] = msg(4);
        slice[1] = msg(6);
        assert_eq!(raw.read_slice().iter().map(|m| m.payload[0]).collect::<Vec<_>>(), vec![4, 6]);
    }
    let mut inc = DynIncBuf::from_buf(shared);
    assert_eq!(inc.count(), 2);
    assert_eq!(inc.pop().map(|m| m.payload[0]), Some(6));
    assert_eq!(inc.pop_all().iter().map(|m| m.payload[0]).collect::<Vec<_>>(), vec![4]);
    inc.clear();
    assert_eq!(inc.count(), 0);
}

#[test]
fn runtime_buffer_layout_is_checked() {
    assert!(DynSharedBuf::new(1).is_ok());
    assert!(DynIncBuf::null().is_ok());
    assert!(DynOutBuf::null().is_ok());
    assert_eq!(DynOutBuf::null().unwrap().available_space(), 1);
}
