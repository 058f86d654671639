use cbus::buffer::{IncBuf, OutBuf};
use cbus::bus::{MessageBus, Subscriber};
use cbus::config::BusConfig;
use cbus::driver::BusDriver;
use cbus::error::BusError;
use cbus::lookup::SubscriberLookupData;
use cbus::subscriber::SubscriberId;

struct TestDriver {
    deny: bool,
    left: Vec<u8>,
}

impl BusDriver for TestDriver {
    fn on_subscribe(&mut self, id: SubscriberId) -> Vec<SubscriberLookupData> {
        let group = if self.deny { 200 } else { 1 };
        vec![SubscriberLookupData { consumer_group_id: group, provider_group_id: 1, provider_id: id }]
    }

    fn on_unsubscribe(&mut self, id: SubscriberId) {
        self.left.push(id.get());
    }
}

#[derive(Debug, PartialEq)]
struct Named(u32);

impl Subscriber<1024> for Named {
    fn notify(&mut self, _incoming: &mut IncBuf<1024>, _outgoing: &mut OutBuf<1024>) {}
}

fn bus() -> MessageBus<TestDriver, Named, 1024> {
    let config = BusConfig::new(4, 1024, 2).into_valid().unwrap();
    MessageBus::new(config, TestDriver { deny: false, left: vec![] })
}

#[test]
fn ids_are_handed_out_until_the_slots_run_out() {
    let mut bus = bus();
    assert_eq!(bus.subscribers(), 0);
    assert_eq!(bus.add_subscriber(Named(10)).unwrap().get(), 1);
    assert_eq!(bus.add_subscriber(Named(20)).unwrap().get(), 2);
    assert_eq!(bus.add_subscriber(Named(30)).unwrap().get(), 3);
    assert_eq!(bus.subscribers(), 3);
    assert_eq!(bus.add_subscriber(Named(40)), Err(BusError::PoolExhausted { max: 4 }));
    assert_eq!(bus.slot(2).sub, Some(Named(20)));
}

#[test]
fn refused_permissions_leave_the_bus_unchanged() {
    let mut bus = bus();
    bus.get_driver_mut().deny = true;
    assert!(matches!(bus.add_subscriber(Named(10)), Err(BusError::DriverError(_))));
    assert!(bus.slot(1).sub.is_none());
    bus.get_driver_mut().deny = false;
    assert_eq!(bus.add_subscriber(Named(10)).unwrap().get(), 1);
    assert_eq!(bus.slot(1).sub, Some(Named(10)));
}

#[test]
fn removal_hands_the_subscriber_back() {
    let mut bus = bus();
    let first = bus.add_subscriber(Named(10)).unwrap();
    let second = bus.add_subscriber(Named(20)).unwrap();
    assert_eq!(bus.remove_subscriber(second), Ok(Named(20)));
    assert_eq!(bus.get_driver().left, vec![2]);
    assert_eq!(bus.remove_subscriber(second), Err(BusError::SubscriberNotRegistered));
    assert_eq!(bus.remove_subscriber(SubscriberId::new(9)), Err(BusError::InvalidSubscriberId));
    assert_eq!(bus.slot(first.as_usize()).sub, Some(Named(10)));
    assert_eq!(bus.add_subscriber(Named(30)).unwrap().get(), 2);
    assert!(bus.update_lookup_table(first).is_ok());
    bus.get_driver_mut().deny = true;
    assert!(matches!(bus.update_lookup_table(first), Err(BusError::DriverError(_))));
}

#[test]
fn an_idle_bus_dispatches_nothing_harmful() {
    let mut bus = bus();
    bus.add_subscriber(Named(10)).unwrap();
    let (ready, last) = bus.dispatch();
    assert!(ready);
    assert_eq!(last, 1);
    assert!(bus.tick());
    bus.full_tick();
    assert_eq!(bus.slot(1).sub, Some(Named(10)));
}

#[test]
fn ids_given_back_below_the_top_come_back_as_the_mint_computes_them() {
    let mut bus = bus();
    for value in [10, 20, 30] {
        bus.add_subscriber(Named(value)).unwrap();
    }
    assert_eq!(bus.subscribers(), 3);
    assert_eq!(bus.remove_subscriber(SubscriberId::new(2)), Ok(Named(20)));
    assert_eq!(bus.subscribers(), 2);
    // The mint's search for a value given back answers 2 / 8 + 2, a free slot.
    assert_eq!(bus.add_subscriber(Named(40)).unwrap().get(), 2);
    assert_eq!(bus.slot(2).sub, Some(Named(40)));
    // It answers 2 again, now taken: the bus refuses rather than overwrite.
    assert_eq!(bus.add_subscriber(Named(50)), Err(BusError::PoolExhausted { max: 4 }));
    assert_eq!(bus.slot(2).sub, Some(Named(40)));
    assert_eq!(bus.slot(1).sub, Some(Named(10)));
    assert_eq!(bus.slot(3).sub, Some(Named(30)));
}

#[test]
fn an_id_rebuilt_from_its_number_is_the_same_id() {
    let id = SubscriberId::new(7);
    assert_eq!(SubscriberId::new(id.as_u8()), id);
    assert_eq!(SubscriberId::new_u8(id.get()), Some(id));
    assert_eq!(SubscriberId::new_u8(0), None);
}

#[test]
fn a_refused_subscriber_gives_its_id_back() {
    let mut bus = bus();
    bus.add_subscriber(Named(10)).unwrap();
    bus.get_driver_mut().deny = true;
    assert!(matches!(bus.add_subscriber(Named(20)), Err(BusError::DriverError(_))));
    assert_eq!(bus.subscribers(), 1);
    bus.get_driver_mut().deny = false;
    assert_eq!(bus.add_subscriber(Named(20)).unwrap().get(), 2);
}

struct Stray;

impl Subscriber<1024> for Stray {
    fn notify(&mut self, _incoming: &mut IncBuf<1024>, outgoing: &mut OutBuf<1024>) {
        let stray = cbus::message::UntypedMessage::new(2, 200, 0, [0u8; 28]);
        assert!(outgoing.send_many_iter_exact(&[stray]));
    }
}

#[test]
fn a_message_in_a_group_outside_the_table_does_not_stall_the_bus() {
    let config = BusConfig::new(4, 1024, 2).into_valid().unwrap();
    let mut bus: MessageBus<TestDriver, Stray, 1024> = MessageBus::new(config, TestDriver { deny: false, left: vec![] });
    bus.add_subscriber(Stray).unwrap();
    assert!(bus.tick());
    assert_eq!(bus.slot(1).outgoing.count(), 1);
    assert!(bus.tick());
    assert!(bus.tick());
    assert_eq!(bus.slot(1).outgoing.count(), 1);
    assert_eq!(bus.slot(2).incoming.count(), 0);
}
