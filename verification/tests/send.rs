use cbus::buffer::{IncBuf, OutBuf};
use cbus::bus::{MessageBus, Subscriber};
use cbus::config::BusConfig;
use cbus::driver::BusDriver;
use cbus::lookup::SubscriberLookupData;
use cbus::message::UntypedMessage;
use cbus::subscriber::SubscriberId;

const MAX_MESSAGES: usize = 11000;
const RECEIVED_GROUP: u8 = 10;

struct Driver;

impl BusDriver for Driver {
    fn on_subscribe(&mut self, id: SubscriberId) -> Vec<SubscriberLookupData> {
        match id.get() {
            1 => vec![SubscriberLookupData { consumer_group_id: 0, provider_group_id: 0, provider_id: id }],
            2 => vec![SubscriberLookupData {
                consumer_group_id: 10,
                provider_group_id: 1,
                provider_id: SubscriberId::new(1),
            }],
            _ => unreachable!(),
        }
    }

    fn on_unsubscribe(&mut self, _: SubscriberId) {}
}

enum TestSub {
    Sender { count: usize },
    Listener { total: usize },
}

impl Subscriber<MAX_MESSAGES> for TestSub {
    fn notify(&mut self, incoming: &mut IncBuf<MAX_MESSAGES>, outgoing: &mut OutBuf<MAX_MESSAGES>) {
        match self {
            TestSub::Sender { count } => {
                let messages: Vec<UntypedMessage> = (0..*count)
                    .map(|i| {
                        let [a, b, c, d, e, f, g, h] = i.to_le_bytes();
                        UntypedMessage {
                            dst: 2,
                            group: 1,
                            src: 0,
                            kind: 1,
                            payload: [
                                a, b, c, d, 0, 0, 0, 0, //
                                0, 0, 0, 0, 0, 0, 0, 0, //
                                0, 0, 0, 0, 0, 0, 0, 0, //
                                e, f, g, h, //
                            ],
                        }
                    })
                    .collect();
                assert!(outgoing.send_many_iter_exact(&messages));
            }
            TestSub::Listener { total } => {
                while let Some(message) = incoming.pop() {
                    assert_eq!(message.dst, 2);
                    assert_eq!(message.src, 1);
                    assert_eq!(message.group, RECEIVED_GROUP);
                    assert_eq!(message.kind, 1);

                    let [a, b, c, d] = message.payload[0..4].try_into().unwrap();
                    let zeros: [u8; 20] = message.payload[4..24].try_into().unwrap();
                    let [e, f, g, h] = message.payload[24..28].try_into().unwrap();

                    assert_eq!(zeros, [0; 20]);
                    assert_eq!(usize::from_le_bytes([a, b, c, d, e, f, g, h]), *total);

                    *total += 1;
                }
            }
        }
    }
}

fn run(count: usize) -> Result<(), Box<dyn std::error::Error>> {
    let config = BusConfig::new(u8::MAX - 1, MAX_MESSAGES, 128).into_valid().map_err(|e| format!("{e:?}"))?;
    let mut bus = MessageBus::<Driver, TestSub, MAX_MESSAGES>::new(config, Driver);
    let sender = bus.add_subscriber(TestSub::Sender { count }).map_err(|e| format!("{e:?}"))?;
    let listener = bus.add_subscriber(TestSub::Listener { total: 0 }).map_err(|e| format!("{e:?}"))?;
    assert_eq!((sender.get(), listener.get()), (1, 2));
    bus.tick();
    bus.tick();
    match &bus.slot(2).sub {
        Some(TestSub::Listener { total }) => assert_eq!(*total, count),
        _ => panic!("the listener left its slot"),
    }
    Ok(())
}

#[test]
fn send_send_1_message() -> Result<(), Box<dyn std::error::Error>> {
    run(1)
}

#[test]
fn send_send_10_messages() -> Result<(), Box<dyn std::error::Error>> {
    run(10)
}

#[test]
fn send_send_100_messages() -> Result<(), Box<dyn std::error::Error>> {
    run(100)
}

#[test]
fn send_send_1k_messages() -> Result<(), Box<dyn std::error::Error>> {
    run(1000)
}

#[test]
fn send_10k_messages() -> Result<(), Box<dyn std::error::Error>> {
    run(10000)
}
