//! A verified in-process message bus: fixed-size messages, per-subscriber
//! incoming and outgoing buffers, a routing table that says which group of a
//! sender reaches which group of a receiver, and the dispatch that moves
//! messages from outgoing buffers into incoming ones.
use vstd::prelude::*;

pub mod buffer;
pub mod bus;
pub mod config;
pub mod defines;
pub mod dispatch;
pub mod driver;
pub mod dst;
pub mod error;
pub mod lookup;
pub mod message;
pub mod mint;
pub mod plan;
pub mod pool;
pub mod protocol;
pub mod routing;
pub mod subscriber;

