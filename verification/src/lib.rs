//! A process-local publish/subscribe broker.
//!
//! Actors exchange typed messages without holding references to each other.
//! The broker keeps one registry keyed by message type: for each type, the
//! set of subscriber handles and an optional cached copy of the most recent
//! message of that type. Issuing a message updates the cache and fans it out
//! to every currently registered subscriber; a synchronous subscribe replays
//! the cached message so a late subscriber catches up.
//!
//! The registry and its dispatch rules live here, verified; the actor runtime
//! that carries the resulting deliveries to mailboxes sits outside.

mod msgs;
mod broker;
mod laws;

pub use msgs::{Message, MessageModel, Handle, Delivery, DeliveryModel};
pub use msgs::{deliveries_model, replay_model};
pub use broker::{Broker, fan_out, issue_step, subscribe_step, replay_delivery};
pub use laws::{lemma_subscribe_then_issue_delivers_once, lemma_type_isolation,
    lemma_same_type_fifo, lemma_replay, lemma_no_replay_on_async_subscribe,
    lemma_issue_with_no_subscribers};
