//! The values the broker traffics in: typed messages, subscriber handles,
//! and the delivery actions an issue fans out.

use vstd::prelude::*;

verus! {

/// A typed message. `kind` is the message-type identity under which the
/// registry files it; `body` is the payload carried to subscribers.
pub struct Message {
    pub kind: u64,
    pub body: String,
}

/// Mathematical model of a message: its type key and payload characters.
pub ghost struct MessageModel {
    pub kind: u64,
    pub body: Seq<char>,
}

impl View for Message {
    type V = MessageModel;

    open spec fn view(&self) -> MessageModel {
        MessageModel { kind: self.kind, body: self.body@ }
    }
}

impl Clone for Message {
    /// A cached message is cloned for every replay and every fan-out copy;
    /// the copy carries the same type key and the same payload.
    fn clone(&self) -> (r: Self)
        ensures
            r@ == self@,
    {
        Message { kind: self.kind, body: self.body.clone() }
    }
}

/// A subscriber handle: an opaque reference able to deliver messages of one
/// type to one actor's mailbox. `id` names the mailbox; `kind` is the one
/// message type the handle accepts.
#[derive(Clone, Copy, Debug, PartialEq, Eq, Structural)]
pub struct Handle {
    pub id: u64,
    pub kind: u64,
}

/// One enqueue action produced by an issue: put `msg` in `to`'s mailbox.
pub struct Delivery {
    pub to: Handle,
    pub msg: Message,
}

/// Model of a delivery action.
pub ghost struct DeliveryModel {
    pub to: Handle,
    pub msg: MessageModel,
}

impl View for Delivery {
    type V = DeliveryModel;

    open spec fn view(&self) -> DeliveryModel {
        DeliveryModel { to: self.to, msg: self.msg@ }
    }
}

/// The models of a batch of deliveries, in enqueue order.
pub open spec fn deliveries_model(ds: Seq<Delivery>) -> Seq<DeliveryModel> {
    ds.map(|i: int, d: Delivery| d@)
}

/// The model of an optional replayed message.
pub open spec fn replay_model(m: Option<Message>) -> Option<MessageModel> {
    match m {
        Some(msg) => Some(msg@),
        None => None,
    }
}

} // verus!
