//! What the broker's dispatch protocol guarantees, proved over the registry
//! steps that the operations' contracts state.

use vstd::prelude::*;
use crate::msgs::{Handle, MessageModel, DeliveryModel};
use crate::broker::{Broker, fan_out, issue_step, subscribe_step};

verus! {

/// A handle registered for a message's type before an issue receives exactly
/// one copy of the issued message: some position of the fan-out batch carries
/// the message to the handle, no two positions address the handle, and every
/// delivery the batch addresses to the handle carries the issued message.
pub proof fn lemma_subscribe_then_issue_delivers_once(
    b0: Broker,
    h: Handle,
    b1: Broker,
    m: MessageModel,
    b2: Broker,
    out: Seq<DeliveryModel>,
)
    requires
        b1.wf(),
        subscribe_step(b0, h, b1),
        issue_step(b1, m, b2, out),
        m.kind == h.kind,
    ensures
        exists|i: int| 0 <= i < out.len() && #[trigger] out[i] == (DeliveryModel { to: h, msg: m }),
        forall|i: int, j: int|
            0 <= i < j < out.len() ==> !((#[trigger] out[i]).to == h && (#[trigger] out[j]).to == h),
        forall|i: int| 0 <= i < out.len() && (#[trigger] out[i]).to == h ==> out[i].msg == m,
{
    let subs = b1.subs_of(h.kind);
    assert(subs.contains(h)) by {
        let pre_subs = b0.subs_of(h.kind);
        if pre_subs.contains(h) {
        } else {
            assert(subs[pre_subs.len() as int] == h);
        }
    }
    b1.lemma_subs_of_wf(h.kind);
    let w = choose|i: int| 0 <= i < subs.len() && subs[i] == h;
    assert(out[w] == (DeliveryModel { to: h, msg: m }));
    assert forall|i: int, j: int| 0 <= i < j < out.len()
        implies !((#[trigger] out[i]).to == h && (#[trigger] out[j]).to == h) by {
        assert(out[i].to == subs[i] && out[j].to == subs[j]);
    }
    assert forall|i: int| 0 <= i < out.len() && (#[trigger] out[i]).to == h
        implies out[i].msg == m by {
        assert(out[i] == (DeliveryModel { to: subs[i], msg: m }));
    }
}

/// Type isolation: every delivery an issue fans out goes to a handle of the
/// issued message's own type and carries that very message, so a subscriber
/// registered only for another type receives nothing from it; the issue also
/// leaves every other type's cache and every subscriber set unchanged.
pub proof fn lemma_type_isolation(
    pre: Broker,
    m: MessageModel,
    post: Broker,
    out: Seq<DeliveryModel>,
    i: int,
)
    requires
        pre.wf(),
        issue_step(pre, m, post, out),
        0 <= i < out.len(),
    ensures
        out[i].to.kind == m.kind,
        out[i].msg == m,
{
    pre.lemma_subs_of_wf(m.kind);
    let subs = pre.subs_of(m.kind);
    assert(out[i] == (DeliveryModel { to: subs[i], msg: m }));
}

/// Same-type FIFO: one publisher issues `m1` and then `m2` for the same
/// type. The first issue leaves every subscriber set as it was, so the two
/// fan-out batches address exactly the same handles in the same order, the
/// earlier one carrying `m1` and the later one `m2`; and the synchronous
/// barrier enqueues the whole earlier batch before the second issue begins,
/// so every handle registered before both calls finds `m1` in its mailbox
/// strictly before `m2`.
pub proof fn lemma_same_type_fifo(
    b0: Broker,
    m1: MessageModel,
    b1: Broker,
    out1: Seq<DeliveryModel>,
    m2: MessageModel,
    b2: Broker,
    out2: Seq<DeliveryModel>,
)
    requires
        issue_step(b0, m1, b1, out1),
        issue_step(b1, m2, b2, out2),
        m2.kind == m1.kind,
    ensures
        out1.len() == out2.len(),
        forall|i: int|
            0 <= i < out1.len()
                ==> (#[trigger] out1[i]).to == (#[trigger] out2[i]).to && out1[i].msg == m1
                && out2[i].msg == m2,
{
    let subs = b0.subs_of(m1.kind);
    assert(b1.subs_of(m2.kind) == subs);
    assert forall|i: int| 0 <= i < out1.len()
        implies (#[trigger] out1[i]).to == (#[trigger] out2[i]).to && out1[i].msg == m1
            && out2[i].msg == m2 by {
        assert(out1[i] == (DeliveryModel { to: subs[i], msg: m1 }));
        assert(out2[i] == (DeliveryModel { to: subs[i], msg: m2 }));
    }
}

/// Replay correctness: after `m` is issued for its type — with any number of
/// subscribers, also none — a synchronous subscribe for that type is
/// answered with exactly `m`, and a second synchronous subscribe after it,
/// with no new issue in between, is answered with the same `m` again, not
/// with an absent value: the reply reads the cache and never consumes it.
pub proof fn lemma_replay(
    b0: Broker,
    m: MessageModel,
    b1: Broker,
    out: Seq<DeliveryModel>,
    h1: Handle,
    b2: Broker,
    r1: Option<MessageModel>,
    h2: Handle,
    b3: Broker,
    r2: Option<MessageModel>,
)
    requires
        issue_step(b0, m, b1, out),
        subscribe_step(b1, h1, b2),
        r1 == b1.cached_of(h1.kind),
        subscribe_step(b2, h2, b3),
        r2 == b2.cached_of(h2.kind),
        h1.kind == m.kind,
        h2.kind == m.kind,
    ensures
        r1 == Some(m),
        r2 == Some(m),
{
    assert(b2.cached_of(m.kind) == b1.cached_of(m.kind));
}

/// No replay on an asynchronous subscribe: whatever the cache holds, the
/// registration step changes no type's cache and no other type's subscriber
/// set. `Broker::subscribe_async` returns nothing besides this step, so no
/// delivery can arise from it; only the synchronous flavour's separate reply
/// replays the cache.
pub proof fn lemma_no_replay_on_async_subscribe(pre: Broker, h: Handle, post: Broker)
    requires
        subscribe_step(pre, h, post),
    ensures
        forall|k: u64| post.cached_of(k) == pre.cached_of(k),
        forall|k: u64| k != h.kind ==> post.subs_of(k) == pre.subs_of(k),
{
}

/// An issue with no subscribers present completes with an empty fan-out and
/// still updates the cache: the issued message becomes the type's cached
/// most recent message. Completion without error needs no separate clause:
/// the issue operations return normally on every well-formed registry.
pub proof fn lemma_issue_with_no_subscribers(
    pre: Broker,
    m: MessageModel,
    post: Broker,
    out: Seq<DeliveryModel>,
)
    requires
        issue_step(pre, m, post, out),
        pre.subs_of(m.kind).len() == 0,
    ensures
        out.len() == 0,
        post.cached_of(m.kind) == Some(m),
{
    assert(out.len() == fan_out(pre.subs_of(m.kind), m).len());
}

} // verus!
