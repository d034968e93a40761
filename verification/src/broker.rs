//! The broker registry: one record per message type holding the subscriber
//! set and the cached most-recent message, and the dispatch rules that the
//! four registry operations follow.

use vstd::prelude::*;
use crate::msgs::{Message, MessageModel, Handle, Delivery, DeliveryModel, deliveries_model,
    replay_model};

verus! {

/// One per-type subscription record: the handles registered for one message
/// type and the most recently issued message of that type, if any.
struct Record {
    kind: u64,
    subscribers: Vec<Handle>,
    last_message: Option<Message>,
}

impl Record {
    /// Subscribers hold handles of this record's own type, each registered at
    /// most once, and a cached message carries this record's type.
    spec fn wf(self) -> bool {
        &&& forall|i: int, j: int|
            0 <= i < j < self.subscribers@.len()
                ==> self.subscribers@[i] != self.subscribers@[j]
        &&& forall|i: int|
            0 <= i < self.subscribers@.len()
                ==> (#[trigger] self.subscribers@[i]).kind == self.kind
        &&& match self.last_message {
            Some(m) => m.kind == self.kind,
            None => true,
        }
    }

    /// The model of this record's cached message.
    spec fn cached(self) -> Option<MessageModel> {
        match self.last_message {
            Some(m) => Some(m@),
            None => None,
        }
    }
}

/// The fan-out of issuing a message `m`: one delivery per registered
/// subscriber, in registration order, each carrying `m`.
pub open spec fn fan_out(subs: Seq<Handle>, m: MessageModel) -> Seq<DeliveryModel> {
    subs.map(|i: int, h: Handle| DeliveryModel { to: h, msg: m })
}

/// The registry effect of one issue, asynchronous or synchronous: the cache
/// for the message's own type now holds the message, no other cache and no
/// subscriber set changes, and the operation emits exactly the fan-out batch
/// for the subscribers registered at the moment it ran.
pub open spec fn issue_step(
    pre: Broker,
    m: MessageModel,
    post: Broker,
    out: Seq<DeliveryModel>,
) -> bool {
    &&& post.cached_of(m.kind) == Some(m)
    &&& forall|k: u64| k != m.kind ==> post.cached_of(k) == pre.cached_of(k)
    &&& forall|k: u64| post.subs_of(k) == pre.subs_of(k)
    &&& out == fan_out(pre.subs_of(m.kind), m)
}

/// The registry effect of one subscribe, asynchronous or synchronous: the
/// handle joins the subscriber set for its own message type (one already
/// registered joins nothing), no other type's set changes, and no cache
/// changes anywhere.
pub open spec fn subscribe_step(pre: Broker, h: Handle, post: Broker) -> bool {
    &&& post.subs_of(h.kind) == (if pre.subs_of(h.kind).contains(h) {
        pre.subs_of(h.kind)
    } else {
        pre.subs_of(h.kind).push(h)
    })
    &&& forall|k: u64| k != h.kind ==> post.subs_of(k) == pre.subs_of(k)
    &&& forall|k: u64| post.cached_of(k) == pre.cached_of(k)
}

/// The single shared registry: a mapping from message-type identity to its
/// subscription record. Records are created lazily on the first issue or
/// subscribe for a type and never destroyed. Every mutation passes through
/// one operation at a time, so each operation reads and changes the registry
/// atomically.
pub struct Broker {
    records: Vec<Record>,
}

impl Broker {
    /// No two records file the same message type, and each record is well
    /// formed on its own.
    pub closed spec fn wf(self) -> bool {
        &&& forall|i: int, j: int|
            0 <= i < j < self.records@.len()
                ==> self.records@[i].kind != self.records@[j].kind
        &&& forall|i: int| 0 <= i < self.records@.len() ==> (#[trigger] self.records@[i]).wf()
    }

    /// Whether a record for `kind` exists.
    spec fn has_record(self, kind: u64) -> bool {
        exists|i: int| 0 <= i < self.records@.len() && self.records@[i].kind == kind
    }

    /// The index of the record for `kind`, where one exists.
    spec fn record_at(self, kind: u64) -> int {
        choose|i: int| 0 <= i < self.records@.len() && self.records@[i].kind == kind
    }

    /// The handles currently registered for `kind`, in registration order.
    /// Their order has no meaning to the broker; it only fixes the order
    /// within one fan-out batch.
    pub closed spec fn subs_of(self, kind: u64) -> Seq<Handle> {
        if self.has_record(kind) {
            self.records@[self.record_at(kind)].subscribers@
        } else {
            Seq::<Handle>::empty()
        }
    }

    /// The cached most recent message of `kind`: the last message issued for
    /// `kind`, or nothing where none was ever issued.
    pub closed spec fn cached_of(self, kind: u64) -> Option<MessageModel> {
        if self.has_record(kind) {
            self.records@[self.record_at(kind)].cached()
        } else {
            None::<MessageModel>
        }
    }

    /// In a well-formed registry the record at index `i` is the one and only
    /// record for its own kind.
    proof fn lemma_at_unique(self, i: int)
        requires
            self.wf(),
            0 <= i < self.records@.len(),
        ensures
            self.has_record(self.records@[i].kind),
            self.record_at(self.records@[i].kind) == i,
    {
        let kind = self.records@[i].kind;
        assert(self.has_record(kind));
        let j = self.record_at(kind);
        assert(0 <= j < self.records@.len() && self.records@[j].kind == kind);
        if i < j {
            assert(self.records@[i].kind != self.records@[j].kind);
        } else if j < i {
            assert(self.records@[j].kind != self.records@[i].kind);
        }
    }

    /// What a well-formed registry promises of each subscriber sequence: no
    /// handle appears twice, and every handle carries the sequence's own
    /// message type.
    pub proof fn lemma_subs_of_wf(self, kind: u64)
        requires
            self.wf(),
        ensures
            forall|i: int, j: int|
                0 <= i < j < self.subs_of(kind).len()
                    ==> self.subs_of(kind)[i] != self.subs_of(kind)[j],
            forall|i: int|
                0 <= i < self.subs_of(kind).len()
                    ==> (#[trigger] self.subs_of(kind)[i]).kind == kind,
    {
        if self.has_record(kind) {
            let i = self.record_at(kind);
            assert(0 <= i < self.records@.len() && self.records@[i].kind == kind);
            assert(self.records@[i].wf());
        }
    }

    /// A fresh registry: no record exists yet for any message type.
    pub fn new() -> (b: Broker)
        ensures
            b.wf(),
            forall|k: u64| b.subs_of(k) == Seq::<Handle>::empty(),
            forall|k: u64| b.cached_of(k) is None,
    {
        let b = Broker { records: Vec::new() };
        proof {
            assert(forall|k: u64| !b.has_record(k));
        }
        b
    }

    /// The index of the record for `kind`, where the registry holds one.
    fn find_record(&self, kind: u64) -> (r: Option<usize>)
        ensures
            match r {
                Some(i) => i < self.records@.len() && self.records@[i as int].kind == kind,
                None => !self.has_record(kind),
            },
    {
        let mut i: usize = 0;
        while i < self.records.len()
            invariant
                i <= self.records@.len(),
                forall|j: int| 0 <= j < i ==> self.records@[j].kind != kind,
            decreases self.records@.len() - i,
        {
            if self.records[i].kind == kind {
                return Some(i);
            }
            i += 1;
        }
        None
    }

    /// Appending a fresh, empty record for an unfiled kind leaves every
    /// type's subscriber sequence and cache as it was.
    proof fn lemma_push_lookup(pre: Broker, post: Broker, kind: u64)
        requires
            pre.wf(),
            !pre.has_record(kind),
            post.records@.len() == pre.records@.len() + 1,
            forall|j: int| 0 <= j < pre.records@.len() ==> post.records@[j] == pre.records@[j],
            post.records@[pre.records@.len() as int].kind == kind,
            post.records@[pre.records@.len() as int].subscribers@.len() == 0,
            post.records@[pre.records@.len() as int].last_message is None,
        ensures
            post.wf(),
            post.has_record(kind),
            post.record_at(kind) == pre.records@.len(),
            forall|k: u64| post.subs_of(k) == pre.subs_of(k),
            forall|k: u64| post.cached_of(k) == pre.cached_of(k),
    {
        let last = pre.records@.len() as int;
        assert forall|i: int| 0 <= i < pre.records@.len()
            implies pre.records@[i].kind != kind by {
            if pre.records@[i].kind == kind {
                assert(pre.has_record(kind));
            }
        }
        assert(post.records@[last].wf());
        assert(post.wf());
        post.lemma_at_unique(last);
        assert forall|k: u64| post.subs_of(k) == pre.subs_of(k)
            && post.cached_of(k) == pre.cached_of(k) by {
            if k == kind {
                assert(post.record_at(kind) == last);
                assert(post.records@[last].subscribers@ =~= Seq::<Handle>::empty());
            } else {
                if pre.has_record(k) {
                    let i = pre.record_at(k);
                    assert(0 <= i < pre.records@.len() && pre.records@[i].kind == k);
                    post.lemma_at_unique(i);
                } else {
                    assert(!post.has_record(k)) by {
                        if post.has_record(k) {
                            let i = post.record_at(k);
                            assert(0 <= i < post.records@.len() && post.records@[i].kind == k);
                            assert(i < last);
                            assert(pre.has_record(k));
                        }
                    }
                }
            }
        }
    }

    /// Replacing the record at one index by a well-formed record of the same
    /// kind changes no other type's subscriber sequence or cache, and the
    /// replaced kind's sequence and cache become the new record's.
    proof fn lemma_update_lookup(pre: Broker, post: Broker, idx: int)
        requires
            pre.wf(),
            0 <= idx < pre.records@.len(),
            post.records@.len() == pre.records@.len(),
            forall|j: int|
                0 <= j < pre.records@.len() && j != idx ==> post.records@[j] == pre.records@[j],
            post.records@[idx].kind == pre.records@[idx].kind,
            post.records@[idx].wf(),
        ensures
            post.wf(),
            pre.record_at(pre.records@[idx].kind) == idx,
            post.record_at(pre.records@[idx].kind) == idx,
            pre.subs_of(pre.records@[idx].kind) == pre.records@[idx].subscribers@,
            pre.cached_of(pre.records@[idx].kind) == pre.records@[idx].cached(),
            post.subs_of(pre.records@[idx].kind) == post.records@[idx].subscribers@,
            post.cached_of(pre.records@[idx].kind) == post.records@[idx].cached(),
            forall|k: u64|
                k != pre.records@[idx].kind
                    ==> post.subs_of(k) == pre.subs_of(k) && post.cached_of(k) == pre.cached_of(k),
    {
        let kind0 = pre.records@[idx].kind;
        assert forall|j: int| 0 <= j < post.records@.len()
            implies (#[trigger] post.records@[j]).kind == pre.records@[j].kind by {
        }
        assert(post.wf());
        pre.lemma_at_unique(idx);
        post.lemma_at_unique(idx);
        assert forall|k: u64| k != kind0
            implies post.subs_of(k) == pre.subs_of(k) && post.cached_of(k) == pre.cached_of(k) by {
            if pre.has_record(k) {
                let i = pre.record_at(k);
                assert(0 <= i < pre.records@.len() && pre.records@[i].kind == k);
                assert(i != idx);
                post.lemma_at_unique(i);
            } else {
                assert(!post.has_record(k)) by {
                    if post.has_record(k) {
                        let i = post.record_at(k);
                        assert(0 <= i < post.records@.len() && post.records@[i].kind == k);
                        assert(pre.records@[i].kind == k);
                        assert(pre.has_record(k));
                    }
                }
            }
        }
    }

    /// The index of the record for `kind`, created empty where the registry
    /// holds none yet. Lazy creation changes nothing any lookup can see.
    fn ensure_record(&mut self, kind: u64) -> (i: usize)
        requires
            old(self).wf(),
        ensures
            final(self).wf(),
            i < final(self).records@.len(),
            final(self).records@[i as int].kind == kind,
            forall|k: u64| final(self).subs_of(k) == old(self).subs_of(k),
            forall|k: u64| final(self).cached_of(k) == old(self).cached_of(k),
    {
        match self.find_record(kind) {
            Some(i) => i,
            None => {
                let ghost pre = *self;
                let n = self.records.len();
                self.records.push(Record { kind, subscribers: Vec::new(), last_message: None });
                proof {
                    Self::lemma_push_lookup(pre, *self, kind);
                }
                n
            }
        }
    }

    /// The shared registry update of both issue operations: look up or create
    /// the record for `msg`'s type, store `msg` as its most recent message,
    /// and hand back one delivery of `msg` per subscriber registered at this
    /// moment, in registration order, for the caller to enqueue.
    fn issue(&mut self, msg: Message) -> (ds: Vec<Delivery>)
        requires
            old(self).wf(),
        ensures
            final(self).wf(),
            issue_step(*old(self), msg@, *final(self), deliveries_model(ds@)),
    {
        let idx = self.ensure_record(msg.kind);
        let ghost mid = *self;
        let mut ds: Vec<Delivery> = Vec::new();
        let mut i: usize = 0;
        while i < self.records[idx].subscribers.len()
            invariant
                idx < self.records@.len(),
                i <= self.records@[idx as int].subscribers@.len(),
                ds@.len() == i,
                forall|j: int|
                    0 <= j < i ==> (#[trigger] ds@[j]).to
                        == self.records@[idx as int].subscribers@[j] && ds@[j].msg@ == msg@,
            decreases self.records@[idx as int].subscribers@.len() - i,
        {
            let h = self.records[idx].subscribers[i];
            ds.push(Delivery { to: h, msg: msg.clone() });
            i += 1;
        }
        let ghost m = msg@;
        let rec = &mut self.records[idx];
        rec.last_message = Some(msg);
        proof {
            assert(mid.records@[idx as int].wf());
            assert(self.records@[idx as int].wf());
            Self::lemma_update_lookup(mid, *self, idx as int);
            let kind0 = mid.records@[idx as int].kind;
            let subs = mid.records@[idx as int].subscribers@;
            assert(mid.subs_of(kind0) == subs);
            assert(self.cached_of(kind0) == Some(m));
            assert forall|k: u64| self.subs_of(k) == old(self).subs_of(k) by {
                if k == kind0 {
                    assert(self.subs_of(k) == self.records@[idx as int].subscribers@);
                }
            }
            assert(deliveries_model(ds@) =~= fan_out(old(self).subs_of(m.kind), m)) by {
                assert(old(self).subs_of(m.kind) == subs);
                assert forall|j: int| 0 <= j < ds@.len()
                    implies deliveries_model(ds@)[j] == fan_out(subs, m)[j] by {
                    assert(deliveries_model(ds@)[j] == ds@[j]@);
                    assert(fan_out(subs, m)[j] == (DeliveryModel { to: subs[j], msg: m }));
                }
            }
        }
        ds
    }

    /// The shared registry update of both subscribe operations: look up or
    /// create the record for the handle's type and add the handle to its
    /// subscriber set; a handle that is already registered is left as it is.
    fn register(&mut self, h: Handle)
        requires
            old(self).wf(),
        ensures
            final(self).wf(),
            subscribe_step(*old(self), h, *final(self)),
    {
        let idx = self.ensure_record(h.kind);
        let ghost mid = *self;
        let mut found = false;
        let mut i: usize = 0;
        while i < self.records[idx].subscribers.len()
            invariant
                idx < self.records@.len(),
                i <= self.records@[idx as int].subscribers@.len(),
                found <==> exists|j: int|
                    0 <= j < i && self.records@[idx as int].subscribers@[j] == h,
            decreases self.records@[idx as int].subscribers@.len() - i,
        {
            if self.records[idx].subscribers[i] == h {
                found = true;
            }
            i += 1;
        }
        proof {
            assert(mid.records@[idx as int].wf());
            mid.lemma_at_unique(idx as int);
            assert(found <==> mid.subs_of(h.kind).contains(h));
        }
        if !found {
            let rec = &mut self.records[idx];
            rec.subscribers.push(h);
            proof {
                assert(self.records@[idx as int].wf()) by {
                    let subs = mid.records@[idx as int].subscribers@;
                    assert(forall|j: int| 0 <= j < subs.len() ==> subs[j] != h);
                    assert(self.records@[idx as int].subscribers@ == subs.push(h));
                }
                Self::lemma_update_lookup(mid, *self, idx as int);
                assert(self.subs_of(h.kind) == mid.subs_of(h.kind).push(h));
            }
        }
    }

    /// Asynchronously issue a message, fire and forget: the registry effect
    /// is the same as the synchronous issue's, and the returned batch is what
    /// the runtime will enqueue; the issuing actor does not wait for those
    /// enqueues before its next step.
    pub fn issue_async(&mut self, msg: Message) -> (ds: Vec<Delivery>)
        requires
            old(self).wf(),
        ensures
            final(self).wf(),
            issue_step(*old(self), msg@, *final(self), deliveries_model(ds@)),
    {
        self.issue(msg)
    }

    /// Synchronously issue a message: the registry update and fan-out of
    /// `issue_async`, with the barrier that the issuing actor resumes only
    /// after every delivery of the returned batch is enqueued. The barrier
    /// does not wait for any subscriber to handle its copy, and it changes
    /// nothing in the registry, so the contract is the issue step itself.
    pub fn issue_sync(&mut self, msg: Message) -> (ds: Vec<Delivery>)
        requires
            old(self).wf(),
        ensures
            final(self).wf(),
            issue_step(*old(self), msg@, *final(self), deliveries_model(ds@)),
    {
        self.issue(msg)
    }

    /// Asynchronously subscribe a handle for its message type: registration
    /// only, with no reply and no replay — the operation hands nothing back,
    /// so no delivery can arise from it, whatever the cache holds.
    pub fn subscribe_async(&mut self, h: Handle)
        requires
            old(self).wf(),
        ensures
            final(self).wf(),
            subscribe_step(*old(self), h, *final(self)),
    {
        self.register(h)
    }

    /// Synchronously subscribe a handle for its message type: the same
    /// registration as `subscribe_async`, answered with the cached most
    /// recent message of that type, if one exists, for the caller's runtime
    /// to replay into the subscriber's mailbox. The reply reads the cache and
    /// does not change it, so a second synchronous subscribe with no issue in
    /// between is answered with the same message.
    pub fn subscribe_sync(&mut self, h: Handle) -> (replay: Option<Message>)
        requires
            old(self).wf(),
        ensures
            final(self).wf(),
            subscribe_step(*old(self), h, *final(self)),
            replay_model(replay) == old(self).cached_of(h.kind),
    {
        self.register(h);
        let r = self.find_record(h.kind);
        match r {
            Some(i) => {
                proof {
                    self.lemma_at_unique(i as int);
                }
                match &self.records[i].last_message {
                    Some(msg) => Some(msg.clone()),
                    None => None,
                }
            }
            None => {
                proof {
                    let subs = self.subs_of(h.kind);
                    assert(subs.contains(h)) by {
                        let pre_subs = old(self).subs_of(h.kind);
                        if pre_subs.contains(h) {
                        } else {
                            assert(subs[pre_subs.len() as int] == h);
                        }
                    }
                    assert(false);
                }
                None
            }
        }
    }
}

/// The synchronous subscribe facet's reply handling: a replayed cached
/// message becomes one ordinary delivery into the subscribing actor's own
/// mailbox, as if freshly issued; an empty reply delivers nothing.
pub fn replay_delivery(h: Handle, replay: Option<Message>) -> (d: Option<Delivery>)
    ensures
        (match (replay, d) {
            (Some(m), Some(dv)) => dv.to == h && dv.msg@ == m@,
            (None, None) => true,
            _ => false,
        }),
{
    match replay {
        Some(msg) => Some(Delivery { to: h, msg }),
        None => None,
    }
}

} // verus!
