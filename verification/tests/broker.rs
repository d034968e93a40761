use actix_broker::{Broker, Handle, Message, replay_delivery};

const HEARTBEAT: u64 = 1;
const LOG: u64 = 2;

fn msg(kind: u64, body: &str) -> Message {
    Message { kind, body: body.to_string() }
}

#[test]
fn subscribe_before_issue_delivers_one_copy() {
    let mut b = Broker::new();
    let h = Handle { id: 10, kind: HEARTBEAT };
    let replay = b.subscribe_sync(h);
    assert!(replay.is_none());
    let ds = b.issue_sync(msg(HEARTBEAT, "boot"));
    assert_eq!(ds.len(), 1);
    assert_eq!(ds[0].to, h);
    assert_eq!(ds[0].msg.kind, HEARTBEAT);
    assert_eq!(ds[0].msg.body, "boot");
}

#[test]
fn type_isolation_between_kinds() {
    let mut b = Broker::new();
    let heart = Handle { id: 1, kind: HEARTBEAT };
    let log = Handle { id: 2, kind: LOG };
    b.subscribe_async(heart);
    b.subscribe_async(log);
    let ds = b.issue_sync(msg(LOG, "line"));
    assert_eq!(ds.len(), 1);
    assert_eq!(ds[0].to, log);
    assert_eq!(ds[0].msg.body, "line");
    let ds = b.issue_sync(msg(HEARTBEAT, "tick"));
    assert_eq!(ds.len(), 1);
    assert_eq!(ds[0].to, heart);
    assert_eq!(ds[0].msg.body, "tick");
}

#[test]
fn same_type_fifo_order() {
    let mut b = Broker::new();
    let h1 = Handle { id: 1, kind: LOG };
    let h2 = Handle { id: 2, kind: LOG };
    b.subscribe_async(h1);
    b.subscribe_async(h2);
    let first = b.issue_sync(msg(LOG, "m1"));
    let second = b.issue_sync(msg(LOG, "m2"));
    // the first batch is enqueued in full before the second issue runs, and
    // both batches address the same handles in the same order
    assert_eq!(first.len(), 2);
    assert_eq!(second.len(), 2);
    for i in 0..2 {
        assert_eq!(first[i].to, second[i].to);
        assert_eq!(first[i].msg.body, "m1");
        assert_eq!(second[i].msg.body, "m2");
    }
    assert_eq!(first[0].to, h1);
    assert_eq!(first[1].to, h2);
}

#[test]
fn replay_after_issue_with_no_subscribers() {
    let mut b = Broker::new();
    let ds = b.issue_sync(msg(HEARTBEAT, "alive"));
    assert_eq!(ds.len(), 0);
    let first = b.subscribe_sync(Handle { id: 1, kind: HEARTBEAT });
    let first = first.expect("cached message should be replayed");
    assert_eq!(first.kind, HEARTBEAT);
    assert_eq!(first.body, "alive");
    // a second sync subscribe, with no new issue, is answered the same way
    let second = b.subscribe_sync(Handle { id: 2, kind: HEARTBEAT });
    let second = second.expect("the cache is read, not consumed");
    assert_eq!(second.kind, HEARTBEAT);
    assert_eq!(second.body, "alive");
}

#[test]
fn no_replay_on_async_subscribe() {
    let mut b = Broker::new();
    let ds = b.issue_sync(msg(LOG, "old"));
    assert_eq!(ds.len(), 0);
    // the async subscribe registers but hands nothing back to deliver
    let h = Handle { id: 5, kind: LOG };
    b.subscribe_async(h);
    // the registration did happen: the next issue reaches the handle, and
    // the only message it ever receives is the new one
    let ds = b.issue_sync(msg(LOG, "new"));
    assert_eq!(ds.len(), 1);
    assert_eq!(ds[0].to, h);
    assert_eq!(ds[0].msg.body, "new");
}

#[test]
fn issue_with_no_subscribers_updates_cache() {
    let mut b = Broker::new();
    let ds = b.issue_async(msg(LOG, "kept"));
    assert_eq!(ds.len(), 0);
    let replay = b.subscribe_sync(Handle { id: 1, kind: LOG });
    assert_eq!(replay.expect("cache was updated").body, "kept");
}

#[test]
fn heartbeat_replay_scenario() {
    // publisher issues a sync heartbeat while zero subscribers exist
    let mut b = Broker::new();
    let ds = b.issue_sync(msg(HEARTBEAT, "{status:\"up\"}"));
    assert_eq!(ds.len(), 0);
    // actor S then sync-subscribes and catches up without a new issue
    let s = Handle { id: 42, kind: HEARTBEAT };
    let replay = b.subscribe_sync(s);
    let d = replay_delivery(s, replay).expect("replay becomes a delivery");
    assert_eq!(d.to, s);
    assert_eq!(d.msg.kind, HEARTBEAT);
    assert_eq!(d.msg.body, "{status:\"up\"}");
}

#[test]
fn duplicate_subscribe_still_one_copy() {
    let mut b = Broker::new();
    let h = Handle { id: 3, kind: HEARTBEAT };
    b.subscribe_async(h);
    let replay = b.subscribe_sync(h);
    assert!(replay.is_none());
    let ds = b.issue_sync(msg(HEARTBEAT, "once"));
    assert_eq!(ds.len(), 1);
    assert_eq!(ds[0].to, h);
}

#[test]
fn async_and_sync_issue_share_registry_effect() {
    let mut b = Broker::new();
    let h = Handle { id: 1, kind: LOG };
    b.subscribe_async(h);
    let ds = b.issue_async(msg(LOG, "a"));
    assert_eq!(ds.len(), 1);
    assert_eq!(ds[0].msg.body, "a");
    // the async issue updated the cache exactly as a sync issue would
    let replay = b.subscribe_sync(Handle { id: 2, kind: LOG });
    assert_eq!(replay.expect("cached").body, "a");
}

#[test]
fn replay_delivery_of_empty_reply_is_nothing() {
    let h = Handle { id: 9, kind: LOG };
    assert!(replay_delivery(h, None).is_none());
}

#[test]
fn later_cache_overwrites_earlier() {
    let mut b = Broker::new();
    b.issue_sync(msg(LOG, "first"));
    b.issue_sync(msg(LOG, "second"));
    let replay = b.subscribe_sync(Handle { id: 1, kind: LOG });
    assert_eq!(replay.expect("cached").body, "second");
}

#[test]
fn fresh_broker_has_empty_registry() {
    let mut b = Broker::new();
    let replay = b.subscribe_sync(Handle { id: 1, kind: HEARTBEAT });
    assert!(replay.is_none());
    let ds = b.issue_sync(msg(LOG, ""));
    assert_eq!(ds.len(), 0);
}
