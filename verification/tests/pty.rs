use bytes::Bytes;
use termd::pty::{program_to_run, MetadataReason, PtyChunk, PtyHandle, PtyInfo, PtyRegistry, SubscriberInfo, UnixTime};

fn now() -> UnixTime {
    UnixTime { secs: 1_700_000_000, nanos: 500 }
}

fn make_handle() -> PtyHandle {
    PtyHandle::new(80, 24, "box".to_string(), "/dev/pts/1".to_string(), now())
}

fn with_id(id: u64) -> PtyHandle {
    PtyHandle::with_id(id, 80, 24, "box".to_string(), "/dev/pts/1".to_string(), now())
}

fn make_info(hostname: &str) -> SubscriberInfo {
    SubscriberInfo { hostname: hostname.into(), cols: 80, rows: 24, created_at: now() }
}

#[test]
fn mod_upsert_inserts_new_subscriber() {
    let mut h = make_handle();
    h.upsert_subscriber("abc", make_info("host1"));
    let subs = h.info().subscribers.unwrap();
    assert_eq!(subs.len(), 1);
    assert_eq!(subs[0].0, "abc");
    assert_eq!(subs[0].1.hostname, "host1");
}
#[test]
fn mod_upsert_updates_existing_preserves_created_at() {
    let mut h = make_handle();
    let t = UnixTime { secs: 0, nanos: 0 };
    h.upsert_subscriber("abc", SubscriberInfo {
        hostname: "host1".into(), cols: 80, rows: 24, created_at: t,
    });
    h.upsert_subscriber("abc", SubscriberInfo {
        hostname: "host2".into(), cols: 100, rows: 30, created_at: now(),
    });
    let subs = h.info().subscribers.unwrap();
    assert_eq!(subs.len(), 1, "no duplicate");
    assert_eq!(subs[0].1.hostname, "host2");
    assert_eq!(subs[0].1.cols, 100);
    assert_eq!(subs[0].1.created_at, t, "original created_at preserved");
}
#[test]
fn mod_remove_subscriber_deletes_entry() {
    let mut h = make_handle();
    h.upsert_subscriber("abc", make_info("host1"));
    h.remove_subscriber("abc");
    assert!(h.info().subscribers.unwrap().is_empty());
}
#[test]
fn mod_remove_nonexistent_is_noop() {
    let mut h = make_handle();
    h.remove_subscriber("nonexistent"); // must not panic
}
#[test]
fn pty_upsert_inserts_new_subscriber() {
    let mut h = make_handle();
    h.upsert_subscriber("abc", make_info("host1"));
    let subs = h.info().subscribers.unwrap();
    assert_eq!(subs.len(), 1);
    assert_eq!(subs[0].0, "abc");
    assert_eq!(subs[0].1.hostname, "host1");
}
#[test]
fn pty_upsert_updates_existing_preserves_created_at() {
    let mut h = make_handle();
    let t = UnixTime { secs: 0, nanos: 0 };
    h.upsert_subscriber("abc", SubscriberInfo {
        hostname: "host1".into(), cols: 80, rows: 24, created_at: t,
    });
    h.upsert_subscriber("abc", SubscriberInfo {
        hostname: "host2".into(), cols: 100, rows: 30, created_at: now(),
    });
    let subs = h.info().subscribers.unwrap();
    assert_eq!(subs.len(), 1, "no duplicate");
    assert_eq!(subs[0].1.hostname, "host2");
    assert_eq!(subs[0].1.cols, 100);
    assert_eq!(subs[0].1.created_at, t, "original created_at preserved");
}
#[test]
fn pty_remove_subscriber_deletes_entry() {
    let mut h = make_handle();
    h.upsert_subscriber("abc", make_info("host1"));
    h.remove_subscriber("abc");
    assert!(h.info().subscribers.unwrap().is_empty());
}
#[test]
fn pty_remove_nonexistent_is_noop() {
    let mut h = make_handle();
    h.remove_subscriber("nonexistent"); // must not panic
}
#[test]
fn shared_info_reflects_title_and_dims() {
    let mut h = make_handle();
    h.set_title("new-title");
    let info = h.shared.info();
    assert_eq!(info.title, "new-title");
    assert_eq!((info.cols, info.rows), (80, 24));
    assert!(info.subscribers.is_some());
}

#[test]
fn test_destroy_all_empties_registry() {
    let mut registry: PtyRegistry<u64> = PtyRegistry::new();
    for _ in 0..2 {
        let mut h = make_handle();
        let id = h.id();
        registry.create(&mut h, id);
    }
    assert_eq!(registry.list().len(), 2);
    assert_eq!(registry.destroy_all().len(), 2);
    assert_eq!(registry.list().len(), 0);
}

#[test]
fn new_pty() {
    let h = make_handle();
    let info = h.info();
    assert_eq!(info.title, "/dev/pts/1");
    assert_eq!(info.pts_name, "/dev/pts/1");
    assert_eq!(info.created_at, now());
    assert_eq!(info.last_subscribed_at, None);
    assert_eq!(h.current_generation(), 0);
    assert_eq!(h.id() & 0xf000, 0x4000, "the id is the upper half of a random UUID");
    assert_ne!(h.id(), make_handle().id());
}

#[test]
fn subscribers_are_told_in_the_order_of_their_time() {
    let mut h = make_handle();
    for (id, secs, nanos) in [("c", 30, 0), ("a", 10, 5), ("b", 10, 9), ("d", -3, 0)] {
        h.upsert_subscriber(id, SubscriberInfo {
            hostname: id.to_string(), cols: 1, rows: 1, created_at: UnixTime { secs, nanos },
        });
    }
    let ids: Vec<String> = h.info().subscribers.unwrap().into_iter().map(|(id, _)| id).collect();
    assert_eq!(ids, ["d", "a", "b", "c"]);
    let meta = h.subscribers_changed();
    assert_eq!(meta.reason, MetadataReason::SubscribersChanged);
    assert_eq!(meta.info.subscribers.unwrap().len(), 4);
    h.remove_subscriber("b");
    let ids: Vec<String> = h.info().subscribers.unwrap().into_iter().map(|(id, _)| id).collect();
    assert_eq!(ids, ["d", "a", "c"]);
}

#[test]
fn touch_notes_the_time() {
    let mut h = make_handle();
    h.touch_last_subscribed(UnixTime { secs: 5, nanos: 6 });
    assert_eq!(h.info().last_subscribed_at, Some(UnixTime { secs: 5, nanos: 6 }));
}

#[test]
fn closed_info_names_the_pty_only() {
    let info = PtyInfo::closed(7, now());
    assert_eq!((info.id, info.created_at), (7, now()));
    assert!(info.subscribers.is_none() && info.title.is_empty() && info.cols == 0);
}

#[test]
fn places_in_lists_are_the_smallest_free() {
    let mut registry: PtyRegistry<&str> = PtyRegistry::new();
    assert_eq!(registry.create(&mut with_id(10), "a"), 0);
    assert_eq!(registry.create(&mut with_id(11), "b"), 1);
    assert_eq!(registry.create(&mut with_id(12), "c"), 2);
    assert_eq!(registry.destroy(11), Ok("b"));
    assert_eq!(registry.create(&mut with_id(13), "d"), 1, "a gap is filled");
    assert_eq!(registry.create(&mut with_id(14), "e"), 3);
    assert_eq!(registry.get(13), Some(&"d"));
    assert_eq!(registry.get(11), None);
    assert_eq!(registry.destroy(11), Err("PTY 000000000000000b not found".to_string()));
    let mut all: Vec<&str> = registry.list().into_iter().copied().collect();
    all.sort();
    assert_eq!(all, ["a", "c", "d", "e"]);
}

#[test]
fn a_pty_tells_its_place() {
    let mut registry: PtyRegistry<&str> = PtyRegistry::new();
    let mut first = make_handle();
    let mut second = make_handle();
    registry.create(&mut first, "first");
    registry.create(&mut second, "second");
    assert_eq!((first.info().sort_order, second.info().sort_order), (0, 1));
    assert_eq!((second.info().cols, second.info().title.as_str()), (80, "/dev/pts/1"));
    registry.destroy(first.id()).unwrap();
    let mut third = make_handle();
    registry.create(&mut third, "third");
    assert_eq!((third.info().sort_order, second.info().sort_order), (0, 1));
    assert_eq!(registry.get(third.id()), Some(&"third"));
}

#[test]
fn the_same_id_replaces() {
    let mut registry: PtyRegistry<&str> = PtyRegistry::new();
    registry.create(&mut with_id(10), "a");
    assert_eq!(registry.create(&mut with_id(10), "b"), 1, "the old entry still holds its place");
    assert_eq!(registry.get(10), Some(&"b"));
    assert_eq!(registry.list().len(), 1);
}

#[test]
fn generations_count_up_and_start_over() {
    let mut h = make_handle();
    assert_eq!(h.shared.advance(), 1);
    assert_eq!(h.shared.advance(), 2);
    h.shared.generation = u64::MAX;
    assert_eq!(h.shared.advance(), 0);
}

#[test]
fn what_a_pty_runs() {
    let (a, b) = (Some("vim".to_string()), Some("/bin/zsh".to_string()));
    assert_eq!(program_to_run(a, b.clone()), "vim");
    assert_eq!(program_to_run(None, b), "/bin/zsh");
    assert_eq!(program_to_run(None, None), "/bin/sh");
}

#[test]
fn a_copy_of_output_holds_the_same() {
    let chunk = PtyChunk { generation: 4, data: Bytes::from_static(b"out") };
    let copy = chunk.clone();
    assert_eq!((copy.generation, &copy.data[..]), (4, &b"out"[..]));
}
