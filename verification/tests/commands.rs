use termd::commands::{
    apply_subscribe, best_fit_size, handle_create, handle_destroy, handle_list, handle_refresh,
    handle_resize, handle_scrollback, handle_set_title, pty_info_to_item, refit_target,
    requested_size, scrollback_op,
};
use termd::proto::{Code, DestroyRequest, ScrollbackOpKind, Size, Timestamp};
use termd::pty::{PtyHandle, PtyRegistry, ScrollbackData, ScrollbackOp, SubscriberInfo, UnixTime};

fn sub(cols: u32, rows: u32) -> (String, SubscriberInfo) {
    ("s".into(), SubscriberInfo {
        hostname:   String::new(),
        cols,
        rows,
        created_at: UnixTime { secs: 1_700_000_000, nanos: 0 },
    })
}

#[test]
fn best_fit_none_when_empty() {
    assert_eq!(best_fit_size(&[]), None);
}

#[test]
fn best_fit_single_subscriber_is_its_own_size() {
    assert_eq!(best_fit_size(&[sub(80, 24)]), Some((80, 24)));
}

#[test]
fn best_fit_takes_min_of_each_dimension_independently() {
    // Neither subscriber's size wins outright: cols from one, rows from the other.
    assert_eq!(best_fit_size(&[sub(100, 30), sub(80, 40)]), Some((80, 30)));
}

#[test]
fn best_fit_ignores_zero_size_subscribers() {
    // A subscriber that hasn't reported a usable size must not collapse the box to 0.
    assert_eq!(best_fit_size(&[sub(80, 24), sub(0, 0)]), Some((80, 24)));
}

#[test]
fn best_fit_none_when_all_sizes_unknown() {
    assert_eq!(best_fit_size(&[sub(0, 24), sub(80, 0)]), None);
}

#[test]
fn refit_grows_when_both_dimensions_larger() {
    assert_eq!(refit_target((80, 24), (100, 40), false), Some((100, 40)));
}

#[test]
fn refit_grows_when_one_dimension_larger_other_equal() {
    assert_eq!(refit_target((80, 24), (100, 24), false), Some((100, 24)));
}

#[test]
fn refit_none_when_equal() {
    assert_eq!(refit_target((80, 24), (80, 24), false), None);
}

#[test]
fn refit_none_when_smaller() {
    // With multiple subscribers, a smaller client must not shrink the PTY out
    // from under the others.
    assert_eq!(refit_target((80, 24), (70, 20), false), None);
}

#[test]
fn refit_none_when_one_grows_one_shrinks() {
    // Mixed, grow-only: width would grow but height would shrink — leave it
    // alone rather than shrink either dimension.
    assert_eq!(refit_target((80, 24), (100, 20), false), None);
}

#[test]
fn refit_shrinks_when_allowed() {
    // A single subscriber owns the PTY: shrink to exactly its size.
    assert_eq!(refit_target((80, 24), (70, 20), true), Some((70, 20)));
}

#[test]
fn refit_grows_when_shrink_allowed() {
    // Growing is still fine in the single-subscriber case.
    assert_eq!(refit_target((80, 24), (100, 40), true), Some((100, 40)));
}

#[test]
fn refit_shrinks_one_dimension_when_allowed() {
    // Mixed dims collapse to the exact best-fit when shrinking is allowed.
    assert_eq!(refit_target((80, 24), (100, 20), true), Some((100, 20)));
}

#[test]
fn refit_none_when_equal_even_if_shrink_allowed() {
    // No resize when the PTY already matches the subscriber exactly.
    assert_eq!(refit_target((80, 24), (80, 24), true), None);
}

fn at(secs: i64) -> UnixTime {
    UnixTime { secs, nanos: 7 }
}

fn handle() -> PtyHandle {
    PtyHandle::with_id(0xabc, 80, 24, "box".to_string(), "/dev/pts/3".to_string(), at(100))
}

fn client(cols: u32, rows: u32, since: i64) -> SubscriberInfo {
    SubscriberInfo { hostname: "laptop".to_string(), cols, rows, created_at: at(since) }
}

#[test]
fn item_of_a_pty() {
    let mut h = handle();
    h.set_title("vim");
    h.upsert_subscriber("a", client(100, 30, 5));
    h.touch_last_subscribed(at(200));
    let item = pty_info_to_item(h.info());
    assert_eq!(item.pty_id, 0xabc);
    assert_eq!(item.hostname, "box");
    assert_eq!(item.pts_name, "/dev/pts/3");
    assert_eq!(item.title, "vim");
    assert_eq!(item.size, Some(Size { cols: 80, rows: 24 }));
    assert_eq!(item.created_at, Some(Timestamp { seconds: 100, nanos: 7 }));
    assert_eq!(item.last_subscribed_at, Some(Timestamp { seconds: 200, nanos: 7 }));
    assert_eq!(item.subscribers.len(), 1);
    assert_eq!(item.subscribers[0].subscriber_id, "a");
    assert_eq!(item.subscribers[0].hostname, "laptop");
    assert_eq!(item.subscribers[0].size, Some(Size { cols: 100, rows: 30 }));
    assert_eq!(item.subscribers[0].created_at, Some(Timestamp { seconds: 5, nanos: 7 }));
    assert_eq!(item.sort_order, 0);
}

#[test]
fn times_before_the_epoch_are_sent_as_the_epoch() {
    let h = PtyHandle::with_id(1, 80, 24, "b".to_string(), "p".to_string(), at(-5));
    let item = pty_info_to_item(h.info());
    assert_eq!(item.created_at, Some(Timestamp { seconds: 0, nanos: 0 }));
    assert_eq!(item.last_subscribed_at, None);
}

#[test]
fn answers_to_requests() {
    assert_eq!(handle_list(vec![handle().info(), handle().info()]).items.len(), 2);
    assert_eq!(handle_create(Ok(handle().info())).unwrap().pty_id, 0xabc);
    let e = handle_create(Err("openpty".to_string())).unwrap_err();
    assert_eq!((e.code, e.message.as_str()), (Code::Internal, "openpty"));

    let e = handle_resize(None).unwrap_err();
    assert_eq!((e.code, e.message.as_str()), (Code::NotFound, "PTY not found"));
    let e = handle_resize(Some(Err("TIOCSWINSZ failed".to_string()))).unwrap_err();
    assert_eq!((e.code, e.message.as_str()), (Code::Internal, "TIOCSWINSZ failed"));
    assert_eq!(handle_resize(Some(Ok(handle().info()))).unwrap().pts_name, "/dev/pts/3");

    let e = handle_set_title(None, "new").unwrap_err();
    assert_eq!((e.code, e.message.as_str()), (Code::NotFound, "PTY not found"));
    let mut h = handle();
    let titled = handle_set_title(Some(&mut h), "new").unwrap();
    assert_eq!((titled.pty_id, titled.title.as_str()), (0xabc, "new"));
    assert_eq!((h.info().title.as_str(), h.info().pts_name.as_str()), ("new", "/dev/pts/3"));

    assert_eq!(handle_refresh(None).unwrap_err().code, Code::NotFound);
    assert_eq!(handle_refresh(Some(Err("gone".to_string()))).unwrap_err().message, "gone");
    assert!(handle_refresh(Some(Ok(()))).is_ok());

    assert_eq!(handle_scrollback(None).unwrap_err().code, Code::NotFound);
    assert_eq!(handle_scrollback(Some(Err("x".to_string()))).unwrap_err().code, Code::Internal);
    let data = ScrollbackData {
        generation: 9,
        data: bytes::Bytes::from_static(b"rows"),
        total_scrollback_rows: 50,
        row_offset: 3,
    };
    let r = handle_scrollback(Some(Ok(data))).unwrap();
    assert_eq!((r.data.as_slice(), r.total_scrollback_rows, r.row_offset), (&b"rows"[..], 50, 3));
}

#[test]
fn destroy_answers() {
    let mut registry: PtyRegistry<u8> = PtyRegistry::new();
    registry.create(&mut handle(), 1);
    let e = handle_destroy(&mut registry, DestroyRequest { pty_id: 0xabd }).unwrap_err();
    assert_eq!((e.code, e.message.as_str()), (Code::NotFound, "PTY 0000000000000abd not found"));
    assert_eq!(handle_destroy(&mut registry, DestroyRequest { pty_id: 0xabc }).unwrap(), 1);
    assert!(registry.get(0xabc).is_none());
}

#[test]
fn sizes_and_wishes() {
    assert_eq!(requested_size(None), (0, 0));
    assert_eq!(requested_size(Some(Size { cols: 3, rows: 4 })), (3, 4));
    assert_eq!(scrollback_op(ScrollbackOpKind::ScrollbackOpen), ScrollbackOp::Open);
    assert_eq!(scrollback_op(ScrollbackOpKind::ScrollbackMove), ScrollbackOp::Move);
    assert_eq!(scrollback_op(ScrollbackOpKind::ScrollbackClose), ScrollbackOp::Close);
}

#[test]
fn single_subscriber_is_followed() {
    let mut h = handle();
    assert_eq!(apply_subscribe(&mut h, "a", client(60, 20, 1), at(50)), Some((60, 20)));
    assert_eq!(h.info().last_subscribed_at, Some(at(50)));
    // Without a usable size there is nothing to follow.
    let mut h = handle();
    assert_eq!(apply_subscribe(&mut h, "a", client(0, 0, 1), at(50)), None);
}

#[test]
fn several_subscribers_only_make_it_grow() {
    let mut h = handle();
    assert_eq!(apply_subscribe(&mut h, "a", client(80, 24, 1), at(1)), None);
    assert_eq!(apply_subscribe(&mut h, "b", client(60, 20, 2), at(2)), None, "never smaller");
    assert_eq!(apply_subscribe(&mut h, "b", client(120, 50, 3), at(3)), None);
    assert_eq!(apply_subscribe(&mut h, "a", client(100, 40, 4), at(4)), Some((100, 40)));
    assert_eq!(h.info().subscribers.unwrap().len(), 2);
}
