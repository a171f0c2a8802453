use bytes::Bytes;
use std::sync::Arc;
use termd::attach::session::{RenderLoop, RenderStep, Session};
use termd::attach::RenderMode;
use termd::commands::pty_info_to_item;
use termd::proto::{
    Code, Event, Frame, MetaEvent, Size, SubscribeEvent, SubscribeFrame, SubscribeStart,
};
use termd::pty::{
    MetadataReason, PtyChunk, PtyEvent, PtyHandle, PtyInfo, PtyMetadata, PtyRegistry, RefreshData, SubscriberInfo,
    UnixTime,
};
use termd::random::{new_id, new_subscriber_id};
use termd::server::{
    check_token, event_to_subscribe, first_frame, forward, generate_token, open_subscription, ready_event, reap, token_text,
    ForwardStep, Incoming,
};

fn now() -> UnixTime {
    UnixTime { secs: 1, nanos: 0 }
}

fn handle() -> PtyHandle {
    PtyHandle::new(80, 24, "box".to_string(), "/dev/pts/1".to_string(), now())
}

fn meta(reason: MetadataReason, exit_code: Option<i32>) -> Arc<PtyMetadata> {
    let mut h = handle();
    h.set_title("vim");
    let visitor = SubscriberInfo { hostname: "laptop".to_string(), cols: 100, rows: 30, created_at: now() };
    h.upsert_subscriber("s1", visitor);
    Arc::new(PtyMetadata { reason, exit_code, generation: 3, info: h.info() })
}

fn snapshot() -> Arc<RefreshData> {
    Arc::new(RefreshData { generation: 9, data: Bytes::from_static(b"S"), cols: 80, rows: 24, degraded: true })
}

fn sent(step: ForwardStep) -> Event {
    match step {
        ForwardStep::Send(SubscribeEvent { event: Some(e) }) => e,
        _ => panic!("expected something to send"),
    }
}

#[test]
fn only_the_token_lets_pass() {
    assert!(check_token("abc", Some(b"abc")).is_ok());
    for wrong in [&b"abd"[..], b"ab", b"abcd", b""] {
        let refused = check_token("abc", Some(wrong)).unwrap_err();
        assert_eq!(refused.code, Code::Unauthenticated);
        assert_eq!(refused.message, "invalid or missing x-auth-token");
    }
    assert_eq!(check_token("abc", None).unwrap_err().code, Code::Unauthenticated);
}

#[test]
fn tokens_and_ids() {
    assert_eq!(token_text(0x4abc), "0000000000004abc");
    let token = generate_token();
    assert_eq!(token.len(), 16);
    assert_eq!(&token[12..13], "4", "the version of a random UUID");
    assert!(token.chars().all(|c| c.is_ascii_digit() || ('a'..='f').contains(&c)));
    assert_ne!(token, generate_token());
    assert!(check_token(&token, Some(token.as_bytes())).is_ok());
    assert_eq!(new_id() & 0xf000, 0x4000);
    assert_ne!(new_id(), new_id());
    let id = new_subscriber_id();
    assert_eq!(id.len(), 36);
    assert_eq!((&id[8..9], &id[13..15], &id[18..19], &id[23..24]), ("-", "-4", "-", "-"));
    assert!("89ab".contains(&id[19..20]));
    assert_ne!(id, new_subscriber_id());
}

#[test]
fn the_first_frame_names_the_pty() {
    let start = SubscribeStart { pty_id: 7, hostname: "h".to_string(), size: None };
    let named = first_frame(Some(SubscribeFrame { frame: Some(Frame::Start(start)) })).unwrap();
    assert_eq!(named.pty_id, 7);
    let others = [
        None,
        Some(SubscribeFrame { frame: None }),
        Some(SubscribeFrame { frame: Some(Frame::Write(b"x".to_vec())) }),
    ];
    for other in others {
        let refused = first_frame(other).unwrap_err();
        assert_eq!(refused.code, Code::InvalidArgument);
        assert_eq!(refused.message, "expected SubscribeStart as first frame");
    }
}

#[test]
fn a_subscription_is_to_a_pty_that_there_is() {
    let mut registry: PtyRegistry<&str> = PtyRegistry::new();
    let mut h = handle();
    registry.create(&mut h, "it");
    let start = |pty_id: u64| {
        let start = SubscribeStart { pty_id, hostname: "h".to_string(), size: Some(Size { cols: 9, rows: 8 }) };
        Some(SubscribeFrame { frame: Some(Frame::Start(start)) })
    };
    let (named, held) = open_subscription(&registry, start(h.id())).unwrap();
    assert_eq!((named.pty_id, named.hostname.as_str(), *held), (h.id(), "h", "it"));
    assert_eq!(named.size, Some(Size { cols: 9, rows: 8 }));
    let refused = open_subscription(&registry, start(h.id() ^ 1)).unwrap_err();
    assert_eq!((refused.code, refused.message.as_str()), (Code::NotFound, "PTY not found"));
    let refused = open_subscription(&registry, None).unwrap_err();
    assert_eq!(refused.code, Code::InvalidArgument);
    assert_eq!(refused.message, "expected SubscribeStart as first frame");
}

#[test]
fn output_is_passed_on() {
    let me = "me".to_string();
    let chunk = PtyEvent::Data(PtyChunk { generation: 1, data: Bytes::from_static(b"out") });
    assert!(matches!(sent(forward(&me, Incoming::Data(chunk))), Event::Data(d) if d == b"out"));
    match sent(forward(&me, Incoming::Data(PtyEvent::Refresh(snapshot())))) {
        Event::Refresh(r) => {
            assert_eq!((r.data, r.size, r.degraded), (b"S".to_vec(), Some(Size { cols: 80, rows: 24 }), true));
        }
        _ => panic!("expected a snapshot"),
    }
    let mine = PtyEvent::RefreshFor { subscriber_id: me.clone(), data: snapshot() };
    assert!(matches!(sent(forward(&me, Incoming::Data(mine))), Event::Refresh(_)));
    let others = PtyEvent::RefreshFor { subscriber_id: "you".to_string(), data: snapshot() };
    assert!(matches!(forward(&me, Incoming::Data(others)), ForwardStep::Skip));
    assert!(matches!(ready_event(&me).event, Some(Event::Ready(id)) if id == "me"));
}

#[test]
fn what_is_told_is_passed_on() {
    let me = "me".to_string();
    let told = |reason, code| match sent(forward(&me, Incoming::Meta(meta(reason, code)))) {
        Event::Metadata(Some(m)) => m,
        _ => panic!("expected a notice"),
    };
    assert!(matches!(told(MetadataReason::Resize, None), MetaEvent::Resized(Some(Size { cols: 80, rows: 24 }))));
    assert!(matches!(told(MetadataReason::TitleChanged, None), MetaEvent::TitleChanged(t) if t == "vim"));
    assert!(matches!(told(MetadataReason::Closed, Some(3)), MetaEvent::Exited(3)));
    assert!(matches!(told(MetadataReason::Closed, None), MetaEvent::Exited(0)));
    assert!(matches!(told(MetadataReason::DataLost, None), MetaEvent::DataLost));
    match told(MetadataReason::SubscribersChanged, None) {
        MetaEvent::SubscribersChanged(list) => {
            assert_eq!(list.len(), 1);
            assert_eq!((list[0].subscriber_id.as_str(), list[0].hostname.as_str()), ("s1", "laptop"));
            assert_eq!(list[0].size, Some(Size { cols: 100, rows: 30 }));
        }
        _ => panic!("expected the subscribers"),
    }
}

#[test]
fn what_a_slow_or_gone_subscriber_gets() {
    let me = "me".to_string();
    let lost = |e| matches!(e, Event::Metadata(Some(MetaEvent::DataLost)));
    assert!(lost(sent(forward(&me, Incoming::DataLagged))));
    assert!(lost(sent(forward(&me, Incoming::MetaLagged))));
    assert!(matches!(forward(&me, Incoming::DataClosed), ForwardStep::End));
    assert!(matches!(forward(&me, Incoming::MetaClosed), ForwardStep::ParkMeta));
    assert!(matches!(forward(&me, Incoming::FramesEnded), ForwardStep::End));
    assert!(matches!(forward(&me, Incoming::FramesFailed), ForwardStep::End));
    let write = SubscribeFrame { frame: Some(Frame::Write(b"ls\n".to_vec())) };
    assert!(matches!(forward(&me, Incoming::Frame(write)), ForwardStep::Write(d) if d == b"ls\n"));
    let empty = SubscribeFrame { frame: None };
    assert!(matches!(forward(&me, Incoming::Frame(empty)), ForwardStep::Skip));
}

#[test]
fn the_dead_are_taken_off() {
    let mut h = handle();
    let visitor = SubscriberInfo { hostname: "laptop".to_string(), cols: 100, rows: 30, created_at: now() };
    h.upsert_subscriber("a", visitor.clone());
    h.upsert_subscriber("b", visitor);
    let told = reap(&mut h, "a");
    assert_eq!(told.reason, MetadataReason::SubscribersChanged);
    let left: Vec<String> = told.info.subscribers.unwrap().into_iter().map(|(id, _)| id).collect();
    assert_eq!(left, ["b"]);
    assert_eq!(h.info().subscribers.unwrap().len(), 1);
}

#[test]
fn a_closed_pty_tells_its_code() {
    let closed = PtyMetadata {
        reason: MetadataReason::Closed, exit_code: Some(9), generation: 0, info: PtyInfo::closed(1, now()),
    };
    let sent = event_to_subscribe(PtyEvent::Metadata(Arc::new(closed)));
    assert!(matches!(sent.event, Some(Event::Metadata(Some(MetaEvent::Exited(9))))));
}

#[test]
fn what_a_pty_puts_out_is_what_is_painted() {
    let me = "me".to_string();
    let mut session = Session::new(pty_info_to_item(handle().info()), RenderMode::Raw);
    let mut painting = RenderLoop::new();
    let chunk = PtyEvent::Data(PtyChunk { generation: 1, data: Bytes::from_static(b"out\xff") });
    let event = sent(forward(&me, Incoming::Data(chunk)));
    match painting.on_event(&mut session, Some(event)) {
        RenderStep::Stream(data) => assert_eq!(data, b"out\xff"),
        _ => panic!("expected output"),
    }
    let event = sent(forward(&me, Incoming::Data(PtyEvent::Refresh(snapshot()))));
    match painting.on_event(&mut session, Some(event)) {
        RenderStep::Refresh { cols, rows, data } => assert_eq!((cols, rows, data), (80, 24, b"S".to_vec())),
        _ => panic!("expected a screen"),
    }
    let event = sent(forward(&me, Incoming::Meta(meta(MetadataReason::Closed, None))));
    assert!(matches!(painting.on_event(&mut session, Some(event)), RenderStep::Closed));
}
