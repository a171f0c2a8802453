use termd::attach::session::{
    await_snapshot, debug_step, destroy_outcome, input_outcome, repaint_is_due, stream_end, subscribe_failure, subscriber_id_from,
    upgrade_to, Awaited, Begin, DebugStep, ListOpening, Opening, OutcomeStep, RefreshResult, RenderLoop, RenderStep, RunOutcome,
    Session, SubscribeResult, Switch,
};
use termd::attach::{EventResult, InputAction, RenderMode};
use termd::proto::{
    status, Code, Event, MetaEvent, PtyItem, RefreshData, Size, SubscribeEvent, Timestamp,
};

fn item(pty_id: u64, sort_order: u32) -> PtyItem {
    PtyItem {
        pty_id,
        hostname: String::new(),
        pts_name: String::new(),
        size: Some(Size { cols: 80, rows: 24 }),
        title: String::new(),
        created_at: None,
        last_subscribed_at: Some(Timestamp { seconds: pty_id as i64, nanos: 0 }),
        subscribers: Vec::new(),
        sort_order,
    }
}

fn three() -> Vec<PtyItem> {
    vec![item(3, 2), item(1, 0), item(2, 1)]
}

fn session() -> Session {
    let mut s = Session::new(item(1, 0), RenderMode::Region);
    assert_eq!(s.on_subscribed(SubscribeResult::Opened), Opening::Refresh);
    s
}

#[test]
fn a_round_from_the_start() {
    let mut s = Session::new(item(1, 0), RenderMode::Raw);
    assert_eq!((s.current_id, s.previous_id, s.subscribed), (1, None, false));
    assert_eq!(s.begin(), Begin::Subscribe);
    assert_eq!(s.on_subscribed(SubscribeResult::Opened), Opening::Refresh);
    assert_eq!(s.begin(), Begin::Refresh);
    let snapshot = RefreshResult::Snapshot { cols: 100, rows: 30 };
    assert_eq!(s.on_refreshed(snapshot), Opening::Render);
    assert_eq!(s.current_item.size, Some(Size { cols: 100, rows: 30 }));
    s.on_refreshed(RefreshResult::Snapshot { cols: 0, rows: 30 });
    assert_eq!(s.current_item.size, Some(Size { cols: 100, rows: 30 }), "no size is no size");
}

#[test]
fn what_goes_wrong_at_the_start() {
    let mut s = Session::new(item(1, 0), RenderMode::Raw);
    assert_eq!(s.on_subscribed(SubscribeResult::Failed), Opening::Reconnect);
    assert_eq!(s.on_subscribed(SubscribeResult::Gone), Opening::PtyGone);
    assert_eq!(s.on_refreshed(RefreshResult::Failed), Opening::Reconnect);
    s.on_subscribed(SubscribeResult::Opened);
    assert_eq!(s.on_refreshed(RefreshResult::Ended), Opening::PtyGone);
    assert!(!s.subscribed);
    assert_eq!(subscribe_failure(Some(Code::NotFound)), SubscribeResult::Gone);
    assert_eq!(subscribe_failure(Some(Code::Internal)), SubscribeResult::Failed);
    assert_eq!(subscribe_failure(None), SubscribeResult::Failed);
    s.subscribed = true;
    assert!(!s.on_reconnected(false) && s.subscribed);
    assert!(s.on_reconnected(true) && !s.subscribed);
}

#[test]
fn what_actions_ask_for() {
    let mut s = session();
    let table = [
        (InputAction::Detach, OutcomeStep::End),
        (InputAction::Destroy, OutcomeStep::Destroy),
        (InputAction::Create, OutcomeStep::Create),
        (InputAction::ForceResize, OutcomeStep::Resize),
        (InputAction::ForceRefresh, OutcomeStep::Refresh),
        (InputAction::SwitchNext, OutcomeStep::Switch(Switch::Next)),
        (InputAction::SwitchPrevious, OutcomeStep::Switch(Switch::Previous)),
        (InputAction::SwitchRecent, OutcomeStep::Switch(Switch::Recent)),
        (InputAction::SwitchIndex(4), OutcomeStep::Switch(Switch::Index(4))),
        (InputAction::ShowList, OutcomeStep::ShowList),
        (InputAction::ShowInfo, OutcomeStep::ShowInfo),
        (InputAction::ShowScrollback, OutcomeStep::ShowScrollback { rows: 24 }),
        (InputAction::ShowHelp, OutcomeStep::ShowHelp),
    ];
    for (action, step) in table {
        assert_eq!(s.on_outcome(RunOutcome::Action(action)), step);
        assert!(s.subscribed);
    }
    assert_eq!(s.on_outcome(RunOutcome::ServerClosed), OutcomeStep::Reconnect);
    assert_eq!(s.on_outcome(RunOutcome::OutputClosed), OutcomeStep::End);
    assert_eq!(s.on_outcome(RunOutcome::Resubscribe), OutcomeStep::Again);
    assert!(!s.subscribed);
    assert_eq!(s.on_outcome(RunOutcome::Action(InputAction::ForceRefresh)), OutcomeStep::Again);
    assert_eq!(s.on_outcome(RunOutcome::Action(InputAction::ShowScrollback)), OutcomeStep::Again);
    s.set_list(three());
    assert_eq!(s.on_outcome(RunOutcome::PtyClosed), OutcomeStep::PtyClosed);
    assert!(s.list.is_empty());
}

#[test]
fn switching() {
    let mut s = session();
    assert!(!s.on_switch(Switch::Next, three()));
    assert_eq!((s.current_id, s.previous_id, s.subscribed), (2, Some(1), false));
    s.on_switch(Switch::Previous, three());
    assert_eq!((s.current_id, s.previous_id), (1, Some(2)));
    s.on_switch(Switch::Recent, three());
    assert_eq!((s.current_id, s.previous_id), (2, Some(1)), "there and back");
    s.on_switch(Switch::Index(2), three());
    assert_eq!(s.current_id, 3);
    s.subscribed = true;
    s.on_switch(Switch::Index(9), three());
    assert_eq!((s.current_id, s.subscribed), (3, true));
    s.on_switch(Switch::Index(2), three());
    assert!(s.subscribed, "the same one goes on");
    assert!(s.on_switch(Switch::Recent, vec![item(3, 0)]), "there is no other");
    assert_eq!(s.current_id, 3);
}

#[test]
fn after_the_end_of_a_pty() {
    let mut s = session();
    s.on_switch(Switch::Index(1), three());
    assert!(!s.on_destroyed(Some(vec![item(1, 0), item(3, 1)])));
    assert_eq!((s.current_id, s.skip_subscribe), (1, false), "back to the one before");
    assert!(s.list.is_empty());
    let mut s = session();
    assert!(!s.on_destroyed(None));
    assert_eq!((s.begin(), s.begin()), (Begin::Idle, Begin::Subscribe));
    s.set_list(three());
    s.on_closed_choice(Some(3));
    assert_eq!((s.current_id, s.previous_id, s.list.len()), (3, Some(1), 0));
    s.set_list(three());
    s.on_closed_choice(Some(77));
    assert_eq!(s.current_id, 3);
    s.on_closed_choice(None);
    assert!(s.skip_subscribe);
}

#[test]
fn a_list_to_choose_from() {
    let mut s = session();
    match s.open_list(Some(vec![item(3, 2), item(1, 1), item(2, 0)])) {
        ListOpening::Screen(screen) => assert_eq!(screen.selected, 1, "the current one"),
        _ => panic!("there is something to choose"),
    }
    let ids: Vec<u64> = s.list.iter().map(|i| i.pty_id).collect();
    assert_eq!(ids, [2, 1, 3]);
    assert!(matches!(s.open_list(None), ListOpening::Failed));
    assert_eq!(s.list.len(), 3, "a list that could not be fetched changes nothing");
    assert!(matches!(s.open_list(Some(Vec::new())), ListOpening::Empty));
    assert!(s.list.is_empty());
}

#[test]
fn created_or_chosen() {
    let mut s = session();
    s.on_created(item(8, 5));
    assert_eq!((s.current_id, s.previous_id, s.subscribed), (8, Some(1), false));
    s.set_list(three());
    s.subscribed = true;
    s.on_list_choice(None);
    s.on_list_choice(Some(8));
    s.on_list_choice(Some(77));
    assert!(s.subscribed && s.current_id == 8);
    s.on_list_choice(Some(2));
    assert_eq!((s.current_id, s.previous_id, s.subscribed), (2, Some(8), false));
}

#[test]
fn modes() {
    let mut s = session();
    assert_eq!(s.change_mode(EventResult::Continue), None);
    assert_eq!(s.change_mode(EventResult::RequestRefresh), None);
    assert_eq!(s.change_mode(EventResult::ChangeRenderMode(RenderMode::Cell)), Some(RenderMode::Cell));
    assert_eq!((s.mode, s.dispatch_mode), (RenderMode::Region, RenderMode::Cell));
    assert_eq!(upgrade_to(RenderMode::Region), Some(RenderMode::Region));
    assert_eq!(upgrade_to(RenderMode::Autowrap), Some(RenderMode::Autowrap));
    assert_eq!(upgrade_to(RenderMode::Raw), None);
    assert_eq!(upgrade_to(RenderMode::Cell), None);
}

#[test]
fn events_while_painting() {
    let mut s = session();
    let mut r = RenderLoop::new();
    let meta = |m| Some(Event::Metadata(Some(m)));
    assert!(matches!(r.on_event(&mut s, Some(Event::Data(b"x".to_vec()))), RenderStep::Stream(d) if d == b"x"));
    let lost = || meta(MetaEvent::DataLost);
    assert!(matches!(r.on_event(&mut s, lost()), RenderStep::RequestRefresh));
    assert!(matches!(r.on_event(&mut s, lost()), RenderStep::Ignore), "asked for once");
    let refresh = RefreshData { data: b"S".to_vec(), size: Some(Size { cols: 90, rows: 20 }), degraded: false };
    assert!(matches!(
        r.on_event(&mut s, Some(Event::Refresh(refresh))),
        RenderStep::Refresh { cols: 90, rows: 20, .. }
    ));
    assert_eq!(s.current_item.size, Some(Size { cols: 90, rows: 20 }));
    assert!(matches!(r.on_event(&mut s, lost()), RenderStep::RequestRefresh), "and then again");
    let resized = meta(MetaEvent::Resized(Some(Size { cols: 70, rows: 10 })));
    assert!(matches!(r.on_event(&mut s, resized), RenderStep::Resize { cols: 70, rows: 10 }));
    let zero = meta(MetaEvent::Resized(Some(Size { cols: 0, rows: 10 })));
    assert!(matches!(r.on_event(&mut s, zero), RenderStep::Ignore));
    assert_eq!(s.current_item.size, Some(Size { cols: 70, rows: 10 }));
    r.on_event(&mut s, meta(MetaEvent::TitleChanged("vim".to_string())));
    assert_eq!(s.current_item.title, "vim");
    assert!(matches!(r.on_event(&mut s, meta(MetaEvent::Exited(0))), RenderStep::Closed));
    assert!(matches!(r.on_event(&mut s, None), RenderStep::Ignore));
    r.on_sigwinch(EventResult::Continue);
    assert!(!r.debounce_active);
    r.on_sigwinch(EventResult::RequestRefresh);
    assert!(r.debounce_active);
}

#[test]
fn ends_and_beginnings_of_a_subscription() {
    assert_eq!(stream_end(true), RunOutcome::ServerClosed);
    assert_eq!(stream_end(false), RunOutcome::Resubscribe);
    assert_eq!(input_outcome(true, None), Some(RunOutcome::Action(InputAction::Detach)));
    assert_eq!(input_outcome(false, Some(InputAction::Create)), Some(RunOutcome::Action(InputAction::Create)));
    assert_eq!(input_outcome(false, None), None);
    let ready = SubscribeEvent { event: Some(Event::Ready("id".to_string())) };
    assert_eq!(subscriber_id_from(Some(ready)), Ok("id".to_string()));
    let other = SubscribeEvent { event: Some(Event::Data(Vec::new())) };
    assert_eq!(subscriber_id_from(Some(other)), Err("subscribe: first event was not Ready".to_string()));
    assert_eq!(subscriber_id_from(None), Err("server disconnected during subscribe".to_string()));
}

#[test]
fn waiting_for_a_snapshot() {
    assert!(matches!(await_snapshot(None), Awaited::Ended));
    let data = SubscribeEvent { event: Some(Event::Data(b"x".to_vec())) };
    assert!(matches!(await_snapshot(Some(data)), Awaited::Discard));
    let refresh = RefreshData { data: b"S".to_vec(), size: None, degraded: false };
    let refresh = SubscribeEvent { event: Some(Event::Refresh(refresh)) };
    assert!(matches!(await_snapshot(Some(refresh)), Awaited::Snapshot { cols: 0, rows: 0, .. }));
}

#[test]
fn ending_a_pty_that_is_gone_is_fine() {
    assert_eq!(destroy_outcome(Ok(())), Ok(()));
    assert_eq!(destroy_outcome(Err(status(Code::NotFound, "x"))), Ok(()));
    assert_eq!(
        destroy_outcome(Err(status(Code::Internal, "x"))),
        Err("Failed to destroy PTY: x".to_string())
    );
}

#[test]
fn what_is_printed_instead_of_painted() {
    let line = |event| match debug_step(Some(SubscribeEvent { event: Some(event) })) {
        DebugStep::Line(line) => String::from_utf8(line).unwrap(),
        _ => panic!("expected a line"),
    };
    assert_eq!(line(Event::Ready("me".to_string())), "[Ready subscriber_id=me]\n");
    assert_eq!(line(Event::Data(b"abc".to_vec())), "[Data len=3]\n");
    let refresh = RefreshData { data: b"S".to_vec(), size: None, degraded: true };
    assert_eq!(line(Event::Refresh(refresh)), "[Refresh len=1 degraded=true]\n");
    let told = |meta| match debug_step(Some(SubscribeEvent { event: Some(Event::Metadata(meta)) })) {
        DebugStep::Told { exited, .. } => exited,
        _ => panic!("expected a notice"),
    };
    assert!(told(Some(MetaEvent::Exited(3))));
    assert!(!told(Some(MetaEvent::DataLost)) && !told(None));
    assert!(matches!(debug_step(Some(SubscribeEvent { event: None })), DebugStep::Ignore));
    assert!(matches!(debug_step(None), DebugStep::Closed));
    assert!(repaint_is_due(b"") && !repaint_is_due(b"x"));
}
