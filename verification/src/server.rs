//! The server's side of a subscription.
use crate::commands::subscriber_items;
#[allow(unused_imports)]
use crate::commands::{is_no_such_pty, wire_subscribers};
use crate::proto::{
    self, status, Code, Event, Frame, MetaEvent, Size, Status, SubscribeEvent, SubscribeFrame,
    SubscribeStart,
};
#[allow(unused_imports)]
use crate::pty::{same_but_subscribers, without_subscriber};
use crate::pty::{MetadataReason, PtyEvent, PtyHandle, PtyMetadata, PtyRegistry, RefreshData};
use crate::random::new_id;
#[allow(unused_imports)]
use crate::random::is_random_id;
use crate::shared_bytes::bytes_to_vec;
#[allow(unused_imports)]
use crate::shared_bytes::held_bytes;
use crate::text::hex16_string;
#[allow(unused_imports)]
use crate::text::{ascii_chars, bytes_of, hex16};
use std::sync::Arc;
use vstd::prelude::*;

verus! {

broadcast use vstd::string::group_string_axioms;

/// The token that stands for a drawn number: its sixteen hexadecimal digits, like those of a PTY's
/// id.
pub fn token_text(drawn: u64) -> (token: String)
    ensures
        token@ == ascii_chars(hex16(drawn)),
{
    hex16_string(drawn)
}

/// A fresh token by which the clients of one daemon prove that they may connect.
pub fn generate_token() -> (token: String)
    ensures
        exists|drawn: u64| is_random_id(drawn) && token@ == ascii_chars(#[trigger] hex16(drawn)),
{
    let drawn = new_id();
    token_text(drawn)
}

/// True when two slices hold the same bytes.
fn same_bytes(a: &[u8], b: &[u8]) -> (same: bool)
    ensures
        same == (a@ == b@),
{
    if a.len() != b.len() {
        return false;
    }
    let mut i: usize = 0;
    while i < a.len()
        invariant
            i <= a.len(),
            a.len() == b.len(),
            forall|j: int| 0 <= j < i ==> a@[j] == b@[j],
        decreases a.len() - i,
    {
        if a[i] != b[i] {
            return false;
        }
        i = i + 1;
    }
    assert(a@ =~= b@);
    true
}

/// Lets a request pass that carries the token.
pub fn check_token(token: &str, presented: Option<&[u8]>) -> (answer: Result<(), Status>)
    ensures
        match presented {
            Some(v) => (answer is Ok) == (v@ == bytes_of(token)),
            None => answer is Err,
        },
        answer matches Err(s) ==> s.code == Code::Unauthenticated && s.message@
            == "invalid or missing x-auth-token"@,
{
    if let Some(v) = presented {
        if same_bytes(v, token.as_bytes()) {
            return Ok(());
        }
    }
    Err(status(Code::Unauthenticated, "invalid or missing x-auth-token"))
}

/// True when `sent` is what is sent of a screen.
pub open spec fn is_wire_refresh(sent: proto::RefreshData, data: RefreshData) -> bool {
    &&& sent.data@ == held_bytes(data.data)
    &&& sent.size == Some(Size { cols: data.cols, rows: data.rows })
    &&& sent.degraded == data.degraded
}

/// True when `sent` is what is sent of what a PTY tells.
pub open spec fn is_wire_meta(sent: MetaEvent, meta: PtyMetadata) -> bool {
    match meta.reason {
        MetadataReason::Resize => sent == MetaEvent::Resized(
            Some(Size { cols: meta.info.cols, rows: meta.info.rows }),
        ),
        MetadataReason::TitleChanged => sent == MetaEvent::TitleChanged(meta.info.title),
        MetadataReason::Closed => sent == MetaEvent::Exited(
            match meta.exit_code {
                Some(code) => code,
                None => 0,
            },
        ),
        MetadataReason::SubscribersChanged => sent is SubscribersChanged && sent->SubscribersChanged_0@
            == wire_subscribers(meta.info),
        MetadataReason::DataLost => sent == MetaEvent::DataLost,
    }
}

/// True when `sent` is what is sent of an event. Generations stay behind: the order is enough.
pub open spec fn is_wire_event(sent: SubscribeEvent, event: PtyEvent) -> bool {
    match event {
        PtyEvent::Data(chunk) => sent.event matches Some(Event::Data(data)) && data@ == held_bytes(
            chunk.data,
        ),
        PtyEvent::Refresh(data) => sent.event matches Some(Event::Refresh(refresh)) && is_wire_refresh(
            refresh,
            *data,
        ),
        PtyEvent::RefreshFor { data, .. } => sent.event matches Some(Event::Refresh(refresh))
            && is_wire_refresh(refresh, *data),
        PtyEvent::Metadata(meta) => sent.event matches Some(Event::Metadata(Some(told))) && is_wire_meta(
            told,
            *meta,
        ),
    }
}

/// Turns a screen into what is sent.
pub fn refresh_to_proto(data: &RefreshData) -> (sent: proto::RefreshData)
    ensures
        is_wire_refresh(sent, *data),
{
    proto::RefreshData {
        data: bytes_to_vec(&data.data),
        size: Some(Size { cols: data.cols, rows: data.rows }),
        degraded: data.degraded,
    }
}

/// Turns what a PTY tells into what is sent.
fn meta_to_proto(meta: &PtyMetadata) -> (sent: MetaEvent)
    ensures
        is_wire_meta(sent, *meta),
{
    match meta.reason {
        MetadataReason::Resize => MetaEvent::Resized(
            Some(Size { cols: meta.info.cols, rows: meta.info.rows }),
        ),
        MetadataReason::TitleChanged => MetaEvent::TitleChanged(meta.info.title.clone()),
        MetadataReason::Closed => MetaEvent::Exited(
            match meta.exit_code {
                Some(code) => code,
                None => 0,
            },
        ),
        MetadataReason::SubscribersChanged => {
            let subscribers = subscriber_items(&meta.info.subscribers);
            assert(subscribers@ =~= wire_subscribers(meta.info));
            MetaEvent::SubscribersChanged(subscribers)
        },
        MetadataReason::DataLost => MetaEvent::DataLost,
    }
}

/// Turns an event into what is sent.
pub fn event_to_subscribe(event: PtyEvent) -> (sent: SubscribeEvent)
    ensures
        is_wire_event(sent, event),
{
    match event {
        PtyEvent::Data(chunk) => SubscribeEvent { event: Some(Event::Data(bytes_to_vec(&chunk.data))) },
        PtyEvent::Refresh(data) => SubscribeEvent { event: Some(Event::Refresh(refresh_to_proto(&data))) },
        PtyEvent::RefreshFor { data, .. } => SubscribeEvent {
            event: Some(Event::Refresh(refresh_to_proto(&data))),
        },
        PtyEvent::Metadata(meta) => SubscribeEvent {
            event: Some(Event::Metadata(Some(meta_to_proto(&meta)))),
        },
    }
}

/// The first word to a subscriber: their id.
pub fn ready_event(subscriber_id: &String) -> (sent: SubscribeEvent)
    ensures
        sent == (SubscribeEvent { event: Some(Event::Ready(*subscriber_id)) }),
{
    SubscribeEvent { event: Some(Event::Ready(subscriber_id.clone())) }
}

/// The first word of a subscriber, which has to be which PTY they want.
pub fn first_frame(frame: Option<SubscribeFrame>) -> (start: Result<SubscribeStart, Status>)
    ensures
        match frame {
            Some(SubscribeFrame { frame: Some(Frame::Start(named)) }) => start == Ok::<SubscribeStart, Status>(
                named,
            ),
            _ => start matches Err(s) && s.code == Code::InvalidArgument && s.message@
                == "expected SubscribeStart as first frame"@,
        },
{
    if let Some(f) = frame {
        if let Some(Frame::Start(start)) = f.frame {
            return Ok(start);
        }
    }
    Err(status(Code::InvalidArgument, "expected SubscribeStart as first frame"))
}

/// Finds the PTY that a subscriber names with their first word. Where they name none, or one that
/// there is not, they are refused, and nothing changes.
pub fn open_subscription<'a, H>(registry: &'a PtyRegistry<H>, frame: Option<SubscribeFrame>) -> (opened: Result<
    (SubscribeStart, &'a H),
    Status,
>)
    requires
        registry.wf(),
    ensures
        match frame {
            Some(SubscribeFrame { frame: Some(Frame::Start(named)) }) => if registry@.contains_key(named.pty_id) {
                opened == Ok::<(SubscribeStart, &'a H), Status>((named, &registry@[named.pty_id].1))
            } else {
                opened matches Err(s) && is_no_such_pty(s)
            },
            _ => opened matches Err(s) && s.code == Code::InvalidArgument && s.message@
                == "expected SubscribeStart as first frame"@,
        },
{
    match first_frame(frame) {
        Ok(start) => match registry.get(start.pty_id) {
            Some(handle) => Ok((start, handle)),
            None => Err(status(Code::NotFound, "PTY not found")),
        },
        Err(refused) => Err(refused),
    }
}

/// What comes to the task that serves a subscriber.
pub enum Incoming {
    /// From the PTY, with its output.
    Data(PtyEvent),
    /// Output was lost because the subscriber was too slow.
    DataLagged,
    DataClosed,
    /// From the PTY, beside its output.
    Meta(Arc<PtyMetadata>),
    MetaLagged,
    MetaClosed,
    /// From the subscriber.
    Frame(SubscribeFrame),
    FramesEnded,
    FramesFailed,
}

/// What the task does about it.
pub enum ForwardStep {
    /// Send this to the subscriber; come to an end if they are gone.
    Send(SubscribeEvent),
    /// Write this to the PTY.
    Write(Vec<u8>),
    /// Nothing.
    Skip,
    /// Expect no more of what comes beside the output.
    ParkMeta,
    /// Come to an end.
    End,
}

/// The word that output was lost.
pub open spec fn data_lost() -> SubscribeEvent {
    SubscribeEvent { event: Some(Event::Metadata(Some(MetaEvent::DataLost))) }
}

/// Decides what to do about what came. A snapshot for another subscriber is not passed on; all
/// others are, in the order in which they come.
pub fn forward(subscriber_id: &String, incoming: Incoming) -> (step: ForwardStep)
    ensures
        match incoming {
            Incoming::Data(PtyEvent::RefreshFor { subscriber_id: wanted, data }) => if wanted@
                == subscriber_id@ {
                step matches ForwardStep::Send(sent) && is_wire_event(
                    sent,
                    PtyEvent::RefreshFor { subscriber_id: wanted, data },
                )
            } else {
                step is Skip
            },
            Incoming::Data(event) => step matches ForwardStep::Send(sent) && is_wire_event(sent, event),
            Incoming::DataLagged => step == ForwardStep::Send(data_lost()),
            Incoming::DataClosed => step is End,
            Incoming::Meta(meta) => step matches ForwardStep::Send(sent) && is_wire_event(
                sent,
                PtyEvent::Metadata(meta),
            ),
            Incoming::MetaLagged => step == ForwardStep::Send(data_lost()),
            Incoming::MetaClosed => step is ParkMeta,
            Incoming::Frame(SubscribeFrame { frame: Some(Frame::Write(data)) }) => step == ForwardStep::Write(
                data,
            ),
            Incoming::Frame(_) => step is Skip,
            Incoming::FramesEnded => step is End,
            Incoming::FramesFailed => step is End,
        },
{
    match incoming {
        Incoming::Data(event) => {
            if let PtyEvent::RefreshFor { subscriber_id: wanted, .. } = &event {
                if *wanted != *subscriber_id {
                    return ForwardStep::Skip;
                }
            }
            ForwardStep::Send(event_to_subscribe(event))
        },
        Incoming::DataLagged => ForwardStep::Send(
            SubscribeEvent { event: Some(Event::Metadata(Some(MetaEvent::DataLost))) },
        ),
        Incoming::DataClosed => ForwardStep::End,
        Incoming::Meta(meta) => ForwardStep::Send(event_to_subscribe(PtyEvent::Metadata(meta))),
        Incoming::MetaLagged => ForwardStep::Send(
            SubscribeEvent { event: Some(Event::Metadata(Some(MetaEvent::DataLost))) },
        ),
        Incoming::MetaClosed => ForwardStep::ParkMeta,
        Incoming::Frame(f) => match f.frame {
            Some(Frame::Write(data)) => ForwardStep::Write(data),
            _ => ForwardStep::Skip,
        },
        Incoming::FramesEnded => ForwardStep::End,
        Incoming::FramesFailed => ForwardStep::End,
    }
}

/// Takes a subscriber off a PTY whose subscription has ended, and gives what to tell the others.
pub fn reap(handle: &mut PtyHandle, subscriber_id: &str) -> (meta: PtyMetadata)
    requires
        old(handle).shared.wf(),
    ensures
        final(handle).shared.wf(),
        final(handle).shared.subscribers@ == without_subscriber(
            old(handle).shared.subscribers@,
            subscriber_id@,
        ),
        same_but_subscribers(old(handle).shared, final(handle).shared),
        meta.reason == MetadataReason::SubscribersChanged,
        meta.exit_code is None,
        meta.generation == old(handle).shared.generation,
        final(handle).shared.told_by(meta.info),
{
    handle.remove_subscriber(subscriber_id);
    handle.subscribers_changed()
}

/// Law: a request passes with the very token and with nothing else.
pub proof fn law_token(token: &str, presented: Option<&[u8]>, answer: Result<(), Status>)
    requires
        call_ensures(check_token, (token, presented), answer),
    ensures
        answer is Ok <==> (presented matches Some(v) && v@ == bytes_of(token)),
        answer matches Err(s) ==> s.code == Code::Unauthenticated,
{
}

/// Law: a snapshot for one subscriber goes to them and to nobody else; all other output goes to everybody.
pub proof fn law_snapshots_reach_their_subscriber(
    one: &String,
    other: &String,
    wanted: String,
    data: Arc<RefreshData>,
    to_one: ForwardStep,
    to_other: ForwardStep,
)
    requires
        one@ != other@,
        wanted@ == one@,
        call_ensures(forward, (one, Incoming::Data(PtyEvent::RefreshFor { subscriber_id: wanted, data })), to_one),
        call_ensures(forward, (other, Incoming::Data(PtyEvent::RefreshFor { subscriber_id: wanted, data })), to_other),
    ensures
        to_other is Skip,
        to_one matches ForwardStep::Send(sent) && (sent.event matches Some(Event::Refresh(r)) && r.data@ == held_bytes(
            data.data,
        ) && r.size == Some(Size { cols: data.cols, rows: data.rows }) && r.degraded == data.degraded),
{
}

/// Law: output reaches a subscriber byte for byte, what they type reaches the PTY byte for byte, and output
/// that they were too slow for is told to be lost.
pub proof fn law_bytes_pass(
    id: &String,
    chunk: crate::pty::PtyChunk,
    sent: ForwardStep,
    typed: Vec<u8>,
    written: ForwardStep,
    lagged: ForwardStep,
    meta_lagged: ForwardStep,
)
    requires
        call_ensures(forward, (id, Incoming::Data(PtyEvent::Data(chunk))), sent),
        call_ensures(
            forward,
            (id, Incoming::Frame(SubscribeFrame { frame: Some(Frame::Write(typed)) })),
            written,
        ),
        call_ensures(forward, (id, Incoming::DataLagged), lagged),
        call_ensures(forward, (id, Incoming::MetaLagged), meta_lagged),
    ensures
        sent matches ForwardStep::Send(e) && (e.event matches Some(Event::Data(data)) && data@ == held_bytes(chunk.data)),
        written matches ForwardStep::Write(data) && data@ == typed@,
        lagged matches ForwardStep::Send(e) && e.event == Some(Event::Metadata(Some(MetaEvent::DataLost))),
        meta_lagged matches ForwardStep::Send(e) && e.event == Some(Event::Metadata(Some(MetaEvent::DataLost))),
{
}

/// Law: what a PTY tells reaches a subscriber as such: its size, its title, the code with which it ended, and
/// who is subscribed.
pub proof fn law_news_pass(id: &String, meta: Arc<PtyMetadata>, step: ForwardStep, code: i32, i: int)
    requires
        call_ensures(forward, (id, Incoming::Meta(meta)), step),
    ensures
        step is Send,
        ({
            let event = step->Send_0.event;
            &&& meta.reason == MetadataReason::Resize ==> event == Some(
                Event::Metadata(Some(MetaEvent::Resized(Some(Size { cols: meta.info.cols, rows: meta.info.rows })))),
            )
            &&& meta.reason == MetadataReason::TitleChanged ==> event == Some(
                Event::Metadata(Some(MetaEvent::TitleChanged(meta.info.title))),
            )
            &&& meta.reason == MetadataReason::Closed && meta.exit_code == Some(code) ==> event == Some(
                Event::Metadata(Some(MetaEvent::Exited(code))),
            )
            &&& meta.reason == MetadataReason::SubscribersChanged ==> (event matches Some(
                Event::Metadata(Some(MetaEvent::SubscribersChanged(list))),
            ) && (meta.info.subscribers matches Some(told) ==> list@.len() == told@.len() && (0 <= i < told@.len()
                ==> list@[i].subscriber_id@ == told@[i].0@ && list@[i].hostname@ == told@[i].1.hostname@)))
        }),
{
}

/// Law: somebody whose subscription ended is not listed any more, everybody else still is, and the others
/// are told who is left.
pub proof fn law_reaping(handle: &mut PtyHandle, subscriber_id: &str, meta: PtyMetadata, other: Seq<char>)
    requires
        old(handle).shared.wf(),
        call_ensures(reap, (handle, subscriber_id), meta),
    ensures
        crate::pty::subscriber(final(handle).shared.subscribers@, subscriber_id@) is None,
        other != subscriber_id@ ==> crate::pty::subscriber(final(handle).shared.subscribers@, other)
            == crate::pty::subscriber(old(handle).shared.subscribers@, other),
        meta.reason == MetadataReason::SubscribersChanged,
        meta.info.id == old(handle).shared.id,
        meta.info.subscribers matches Some(told) && told@.to_multiset() == final(handle).shared.subscribers@.to_multiset(),
        final(handle).shared.cols == old(handle).shared.cols && final(handle).shared.rows == old(handle).shared.rows,
        final(handle).shared.title == old(handle).shared.title,
{
    crate::pty::law_remove(old(handle).shared.subscribers@, subscriber_id@, other);
    crate::pty::law_info_lists_subscribers(final(handle).shared, meta.info);
}

/// Law: somebody who subscribes is first told their id; a screen is sent whole, with its size, and whether it is
/// degraded.
pub proof fn law_first_words(subscriber_id: &String, ready: SubscribeEvent, data: &RefreshData, sent: proto::RefreshData)
    requires
        call_ensures(ready_event, (subscriber_id,), ready),
        call_ensures(refresh_to_proto, (data,), sent),
    ensures
        ready.event matches Some(Event::Ready(id)) && id@ == subscriber_id@,
        sent.data@ == held_bytes(data.data),
        sent.size matches Some(s) && s.cols == data.cols && s.rows == data.rows,
        sent.degraded == data.degraded,
{
}

/// Law: somebody who names a PTY that there is gets that PTY; one that there is not, or none at all, is refused,
/// each by its own error.
pub proof fn law_opening_subscriptions<H>(
    registry: &PtyRegistry<H>,
    named: SubscribeStart,
    found: Option<&H>,
    opened: Result<(SubscribeStart, &H), Status>,
    frame: Option<SubscribeFrame>,
    refused: Result<(SubscribeStart, &H), Status>,
    start: Result<SubscribeStart, Status>,
)
    requires
        registry.wf(),
        call_ensures(PtyRegistry::<H>::get, (registry, named.pty_id), found),
        call_ensures(open_subscription, (registry, Some(SubscribeFrame { frame: Some(Frame::Start(named)) })), opened),
        !(frame matches Some(f) && f.frame matches Some(Frame::Start(_))),
        call_ensures(open_subscription, (registry, frame), refused),
        call_ensures(first_frame, (frame,), start),
    ensures
        found matches Some(h) ==> (opened matches Ok((n, g)) && n == named && *g == *h),
        found is None ==> (opened matches Err(s) && s.code == Code::NotFound),
        refused matches Err(s) && s.code == Code::InvalidArgument,
        start matches Err(s) && s.code == Code::InvalidArgument,
{
}

/// Law: a subscription ends with the PTY's output, and with what the subscriber sends, whether that ended or
/// failed; it goes on without news where only those ended. What a subscriber sends other than input is passed over.
pub proof fn law_ends_of_subscriptions(
    id: &String,
    output: ForwardStep,
    news: ForwardStep,
    frames: ForwardStep,
    failed: ForwardStep,
    frame: SubscribeFrame,
    other: ForwardStep,
)
    requires
        call_ensures(forward, (id, Incoming::DataClosed), output),
        call_ensures(forward, (id, Incoming::MetaClosed), news),
        call_ensures(forward, (id, Incoming::FramesEnded), frames),
        call_ensures(forward, (id, Incoming::FramesFailed), failed),
        !(frame.frame matches Some(Frame::Write(_))),
        call_ensures(forward, (id, Incoming::Frame(frame)), other),
    ensures
        output is End,
        frames is End,
        failed is End,
        news is ParkMeta,
        other is Skip,
{
}

} // verus!
