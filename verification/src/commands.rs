//! What the server does with the requests of its clients.
use crate::proto::{
    self, status, Code, DestroyRequest, ListResponse, PtyItem, ScrollbackOpKind, ScrollbackResponse,
    Size, Status, Timestamp,
};
#[allow(unused_imports)]
use crate::pty::{not_found_text, upserted, without_id};
use crate::pty::{PtyHandle, PtyInfo, PtyRegistry, PtyShared, ScrollbackData, ScrollbackOp, SubscriberInfo, UnixTime};
use crate::shared_bytes::bytes_to_vec;
#[allow(unused_imports)]
use crate::shared_bytes::held_bytes;
use vstd::prelude::*;

verus! {

/// A subscriber who told a size.
pub open spec fn usable(s: SubscriberInfo) -> bool {
    s.cols > 0 && s.rows > 0
}

/// True for the largest size that every subscriber who told one can show: as wide as the narrowest
/// of them and as high as the lowest. There is none where nobody told a size.
pub open spec fn is_best_fit(subscribers: Seq<(String, SubscriberInfo)>, fit: Option<(u32, u32)>) -> bool {
    match fit {
        Some((cols, rows)) => {
            &&& forall|i: int|
                0 <= i < subscribers.len() && usable((#[trigger] subscribers[i]).1) ==> cols
                    <= subscribers[i].1.cols && rows <= subscribers[i].1.rows
            &&& exists|i: int|
                0 <= i < subscribers.len() && usable((#[trigger] subscribers[i]).1) && subscribers[i].1.cols
                    == cols
            &&& exists|i: int|
                0 <= i < subscribers.len() && usable((#[trigger] subscribers[i]).1) && subscribers[i].1.rows
                    == rows
        },
        None => forall|i: int| 0 <= i < subscribers.len() ==> !usable((#[trigger] subscribers[i]).1),
    }
}

/// The size to change to, given the current one and the best fit: the best fit where it may be
/// smaller in some direction, or is not.
pub open spec fn refit(current: (u32, u32), best_fit: (u32, u32), allow_shrink: bool) -> Option<(u32, u32)> {
    if best_fit == current {
        None
    } else if allow_shrink || (best_fit.0 >= current.0 && best_fit.1 >= current.1) {
        Some(best_fit)
    } else {
        None
    }
}

/// The largest size that every subscriber can show. Those who told none do not count.
pub fn best_fit_size(subscribers: &[(String, SubscriberInfo)]) -> (fit: Option<(u32, u32)>)
    ensures
        is_best_fit(subscribers@, fit),
{
    let mut fit: Option<(u32, u32)> = None;
    let mut i: usize = 0;
    while i < subscribers.len()
        invariant
            i <= subscribers.len(),
            is_best_fit(subscribers@.take(i as int), fit),
        decreases subscribers.len() - i,
    {
        let s = &subscribers[i].1;
        let ghost before = subscribers@.take(i as int);
        let ghost now = subscribers@.take(i + 1);
        let ghost was = fit;
        assert(now[i as int] == subscribers@[i as int]);
        assert(forall|k: int| 0 <= k < i ==> now[k] == before[k]);
        if s.cols > 0 && s.rows > 0 {
            fit = match fit {
                Some((cols, rows)) => Some(
                    (
                        if cols <= s.cols { cols } else { s.cols },
                        if rows <= s.rows { rows } else { s.rows },
                    ),
                ),
                None => Some((s.cols, s.rows)),
            };
        }
        proof {
            if usable(now[i as int].1) {
                if let Some((cols, rows)) = was {
                    let a = choose|k: int|
                        0 <= k < before.len() && usable((#[trigger] before[k]).1) && before[k].1.cols == cols;
                    let b = choose|k: int|
                        0 <= k < before.len() && usable((#[trigger] before[k]).1) && before[k].1.rows == rows;
                    assert(now[a] == before[a]);
                    assert(now[b] == before[b]);
                }
            } else if let Some((cols, rows)) = was {
                let a = choose|k: int|
                    0 <= k < before.len() && usable((#[trigger] before[k]).1) && before[k].1.cols == cols;
                let b = choose|k: int|
                    0 <= k < before.len() && usable((#[trigger] before[k]).1) && before[k].1.rows == rows;
                assert(now[a] == before[a]);
                assert(now[b] == before[b]);
            }
        }
        i = i + 1;
    }
    assert(subscribers@.take(i as int) =~= subscribers@);
    fit
}

/// The size to change a PTY to, if any. With several subscribers it only ever grows: a smaller
/// client shows a part of it. A single subscriber is followed exactly.
pub fn refit_target(current: (u32, u32), best_fit: (u32, u32), allow_shrink: bool) -> (target: Option<(u32, u32)>)
    ensures
        target == refit(current, best_fit, allow_shrink),
{
    if best_fit.0 == current.0 && best_fit.1 == current.1 {
        None
    } else if allow_shrink || (best_fit.0 >= current.0 && best_fit.1 >= current.1) {
        Some(best_fit)
    } else {
        None
    }
}

/// A time as it is sent: none before the epoch.
pub open spec fn wire_time(t: UnixTime) -> Timestamp {
    if t.secs < 0 {
        Timestamp { seconds: 0, nanos: 0 }
    } else {
        Timestamp { seconds: t.secs, nanos: t.nanos as i32 }
    }
}

/// Turns a time into what is sent.
fn timestamp(t: UnixTime) -> (stamp: Timestamp)
    ensures
        stamp == wire_time(t),
{
    if t.secs < 0 {
        Timestamp { seconds: 0, nanos: 0 }
    } else {
        Timestamp { seconds: t.secs, nanos: t.nanos as i32 }
    }
}

/// A subscriber as they are sent.
pub open spec fn wire_subscriber(e: (String, SubscriberInfo)) -> proto::SubscriberInfo {
    proto::SubscriberInfo {
        subscriber_id: e.0,
        hostname: e.1.hostname,
        size: Some(Size { cols: e.1.cols, rows: e.1.rows }),
        created_at: Some(wire_time(e.1.created_at)),
    }
}

/// The subscribers as they are sent; none where none are told.
pub open spec fn wire_subscribers(info: PtyInfo) -> Seq<proto::SubscriberInfo> {
    match info.subscribers {
        Some(list) => Seq::new(list@.len(), |i: int| wire_subscriber(list@[i])),
        None => Seq::empty(),
    }
}

/// True when `item` is what is sent of a PTY.
pub open spec fn is_item_of(item: PtyItem, info: PtyInfo) -> bool {
    &&& item.pty_id == info.id
    &&& item.hostname == info.hostname
    &&& item.pts_name == info.pts_name
    &&& item.size == Some(Size { cols: info.cols, rows: info.rows })
    &&& item.title == info.title
    &&& item.created_at == Some(wire_time(info.created_at))
    &&& item.last_subscribed_at == (match info.last_subscribed_at {
        Some(t) => Some(wire_time(t)),
        None => None,
    })
    &&& item.subscribers@ == wire_subscribers(info)
    &&& item.sort_order == info.sort_order
}

/// Turns the list of subscribers into what is sent.
pub(crate) fn subscriber_items(list: &Option<Vec<(String, SubscriberInfo)>>) -> (items: Vec<proto::SubscriberInfo>)
    ensures
        match *list {
            Some(l) => items@ == Seq::new(l@.len(), |i: int| wire_subscriber(l@[i])),
            None => items@.len() == 0,
        },
{
    let mut items: Vec<proto::SubscriberInfo> = Vec::new();
    if let Some(l) = list {
        let mut i: usize = 0;
        while i < l.len()
            invariant
                i <= l.len(),
                items@ == Seq::new(i as nat, |k: int| wire_subscriber(l@[k])),
            decreases l.len() - i,
        {
            let entry = &l[i];
            items.push(
                proto::SubscriberInfo {
                    subscriber_id: entry.0.clone(),
                    hostname: entry.1.hostname.clone(),
                    size: Some(Size { cols: entry.1.cols, rows: entry.1.rows }),
                    created_at: Some(timestamp(entry.1.created_at)),
                },
            );
            i = i + 1;
            assert(items@ =~= Seq::new(i as nat, |k: int| wire_subscriber(l@[k])));
        }
    }
    items
}

/// Turns what is known of a PTY into what is sent.
pub fn pty_info_to_item(info: PtyInfo) -> (item: PtyItem)
    ensures
        is_item_of(item, info),
{
    let subscribers = subscriber_items(&info.subscribers);
    assert(subscribers@ =~= wire_subscribers(info));
    PtyItem {
        pty_id: info.id,
        hostname: info.hostname,
        pts_name: info.pts_name,
        size: Some(Size { cols: info.cols, rows: info.rows }),
        title: info.title,
        created_at: Some(timestamp(info.created_at)),
        last_subscribed_at: match info.last_subscribed_at {
            Some(t) => Some(timestamp(t)),
            None => None,
        },
        subscribers,
        sort_order: info.sort_order,
    }
}

/// The size that a request names; nothing by nothing where it names none.
pub fn requested_size(size: Option<Size>) -> (named: (u32, u32))
    ensures
        named == (match size {
            Some(s) => (s.cols, s.rows),
            None => (0, 0),
        }),
{
    match size {
        Some(s) => (s.cols, s.rows),
        None => (0, 0),
    }
}

/// Answers with all PTYs, of which `infos` tells.
pub fn handle_list(infos: Vec<PtyInfo>) -> (response: ListResponse)
    ensures
        response.items.len() == infos.len(),
        forall|i: int|
            0 <= i < infos.len() ==> #[trigger] is_item_of(response.items@[i], infos@[i]),
{
    let ghost all = infos@;
    let mut rest = infos;
    let mut items: Vec<PtyItem> = Vec::new();
    assert(all.skip(0) =~= all);
    while rest.len() > 0
        invariant
            items.len() + rest.len() == all.len(),
            rest@ == all.skip(items.len() as int),
            forall|i: int| 0 <= i < items.len() ==> #[trigger] is_item_of(items@[i], all[i]),
        decreases rest.len(),
    {
        let ghost n = items.len();
        let ghost first = rest@[0];
        assert(first == all[n as int]);
        let info = rest.remove(0);
        let ghost before = items@;
        items.push(pty_info_to_item(info));
        assert(rest@ =~= all.skip(items.len() as int));
        assert forall|i: int| 0 <= i < items.len() implies #[trigger] is_item_of(items@[i], all[i]) by {
            if i < n {
                assert(items@[i] == before[i]);
                assert(is_item_of(before[i], all[i]));
            }
        }
    }
    ListResponse { items }
}

/// The failure that stands for an error of the server.
fn internal(message: String) -> (s: Status)
    ensures
        s.code == Code::Internal,
        s.message == message,
{
    Status { code: Code::Internal, message }
}

/// True for the answer to a request for a PTY that there is not.
pub open spec fn is_no_such_pty(s: Status) -> bool {
    s.code == Code::NotFound && s.message@ == "PTY not found"@
}

/// True for the answer to a request that failed for `reason`.
pub open spec fn is_internal(s: Status, reason: String) -> bool {
    s.code == Code::Internal && s.message == reason
}

/// Answers a request for a new PTY, given what became of it.
pub fn handle_create(created: Result<PtyInfo, String>) -> (answer: Result<PtyItem, Status>)
    ensures
        match created {
            Ok(info) => answer matches Ok(item) && is_item_of(item, info),
            Err(reason) => answer matches Err(s) && is_internal(s, reason),
        },
{
    match created {
        Ok(info) => Ok(pty_info_to_item(info)),
        Err(reason) => Err(internal(reason)),
    }
}

/// Takes a PTY out of the registry, for the caller to end it.
pub fn handle_destroy<H>(registry: &mut PtyRegistry<H>, req: DestroyRequest) -> (answer: Result<H, Status>)
    requires
        old(registry).wf(),
    ensures
        final(registry).wf(),
        final(registry).entries@ == without_id(old(registry).entries@, req.pty_id),
        match answer {
            Ok(h) => old(registry)@.contains_key(req.pty_id) && h == old(registry)@[req.pty_id].1 && final(registry)@
                == old(registry)@.remove(req.pty_id),
            Err(s) => !old(registry)@.contains_key(req.pty_id) && s.code == Code::NotFound && s.message@
                == not_found_text(req.pty_id) && final(registry)@ == old(registry)@,
        },
{
    match registry.destroy(req.pty_id) {
        Ok(handle) => Ok(handle),
        Err(message) => Err(Status { code: Code::NotFound, message }),
    }
}

/// Answers a request for another size, given what became of it: `None` where there is no such PTY,
/// and otherwise what is known of it after it took the size.
pub fn handle_resize(outcome: Option<Result<PtyInfo, String>>) -> (answer: Result<PtyItem, Status>)
    ensures
        match outcome {
            None => answer matches Err(s) && is_no_such_pty(s),
            Some(Ok(info)) => answer matches Ok(item) && is_item_of(item, info),
            Some(Err(reason)) => answer matches Err(s) && is_internal(s, reason),
        },
{
    match outcome {
        None => Err(status(Code::NotFound, "PTY not found")),
        Some(Ok(info)) => Ok(pty_info_to_item(info)),
        Some(Err(reason)) => Err(internal(reason)),
    }
}

/// True when an item is what the server tells of a PTY.
pub open spec fn tells_pty(item: PtyItem, shared: PtyShared) -> bool {
    exists|info: PtyInfo| #[trigger] shared.told_by(info) && is_item_of(item, info)
}

/// Gives a PTY another title, and answers with what it is then; `None` where there is no such PTY.
pub fn handle_set_title(handle: Option<&mut PtyHandle>, title: &str) -> (answer: Result<PtyItem, Status>)
    ensures
        match handle {
            None => answer matches Err(s) && is_no_such_pty(s),
            Some(h) => {
                &&& final(h).shared.title@ == title@
                &&& *final(h) == (PtyHandle { shared: PtyShared { title: final(h).shared.title, ..h.shared } })
                &&& answer matches Ok(item) && item.title@ == title@ && tells_pty(item, final(h).shared)
            },
        },
{
    match handle {
        None => Err(status(Code::NotFound, "PTY not found")),
        Some(h) => {
            h.set_title(title);
            Ok(pty_info_to_item(h.info()))
        },
    }
}

/// Answers a request for a snapshot, given what became of it: `None` where there is no such PTY.
pub fn handle_refresh(outcome: Option<Result<(), String>>) -> (answer: Result<(), Status>)
    ensures
        match outcome {
            None => answer matches Err(s) && is_no_such_pty(s),
            Some(Ok(_)) => answer is Ok,
            Some(Err(reason)) => answer matches Err(s) && is_internal(s, reason),
        },
{
    match outcome {
        None => Err(status(Code::NotFound, "PTY not found")),
        Some(Ok(_)) => Ok(()),
        Some(Err(reason)) => Err(internal(reason)),
    }
}

/// What a client's wish for the history means to the reader.
pub fn scrollback_op(kind: ScrollbackOpKind) -> (op: ScrollbackOp)
    ensures
        op == (match kind {
            ScrollbackOpKind::ScrollbackOpen => ScrollbackOp::Open,
            ScrollbackOpKind::ScrollbackMove => ScrollbackOp::Move,
            ScrollbackOpKind::ScrollbackClose => ScrollbackOp::Close,
        }),
{
    match kind {
        ScrollbackOpKind::ScrollbackOpen => ScrollbackOp::Open,
        ScrollbackOpKind::ScrollbackMove => ScrollbackOp::Move,
        ScrollbackOpKind::ScrollbackClose => ScrollbackOp::Close,
    }
}

/// Answers a request for the history, given what became of it: `None` where there is no such PTY.
pub fn handle_scrollback(outcome: Option<Result<ScrollbackData, String>>) -> (answer: Result<ScrollbackResponse, Status>)
    ensures
        match outcome {
            None => answer matches Err(s) && is_no_such_pty(s),
            Some(Ok(data)) => {
                &&& answer is Ok
                &&& answer->Ok_0.data@ == held_bytes(data.data)
                &&& answer->Ok_0.total_scrollback_rows == data.total_scrollback_rows
                &&& answer->Ok_0.row_offset == data.row_offset
            },
            Some(Err(reason)) => answer matches Err(s) && is_internal(s, reason),
        },
{
    match outcome {
        None => Err(status(Code::NotFound, "PTY not found")),
        Some(Ok(data)) => Ok(
            ScrollbackResponse {
                data: bytes_to_vec(&data.data),
                total_scrollback_rows: data.total_scrollback_rows,
                row_offset: data.row_offset,
            },
        ),
        Some(Err(reason)) => Err(internal(reason)),
    }
}

/// The size that a PTY is to be changed to for its subscribers.
pub open spec fn is_subscribe_target(
    current: (u32, u32),
    subscribers: Seq<(String, SubscriberInfo)>,
    target: Option<(u32, u32)>,
) -> bool {
    exists|fit: Option<(u32, u32)>|
        #![trigger is_best_fit(subscribers, fit)]
        is_best_fit(subscribers, fit) && target == (match fit {
            Some(best) => refit(current, best, subscribers.len() == 1),
            None => None,
        })
}

/// Takes a subscriber in: lists them, notes the time, and gives the size that the PTY is to be
/// changed to, if any. Afterwards all subscribers are to be told.
pub fn apply_subscribe(handle: &mut PtyHandle, subscriber_id: &str, info: SubscriberInfo, now: UnixTime) -> (target: Option<(u32, u32)>)
    requires
        old(handle).shared.wf(),
    ensures
        final(handle).shared.wf(),
        upserted(
            old(handle).shared.subscribers@,
            subscriber_id@,
            info,
            final(handle).shared.subscribers@,
        ),
        final(handle).shared.last_subscribed_at == Some(now),
        crate::pty::same_but_subscribers(
            crate::pty::PtyShared { last_subscribed_at: Some(now), ..old(handle).shared },
            final(handle).shared,
        ),
        is_subscribe_target(
            (old(handle).shared.cols, old(handle).shared.rows),
            final(handle).shared.subscribers@,
            target,
        ),
{
    handle.upsert_subscriber(subscriber_id, info);
    handle.touch_last_subscribed(now);
    let fit = best_fit_size(handle.shared.subscribers.as_slice());
    let current = (handle.shared.cols, handle.shared.rows);
    assert(is_best_fit(handle.shared.subscribers@, fit));
    match fit {
        Some(best) => refit_target(current, best, handle.shared.subscribers.len() == 1),
        None => None,
    }
}

/// Law: there is only one best fit.
pub proof fn law_best_fit_is_unique(
    subscribers: Seq<(String, SubscriberInfo)>,
    a: Option<(u32, u32)>,
    b: Option<(u32, u32)>,
)
    requires
        is_best_fit(subscribers, a),
        is_best_fit(subscribers, b),
    ensures
        a == b,
{
    match (a, b) {
        (Some((ac, ar)), Some((bc, br))) => {
            let i = choose|i: int|
                0 <= i < subscribers.len() && usable((#[trigger] subscribers[i]).1) && subscribers[i].1.cols
                    == ac;
            let j = choose|j: int|
                0 <= j < subscribers.len() && usable((#[trigger] subscribers[j]).1) && subscribers[j].1.cols
                    == bc;
            let k = choose|k: int|
                0 <= k < subscribers.len() && usable((#[trigger] subscribers[k]).1) && subscribers[k].1.rows
                    == ar;
            let l = choose|l: int|
                0 <= l < subscribers.len() && usable((#[trigger] subscribers[l]).1) && subscribers[l].1.rows
                    == br;
            assert(bc <= subscribers[i].1.cols);
            assert(ac <= subscribers[j].1.cols);
            assert(br <= subscribers[k].1.rows);
            assert(ar <= subscribers[l].1.rows);
        },
        (Some((ac, ar)), None) => {
            let i = choose|i: int|
                0 <= i < subscribers.len() && usable((#[trigger] subscribers[i]).1) && subscribers[i].1.cols
                    == ac;
            assert(!usable(subscribers[i].1));
        },
        (None, Some((bc, br))) => {
            let i = choose|i: int|
                0 <= i < subscribers.len() && usable((#[trigger] subscribers[i]).1) && subscribers[i].1.cols
                    == bc;
            assert(!usable(subscribers[i].1));
        },
        (None, None) => {},
    }
}

/// Law: after a refit no subscriber who told a size has less of a screen than the PTY, and with more
/// than one subscriber the PTY never becomes smaller in any direction.
pub proof fn law_refit_clips_nobody(
    current: (u32, u32),
    subscribers: Seq<(String, SubscriberInfo)>,
    target: (u32, u32),
)
    requires
        is_subscribe_target(current, subscribers, Some(target)),
    ensures
        forall|i: int|
            0 <= i < subscribers.len() && usable((#[trigger] subscribers[i]).1) ==> target.0
                <= subscribers[i].1.cols && target.1 <= subscribers[i].1.rows,
        subscribers.len() > 1 ==> target.0 >= current.0 && target.1 >= current.1,
        target != current,
{
    let fit = choose|fit: Option<(u32, u32)>|
        #![trigger is_best_fit(subscribers, fit)]
        is_best_fit(subscribers, fit) && Some(target) == (match fit {
            Some(best) => refit(current, best, subscribers.len() == 1),
            None => None,
        });
    assert(fit == Some(target));
}

/// Law: a single subscriber who told a size is followed exactly: the PTY has their size or takes it.
pub proof fn law_single_subscriber_is_followed(
    current: (u32, u32),
    subscribers: Seq<(String, SubscriberInfo)>,
    target: Option<(u32, u32)>,
)
    requires
        subscribers.len() == 1,
        usable(subscribers[0].1),
        is_subscribe_target(current, subscribers, target),
    ensures
        (match target {
            Some(t) => t,
            None => current,
        }) == (subscribers[0].1.cols, subscribers[0].1.rows),
{
    let fit = choose|fit: Option<(u32, u32)>|
        #![trigger is_best_fit(subscribers, fit)]
        is_best_fit(subscribers, fit) && target == (match fit {
            Some(best) => refit(current, best, subscribers.len() == 1),
            None => None,
        });
    let own = Some((subscribers[0].1.cols, subscribers[0].1.rows));
    assert(is_best_fit(subscribers, own)) by {
        assert(usable(subscribers[0].1));
    }
    law_best_fit_is_unique(subscribers, fit, own);
}

/// Law: a PTY with several subscribers grows to the size that they all can show, as soon as that is nowhere
/// smaller; one with a single subscriber takes their size, larger or smaller.
pub proof fn law_refit(current: (u32, u32), best: (u32, u32), alone: bool, target: Option<(u32, u32)>)
    requires
        call_ensures(refit_target, (current, best, alone), target),
    ensures
        best == current ==> target is None,
        best != current && best.0 >= current.0 && best.1 >= current.1 ==> target == Some(best),
        best != current && alone ==> target == Some(best),
        !alone && (best.0 < current.0 || best.1 < current.1) ==> target is None,
{
}

/// Law: the size that all can show is as wide as the narrowest and as high as the lowest of those who told
/// a size; those who told none do not count, and where nobody told one there is none.
pub proof fn law_best_fit(subscribers: &[(String, SubscriberInfo)], fit: Option<(u32, u32)>, i: int)
    requires
        call_ensures(best_fit_size, (subscribers,), fit),
        0 <= i < subscribers@.len(),
    ensures
        subscribers@[i].1.cols > 0 && subscribers@[i].1.rows > 0 ==> (fit matches Some((cols, rows)) && cols
            <= subscribers@[i].1.cols && rows <= subscribers@[i].1.rows && cols > 0 && rows > 0),
        fit matches Some((cols, rows)) ==> (exists|k: int|
            0 <= k < subscribers@.len() && (#[trigger] subscribers@[k]).1.cols == cols && subscribers@[k].1.rows > 0),
        fit matches Some((cols, rows)) ==> (exists|k: int|
            0 <= k < subscribers@.len() && (#[trigger] subscribers@[k]).1.rows == rows && subscribers@[k].1.cols > 0),
{
    let s = subscribers@;
    if let Some((cols, rows)) = fit {
        let a = choose|k: int| 0 <= k < s.len() && usable((#[trigger] s[k]).1) && s[k].1.cols == cols;
        let b = choose|k: int| 0 <= k < s.len() && usable((#[trigger] s[k]).1) && s[k].1.rows == rows;
        assert(s[a].1.cols == cols && s[b].1.rows == rows);
    } else {
        assert(!usable(s[i].1));
    }
}

/// Law: times are sent as they are, from the epoch on; those before it as the epoch. Their order stays.
pub proof fn law_times_are_sent(a: UnixTime, b: UnixTime)
    requires
        a.nanos < 1_000_000_000,
        b.nanos < 1_000_000_000,
    ensures
        a.secs >= 0 ==> wire_time(a).seconds == a.secs && wire_time(a).nanos == a.nanos,
        a.secs < 0 ==> wire_time(a) == (Timestamp { seconds: 0, nanos: 0 }),
        a.secs < b.secs || (a.secs == b.secs && a.nanos <= b.nanos) ==> wire_time(a).seconds < wire_time(b).seconds || (
        wire_time(a).seconds == wire_time(b).seconds && wire_time(a).nanos <= wire_time(b).nanos),
{
}

/// Law: what is sent of a PTY is what is known of it, each thing in its place; its subscribers in the order
/// in which they are told, each with their own size and time.
pub proof fn law_items_tell_all(info: PtyInfo, item: PtyItem, i: int)
    requires
        call_ensures(pty_info_to_item, (info,), item),
        info.created_at.secs >= 0,
        info.created_at.nanos < 1_000_000_000,
    ensures
        item.pty_id == info.id,
        item.hostname@ == info.hostname@,
        item.pts_name@ == info.pts_name@,
        item.title@ == info.title@,
        item.sort_order == info.sort_order,
        item.size matches Some(s) && s.cols == info.cols && s.rows == info.rows,
        item.created_at matches Some(t) && t.seconds == info.created_at.secs && t.nanos == info.created_at.nanos,
        item.last_subscribed_at is Some == info.last_subscribed_at is Some,
        info.last_subscribed_at matches Some(t) ==> (t.secs >= 0 && t.nanos < 1_000_000_000 ==> (
        item.last_subscribed_at matches Some(s) && s.seconds == t.secs && s.nanos == t.nanos)),
        info.subscribers is None ==> item.subscribers@.len() == 0,
        info.subscribers matches Some(list) ==> item.subscribers@.len() == list@.len() && (0 <= i < list@.len() ==> {
            let s = item.subscribers@[i];
            &&& s.subscriber_id@ == list@[i].0@
            &&& s.hostname@ == list@[i].1.hostname@
            &&& s.size matches Some(z) && z.cols == list@[i].1.cols && z.rows == list@[i].1.rows
            &&& list@[i].1.created_at.secs >= 0 && list@[i].1.created_at.nanos < 1_000_000_000 ==> (
            s.created_at matches Some(t) && t.seconds == list@[i].1.created_at.secs && t.nanos == list@[i].1.created_at.nanos)
        }),
{
    law_times_are_sent(info.created_at, info.created_at);
}

/// Law: a list tells of every PTY, in the order in which they are told.
pub proof fn law_lists_tell_all(infos: Vec<PtyInfo>, response: ListResponse, i: int)
    requires
        call_ensures(handle_list, (infos,), response),
        0 <= i < infos@.len(),
    ensures
        response.items@.len() == infos@.len(),
        response.items@[i].pty_id == infos@[i].id,
        response.items@[i].title@ == infos@[i].title@,
        response.items@[i].sort_order == infos@[i].sort_order,
{
    assert(is_item_of(response.items@[i], infos@[i]));
}

/// Law: a request that cannot be served is answered by why: no such PTY, or the reason for which it failed.
/// One that was served is answered by what is known of the PTY then.
pub proof fn law_answers(
    outcome: Option<Result<PtyInfo, String>>,
    resized: Result<PtyItem, Status>,
    refreshed: Option<Result<(), String>>,
    answer: Result<(), Status>,
)
    requires
        call_ensures(handle_resize, (outcome,), resized),
        call_ensures(handle_refresh, (refreshed,), answer),
    ensures
        outcome is None ==> (resized matches Err(s) && s.code == Code::NotFound && s.message@ == "PTY not found"@),
        outcome matches Some(r) ==> (r matches Err(reason) ==> (resized matches Err(s) && s.code == Code::Internal
            && s.message == reason)),
        outcome matches Some(r) ==> (r matches Ok(info) ==> (resized matches Ok(item) && item.pty_id == info.id
            && item.size == Some(Size { cols: info.cols, rows: info.rows }))),
        refreshed is None ==> (answer matches Err(s) && s.code == Code::NotFound && s.message@ == "PTY not found"@),
        refreshed matches Some(r) ==> (answer is Ok) == (r is Ok),
        refreshed matches Some(r) ==> (r matches Err(reason) ==> (answer matches Err(s) && s.code == Code::Internal
            && s.message == reason)),
{
}

/// Law: the history is answered as it was read, row for row and with where it is.
pub proof fn law_history_is_answered(data: ScrollbackData, answer: Result<ScrollbackResponse, Status>)
    requires
        call_ensures(handle_scrollback, (Some(Ok(data)),), answer),
    ensures
        answer is Ok,
        answer->Ok_0.data@ == held_bytes(data.data),
        answer->Ok_0.total_scrollback_rows == data.total_scrollback_rows,
        answer->Ok_0.row_offset == data.row_offset,
{
}

/// Law: somebody who subscribes is listed, was the last to subscribe, and changes nothing else of the PTY
/// and nobody else's place on the list.
pub proof fn law_subscribing(
    handle: &mut PtyHandle,
    subscriber_id: &str,
    info: SubscriberInfo,
    now: UnixTime,
    target: Option<(u32, u32)>,
    other: Seq<char>,
)
    requires
        old(handle).shared.wf(),
        call_ensures(apply_subscribe, (handle, subscriber_id, info, now), target),
    ensures
        final(handle).shared.last_subscribed_at == Some(now),
        crate::pty::subscriber(final(handle).shared.subscribers@, subscriber_id@) matches Some(listed) && listed.cols
            == info.cols && listed.rows == info.rows && listed.hostname@ == info.hostname@,
        other != subscriber_id@ ==> crate::pty::subscriber(final(handle).shared.subscribers@, other)
            == crate::pty::subscriber(old(handle).shared.subscribers@, other),
        final(handle).shared.id == old(handle).shared.id,
        final(handle).shared.title == old(handle).shared.title,
        final(handle).shared.cols == old(handle).shared.cols,
        final(handle).shared.rows == old(handle).shared.rows,
        final(handle).shared.sort_order == old(handle).shared.sort_order,
{
    crate::pty::law_upsert(
        old(handle).shared.subscribers@,
        subscriber_id@,
        info,
        final(handle).shared.subscribers@,
        other,
    );
}

/// Law: a PTY with several subscribers keeps its size only if it has the size that they all can show, or that one
/// is somewhere smaller.
pub proof fn law_room_is_used(current: (u32, u32), subscribers: Seq<(String, SubscriberInfo)>, best: (u32, u32))
    requires
        is_best_fit(subscribers, Some(best)),
        best.0 >= current.0,
        best.1 >= current.1,
        is_subscribe_target(current, subscribers, None),
    ensures
        best == current,
{
    let fit = choose|fit: Option<(u32, u32)>|
        #![trigger is_best_fit(subscribers, fit)]
        is_best_fit(subscribers, fit) && None::<(u32, u32)> == (match fit {
            Some(b) => refit(current, b, subscribers.len() == 1),
            None => None,
        });
    law_best_fit_is_unique(subscribers, fit, Some(best));
}

/// Law: a size that a request names is taken as it is named, and each wish for the history means the same to the
/// server as to the client.
pub proof fn law_requests_mean_what_they_say(
    size: Option<Size>,
    named: (u32, u32),
    kind: ScrollbackOpKind,
    op: ScrollbackOp,
)
    requires
        call_ensures(requested_size, (size,), named),
        call_ensures(scrollback_op, (kind,), op),
    ensures
        size matches Some(s) ==> named.0 == s.cols && named.1 == s.rows,
        size is None ==> named.0 == 0 && named.1 == 0,
        (kind == ScrollbackOpKind::ScrollbackOpen) == (op == ScrollbackOp::Open),
        (kind == ScrollbackOpKind::ScrollbackMove) == (op == ScrollbackOp::Move),
        (kind == ScrollbackOpKind::ScrollbackClose) == (op == ScrollbackOp::Close),
{
}

/// Law: a new PTY is answered by what is known of it, and one that could not be opened by why.
pub proof fn law_creating(created: Result<PtyInfo, String>, answer: Result<PtyItem, Status>)
    requires
        call_ensures(handle_create, (created,), answer),
    ensures
        created matches Ok(info) ==> (answer matches Ok(item) && item.pty_id == info.id && item.title@ == info.title@
            && item.size == Some(Size { cols: info.cols, rows: info.rows })),
        created matches Err(reason) ==> (answer matches Err(s) && s.code == Code::Internal && s.message@ == reason@),
{
}

/// Law: the PTY that is named is the one that is taken out, and no other; where there is none of that id nothing
/// changes.
pub proof fn law_ending<H>(
    registry: &mut PtyRegistry<H>,
    req: DestroyRequest,
    answer: Result<H, Status>,
    was: Option<&H>,
    left: Option<&H>,
    other: u64,
    other_was: Option<&H>,
    other_left: Option<&H>,
)
    requires
        old(registry).wf(),
        call_ensures(handle_destroy, (registry, req), answer),
        call_ensures(PtyRegistry::<H>::get, (&*old(registry), req.pty_id), was),
        call_ensures(PtyRegistry::<H>::get, (&*final(registry), req.pty_id), left),
        call_ensures(PtyRegistry::<H>::get, (&*old(registry), other), other_was),
        call_ensures(PtyRegistry::<H>::get, (&*final(registry), other), other_left),
        other != req.pty_id,
    ensures
        left is None,
        other_left is Some == other_was is Some,
        other_was matches Some(h) ==> (other_left matches Some(g) && *g == *h),
        was matches Some(h) ==> (answer matches Ok(taken) && taken == *h),
        was is None ==> (answer matches Err(s) && s.code == Code::NotFound),
{
}

/// Law: a title that is asked for is the title of the PTY then, which is what is answered.
pub proof fn law_titling(handle: &mut PtyHandle, title: &str, answer: Result<PtyItem, Status>, refused: Result<PtyItem, Status>)
    requires
        call_ensures(handle_set_title, (Some(handle), title), answer),
        call_ensures(handle_set_title, (None, title), refused),
    ensures
        final(handle).shared.title@ == title@,
        final(handle).shared.id == old(handle).shared.id,
        final(handle).shared.subscribers == old(handle).shared.subscribers,
        answer matches Ok(item) && item.title@ == title@ && item.pty_id == old(handle).shared.id,
        refused matches Err(s) && s.code == Code::NotFound && s.message@ == "PTY not found"@,
{
}

} // verus!
