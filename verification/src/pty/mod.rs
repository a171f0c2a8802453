//! PTYs on the server: what is known of each, who is subscribed, and which there are.
use crate::order::{sort_by_key, Keyed};
#[allow(unused_imports)]
use crate::order::in_order;
use crate::random::new_id;
#[allow(unused_imports)]
use crate::random::is_random_id;
#[allow(unused_imports)]
use crate::text::{ascii_chars, hex16};
use crate::text::hex16_string;
#[allow(unused_imports)]
use crate::shared_bytes::held_bytes;
use bytes::Bytes;
use std::sync::Arc;
use vstd::prelude::*;
use vstd::string::StringExecFns;

pub mod reader;
pub mod snapshot;

verus! {

broadcast use vstd::string::group_string_axioms;

/// What a PTY says of the terminal that its process talks to.
pub const TERM_NAME: &'static str = "xterm-ghostty";

/// The program that a PTY runs: the one asked for, or else the user's shell, or else the standard
/// one.
pub fn program_to_run(command: Option<String>, shell: Option<String>) -> (program: String)
    ensures
        match command {
            Some(named) => program == named,
            None => match shell {
                Some(users) => program == users,
                None => program@ == "/bin/sh"@,
            },
        },
{
    match command {
        Some(named) => named,
        None => match shell {
            Some(users) => users,
            None => "/bin/sh".to_owned(),
        },
    }
}

/// A point in time: seconds since the Unix epoch, negative before it, and nanoseconds on top.
#[derive(Clone, Copy, Debug, PartialEq, Eq, Structural)]
pub struct UnixTime {
    pub secs: i64,
    pub nanos: u32,
}

impl UnixTime {
    /// Times in order.
    pub open spec fn ticks(self) -> int {
        self.secs * 0x1_0000_0000 + self.nanos
    }

    /// True when this time is not later than the other.
    pub fn not_later(&self, other: &UnixTime) -> (yes: bool)
        ensures
            yes == (self.ticks() <= other.ticks()),
    {
        self.secs < other.secs || (self.secs == other.secs && self.nanos <= other.nanos)
    }
}

/// A client that is subscribed to a PTY.
#[derive(Debug)]
pub struct SubscriberInfo {
    pub hostname: String,
    pub cols: u32,
    pub rows: u32,
    pub created_at: UnixTime,
}

impl Clone for SubscriberInfo {
    fn clone(&self) -> (copy: Self)
        ensures
            copy == *self,
    {
        SubscriberInfo {
            hostname: self.hostname.clone(),
            cols: self.cols,
            rows: self.rows,
            created_at: self.created_at,
        }
    }
}

impl Keyed for (String, SubscriberInfo) {
    open spec fn key(&self) -> int {
        self.1.created_at.ticks()
    }

    fn not_after(&self, other: &Self) -> (yes: bool) {
        self.1.created_at.not_later(&other.1.created_at)
    }
}

/// What is known of a PTY at one moment.
#[derive(Clone, Debug)]
pub struct PtyInfo {
    pub id: u64,
    pub hostname: String,
    pub pts_name: String,
    pub cols: u32,
    pub rows: u32,
    pub title: String,
    pub created_at: UnixTime,
    pub last_subscribed_at: Option<UnixTime>,
    pub subscribers: Option<Vec<(String, SubscriberInfo)>>,
    pub sort_order: u32,
}

impl PtyInfo {
    /// What is told of a PTY that closed: which it was.
    pub fn closed(id: u64, created_at: UnixTime) -> (info: Self)
        ensures
            is_closed_info(info, id, created_at),
    {
        PtyInfo {
            id,
            hostname: String::new(),
            pts_name: String::new(),
            cols: 0,
            rows: 0,
            title: String::new(),
            created_at,
            last_subscribed_at: None,
            subscribers: None,
            sort_order: 0,
        }
    }
}

/// What is told of a PTY that closed.
pub open spec fn is_closed_info(info: PtyInfo, id: u64, created_at: UnixTime) -> bool {
    &&& info.id == id
    &&& info.created_at == created_at
    &&& info.hostname@.len() == 0
    &&& info.pts_name@.len() == 0
    &&& info.title@.len() == 0
    &&& info.cols == 0
    &&& info.rows == 0
    &&& info.last_subscribed_at is None
    &&& info.subscribers is None
    &&& info.sort_order == 0
}

/// Output of a PTY. Generations count up with everything that a PTY sends.
#[derive(Debug)]
pub struct PtyChunk {
    pub generation: u64,
    pub data: Bytes,
}

impl Clone for PtyChunk {
    fn clone(&self) -> (copy: Self)
        ensures
            copy.generation == self.generation,
            held_bytes(copy.data) == held_bytes(self.data),
    {
        PtyChunk { generation: self.generation, data: self.data.clone() }
    }
}

/// Why a PTY tells about itself.
#[derive(Clone, Copy, Debug, PartialEq, Eq, Structural)]
pub enum MetadataReason {
    Resize,
    Closed,
    TitleChanged,
    SubscribersChanged,
    /// A subscriber fell behind and missed output. Made up for that subscriber alone.
    DataLost,
}

/// What a PTY tells about itself.
#[derive(Clone, Debug)]
pub struct PtyMetadata {
    pub reason: MetadataReason,
    pub exit_code: Option<i32>,
    pub generation: u64,
    pub info: PtyInfo,
}

/// The whole screen of a PTY.
#[derive(Debug)]
pub struct RefreshData {
    pub generation: u64,
    pub data: Bytes,
    pub cols: u32,
    pub rows: u32,
    /// True when the screen had to be taken in the middle of an escape sequence.
    pub degraded: bool,
}

/// What a PTY sends to its subscribers, in this order.
#[derive(Clone, Debug)]
pub enum PtyEvent {
    Data(PtyChunk),
    Refresh(Arc<RefreshData>),
    /// The screen, for one subscriber.
    RefreshFor { subscriber_id: String, data: Arc<RefreshData> },
    Metadata(Arc<PtyMetadata>),
}

/// A part of a PTY's history.
#[derive(Debug)]
pub struct ScrollbackData {
    pub generation: u64,
    pub data: Bytes,
    pub total_scrollback_rows: u32,
    /// How far the last row shown is above the newest; zero at the end.
    pub row_offset: u32,
}

/// What to do with a subscriber's place in the history: go to the end, move, or give it up.
#[derive(Clone, Copy, Debug, PartialEq, Eq, Structural)]
pub enum ScrollbackOp {
    Open,
    Move,
    Close,
}

/// The state of a PTY that its reader and its handle share.
pub struct PtyShared {
    pub id: u64,
    pub hostname: String,
    pub pts_name: String,
    pub created_at: UnixTime,
    pub cols: u32,
    pub rows: u32,
    pub title: String,
    pub generation: u64,
    pub subscribers: Vec<(String, SubscriberInfo)>,
    pub last_subscribed_at: Option<UnixTime>,
    /// The place in lists, given when the PTY is registered.
    pub sort_order: u32,
}

/// The generation after `g`; they start over after the largest.
pub open spec fn next_generation(g: u64) -> u64 {
    if g == u64::MAX {
        0
    } else {
        (g + 1) as u64
    }
}

/// The subscriber's id, and what is known of them.
pub open spec fn entry_id(e: (String, SubscriberInfo)) -> Seq<char> {
    e.0@
}

/// The place of a subscriber among others; the number of entries where there is none.
pub open spec fn index_of(s: Seq<(String, SubscriberInfo)>, id: Seq<char>) -> int
    decreases s.len(),
{
    if s.len() == 0 || entry_id(s[0]) == id {
        0
    } else {
        1 + index_of(s.skip(1), id)
    }
}

/// What is known of a subscriber.
pub open spec fn subscriber(s: Seq<(String, SubscriberInfo)>, id: Seq<char>) -> Option<SubscriberInfo> {
    let i = index_of(s, id);
    if 0 <= i < s.len() {
        Some(s[i].1)
    } else {
        None
    }
}

/// True when no subscriber is listed twice.
pub open spec fn ids_distinct(s: Seq<(String, SubscriberInfo)>) -> bool {
    forall|i: int, j: int| 0 <= i < j < s.len() ==> entry_id(#[trigger] s[i]) != entry_id(#[trigger] s[j])
}

proof fn lemma_index_of(s: Seq<(String, SubscriberInfo)>, id: Seq<char>)
    ensures
        0 <= index_of(s, id) <= s.len(),
        index_of(s, id) < s.len() ==> entry_id(s[index_of(s, id)]) == id,
        forall|i: int| 0 <= i < index_of(s, id) ==> entry_id(#[trigger] s[i]) != id,
    decreases s.len(),
{
    if s.len() > 0 && entry_id(s[0]) != id {
        let t = s.skip(1);
        lemma_index_of(t, id);
        assert forall|i: int| 0 <= i < index_of(s, id) implies entry_id(#[trigger] s[i]) != id by {
            if i > 0 {
                assert(t[i - 1] == s[i]);
            }
        }
        assert(index_of(t, id) < t.len() ==> t[index_of(t, id)] == s[index_of(t, id) + 1]);
    }
}

proof fn lemma_index_of_is(s: Seq<(String, SubscriberInfo)>, id: Seq<char>, i: int)
    requires
        0 <= i <= s.len(),
        i < s.len() ==> entry_id(s[i]) == id,
        forall|j: int| 0 <= j < i ==> entry_id(#[trigger] s[j]) != id,
    ensures
        index_of(s, id) == i,
{
    lemma_index_of(s, id);
    let f = index_of(s, id);
    if f < i {
        assert(entry_id(s[f]) == id);
    } else if i < f {
        assert(entry_id(s[i]) != id);
    }
}

impl PtyShared {
    /// No subscriber is listed twice.
    pub open spec fn wf(self) -> bool {
        ids_distinct(self.subscribers@)
    }

    /// True when `info` tells what this PTY is, its subscribers from the longest subscribed on.
    pub open spec fn told_by(self, info: PtyInfo) -> bool {
        &&& info.id == self.id
        &&& info.hostname == self.hostname
        &&& info.pts_name == self.pts_name
        &&& info.cols == self.cols
        &&& info.rows == self.rows
        &&& info.title == self.title
        &&& info.created_at == self.created_at
        &&& info.last_subscribed_at == self.last_subscribed_at
        &&& info.subscribers is Some
        &&& info.subscribers->0@ == in_order(self.subscribers@)
        &&& info.sort_order == self.sort_order
    }

    /// What is known of the PTY now.
    pub fn info(&self) -> (info: PtyInfo)
        ensures
            self.told_by(info),
    {
        let mut copies: Vec<(String, SubscriberInfo)> = Vec::new();
        let mut i: usize = 0;
        while i < self.subscribers.len()
            invariant
                i <= self.subscribers.len(),
                copies@ == self.subscribers@.take(i as int),
            decreases self.subscribers.len() - i,
        {
            let entry = &self.subscribers[i];
            copies.push((entry.0.clone(), entry.1.clone()));
            assert(copies@ =~= self.subscribers@.take(i + 1));
            i = i + 1;
        }
        assert(self.subscribers@.take(i as int) =~= self.subscribers@);
        PtyInfo {
            id: self.id,
            hostname: self.hostname.clone(),
            pts_name: self.pts_name.clone(),
            cols: self.cols,
            rows: self.rows,
            title: self.title.clone(),
            created_at: self.created_at,
            last_subscribed_at: self.last_subscribed_at,
            subscribers: Some(sort_by_key(copies)),
            sort_order: self.sort_order,
        }
    }

    /// Moves to the next generation.
    pub fn advance(&mut self) -> (generation: u64)
        ensures
            generation == next_generation(old(self).generation),
            *final(self) == (PtyShared { generation, ..*old(self) }),
    {
        self.generation = self.generation.wrapping_add(1);
        self.generation
    }

    /// The place of a subscriber in the list; its length where they are not in it.
    fn find_subscriber(&self, subscriber_id: &str) -> (at: usize)
        ensures
            at == index_of(self.subscribers@, subscriber_id@),
            at <= self.subscribers.len(),
    {
        let wanted = subscriber_id.to_owned();
        let mut i: usize = 0;
        while i < self.subscribers.len() && self.subscribers[i].0 != wanted
            invariant
                i <= self.subscribers.len(),
                wanted@ == subscriber_id@,
                forall|j: int| 0 <= j < i ==> entry_id(#[trigger] self.subscribers@[j]) != wanted@,
            decreases self.subscribers.len() - i,
        {
            i = i + 1;
        }
        proof {
            lemma_index_of_is(self.subscribers@, subscriber_id@, i as int);
        }
        i
    }
}

/// The entries after a subscriber reported: one who is new comes last; one who is known keeps
/// their place and the time since when they are subscribed.
pub open spec fn upserted(
    before: Seq<(String, SubscriberInfo)>,
    id: Seq<char>,
    info: SubscriberInfo,
    after: Seq<(String, SubscriberInfo)>,
) -> bool {
    let i = index_of(before, id);
    if i < before.len() {
        after == before.update(
            i,
            (
                before[i].0,
                SubscriberInfo {
                    hostname: info.hostname,
                    cols: info.cols,
                    rows: info.rows,
                    created_at: before[i].1.created_at,
                },
            ),
        )
    } else {
        &&& after.len() == before.len() + 1
        &&& after.drop_last() == before
        &&& entry_id(after.last()) == id
        &&& after.last().1 == info
    }
}

/// The entries without those of a subscriber.
pub open spec fn without_subscriber(s: Seq<(String, SubscriberInfo)>, id: Seq<char>) -> Seq<(String, SubscriberInfo)> {
    let i = index_of(s, id);
    if 0 <= i < s.len() {
        s.remove(i)
    } else {
        s
    }
}

/// A PTY as its clients' requests see it.
pub struct PtyHandle {
    pub shared: PtyShared,
}

/// Everything of a PTY but its subscribers is as before.
pub open spec fn same_but_subscribers(a: PtyShared, b: PtyShared) -> bool {
    &&& a.id == b.id
    &&& a.hostname == b.hostname
    &&& a.pts_name == b.pts_name
    &&& a.created_at == b.created_at
    &&& a.cols == b.cols
    &&& a.rows == b.rows
    &&& a.title == b.title
    &&& a.generation == b.generation
    &&& a.last_subscribed_at == b.last_subscribed_at
    &&& a.sort_order == b.sort_order
}

impl PtyHandle {
    /// A PTY that was just opened: nobody is subscribed, and its title is the name of its device.
    pub fn with_id(id: u64, cols: u32, rows: u32, hostname: String, pts_name: String, now: UnixTime) -> (handle: Self)
        ensures
            handle.is_fresh(cols, rows, hostname, pts_name, now),
            handle.shared.id == id,
            handle.shared.wf(),
    {
        PtyHandle {
            shared: PtyShared {
                id,
                hostname,
                title: pts_name.clone(),
                pts_name,
                created_at: now,
                cols,
                rows,
                generation: 0,
                subscribers: Vec::new(),
                last_subscribed_at: None,
                sort_order: 0,
            },
        }
    }

    /// A PTY that was just opened, under a random id.
    pub fn new(cols: u32, rows: u32, hostname: String, pts_name: String, now: UnixTime) -> (handle: Self)
        ensures
            handle.is_fresh(cols, rows, hostname, pts_name, now),
            is_random_id(handle.shared.id),
            handle.shared.wf(),
    {
        PtyHandle::with_id(new_id(), cols, rows, hostname, pts_name, now)
    }

    /// What holds of a PTY that was just opened.
    pub open spec fn is_fresh(self, cols: u32, rows: u32, hostname: String, pts_name: String, now: UnixTime) -> bool {
        &&& self.shared.hostname == hostname
        &&& self.shared.pts_name == pts_name
        &&& self.shared.title == pts_name
        &&& self.shared.created_at == now
        &&& self.shared.cols == cols
        &&& self.shared.rows == rows
        &&& self.shared.generation == 0
        &&& self.shared.subscribers@.len() == 0
        &&& self.shared.last_subscribed_at is None
        &&& self.shared.sort_order == 0
    }

    pub fn info(&self) -> (info: PtyInfo)
        ensures
            self.shared.told_by(info),
    {
        self.shared.info()
    }

    pub fn id(&self) -> (id: u64)
        ensures
            id == self.shared.id,
    {
        self.shared.id
    }

    pub fn current_generation(&self) -> (generation: u64)
        ensures
            generation == self.shared.generation,
    {
        self.shared.generation
    }

    pub fn set_title(&mut self, title: &str)
        ensures
            final(self).shared.title@ == title@,
            *final(self) == (PtyHandle {
                shared: PtyShared { title: final(self).shared.title, ..old(self).shared },
            }),
    {
        self.shared.title = title.to_owned();
    }

    /// Takes note that somebody subscribed just now.
    pub fn touch_last_subscribed(&mut self, now: UnixTime)
        ensures
            *final(self) == (PtyHandle {
                shared: PtyShared { last_subscribed_at: Some(now), ..old(self).shared },
            }),
    {
        self.shared.last_subscribed_at = Some(now);
    }

    /// Lists a subscriber, or takes over what they report now.
    pub fn upsert_subscriber(&mut self, subscriber_id: &str, info: SubscriberInfo)
        requires
            old(self).shared.wf(),
        ensures
            final(self).shared.wf(),
            upserted(old(self).shared.subscribers@, subscriber_id@, info, final(self).shared.subscribers@),
            same_but_subscribers(old(self).shared, final(self).shared),
    {
        let ghost before = self.shared.subscribers@;
        let at = self.shared.find_subscriber(subscriber_id);
        proof {
            lemma_index_of(before, subscriber_id@);
        }
        if at < self.shared.subscribers.len() {
            let id = self.shared.subscribers[at].0.clone();
            let created_at = self.shared.subscribers[at].1.created_at;
            let entry = (
                id,
                SubscriberInfo { hostname: info.hostname, cols: info.cols, rows: info.rows, created_at },
            );
            self.shared.subscribers.set(at, entry);
        } else {
            self.shared.subscribers.push((subscriber_id.to_owned(), info));
            assert(self.shared.subscribers@.drop_last() =~= before);
        }
        let ghost after = self.shared.subscribers@;
        assert forall|i: int, j: int| 0 <= i < j < after.len() implies entry_id(#[trigger] after[i])
            != entry_id(#[trigger] after[j]) by {
            if j < before.len() {
                assert(entry_id(before[i]) != entry_id(before[j]));
            } else {
                assert(entry_id(before[i]) != subscriber_id@);
            }
        }
    }

    /// Takes a subscriber off the list, if they are on it.
    pub fn remove_subscriber(&mut self, subscriber_id: &str)
        requires
            old(self).shared.wf(),
        ensures
            final(self).shared.wf(),
            final(self).shared.subscribers@ == without_subscriber(
                old(self).shared.subscribers@,
                subscriber_id@,
            ),
            same_but_subscribers(old(self).shared, final(self).shared),
    {
        let ghost before = self.shared.subscribers@;
        let at = self.shared.find_subscriber(subscriber_id);
        if at < self.shared.subscribers.len() {
            self.shared.subscribers.remove(at);
        }
        let ghost after = self.shared.subscribers@;
        assert forall|i: int, j: int| 0 <= i < j < after.len() implies entry_id(#[trigger] after[i])
            != entry_id(#[trigger] after[j]) by {
            let a = if i < at { i } else { i + 1 };
            let b = if j < at { j } else { j + 1 };
            if after.len() < before.len() {
                assert(after[i] == before[a]);
                assert(after[j] == before[b]);
            }
        }
    }

    /// What is told when the list of subscribers changed.
    pub fn subscribers_changed(&self) -> (meta: PtyMetadata)
        ensures
            meta.reason == MetadataReason::SubscribersChanged,
            meta.exit_code is None,
            meta.generation == self.shared.generation,
            self.shared.told_by(meta.info),
    {
        PtyMetadata {
            reason: MetadataReason::SubscribersChanged,
            exit_code: None,
            generation: self.shared.generation,
            info: self.shared.info(),
        }
    }
}

/// Law: a subscriber who reports is listed with what they report and, if they were listed before,
/// since the same time; nobody else is affected.
pub proof fn law_upsert(
    before: Seq<(String, SubscriberInfo)>,
    id: Seq<char>,
    info: SubscriberInfo,
    after: Seq<(String, SubscriberInfo)>,
    other: Seq<char>,
)
    requires
        ids_distinct(before),
        upserted(before, id, info, after),
    ensures
        ids_distinct(after),
        subscriber(after, id) == Some(
            SubscriberInfo {
                created_at: match subscriber(before, id) {
                    Some(known) => known.created_at,
                    None => info.created_at,
                },
                ..info
            },
        ),
        other != id ==> subscriber(after, other) == subscriber(before, other),
{
    lemma_index_of(before, id);
    lemma_index_of(before, other);
    let i = index_of(before, id);
    assert forall|k: int| 0 <= k < before.len() implies entry_id(#[trigger] after[k]) == entry_id(before[k]) by {
        if i >= before.len() {
            assert(after.drop_last()[k] == after[k]);
        }
    }
    assert forall|a: int, b: int| 0 <= a < b < after.len() implies entry_id(#[trigger] after[a])
        != entry_id(#[trigger] after[b]) by {
        assert(entry_id(after[a]) == entry_id(before[a]));
        if b < before.len() {
            assert(entry_id(after[b]) == entry_id(before[b]));
        } else {
            assert(entry_id(before[a]) != id);
        }
    }
    lemma_index_of_is(after, id, i);
    if other != id {
        let o = index_of(before, other);
        if o < before.len() {
            assert(entry_id(after[o]) == entry_id(before[o]));
            lemma_index_of_is(after, other, o);
            if i >= before.len() {
                assert(after.drop_last()[o] == after[o]);
            }
        } else {
            lemma_index_of(after, other);
            let f = index_of(after, other);
            if f < after.len() {
                if f < before.len() {
                    assert(entry_id(after[f]) == entry_id(before[f]));
                    assert(entry_id(before[f]) != other);
                }
            }
        }
    }
}

/// Law: a subscriber who was removed is not listed any more; nobody else is affected.
pub proof fn law_remove(before: Seq<(String, SubscriberInfo)>, id: Seq<char>, other: Seq<char>)
    requires
        ids_distinct(before),
    ensures
        subscriber(without_subscriber(before, id), id) is None,
        other != id ==> subscriber(without_subscriber(before, id), other) == subscriber(before, other),
{
    let after = without_subscriber(before, id);
    let i = index_of(before, id);
    lemma_index_of(before, id);
    lemma_index_of(before, other);
    lemma_index_of(after, id);
    lemma_index_of(after, other);
    if i < before.len() {
        assert forall|k: int| 0 <= k < after.len() implies entry_id(#[trigger] after[k]) != id by {
            let b = if k < i { k } else { k + 1 };
            assert(after[k] == before[b]);
            if b < i {
                assert(entry_id(before[b]) != entry_id(before[i]));
            } else {
                assert(entry_id(before[i]) != entry_id(before[b]));
            }
        }
        assert(index_of(after, id) == after.len());
        if other != id {
            let o = index_of(before, other);
            if o < before.len() {
                let a = if o < i { o } else { o - 1 };
                assert(after[a] == before[o]);
                assert forall|j: int| 0 <= j < a implies entry_id(#[trigger] after[j]) != other by {
                    let b = if j < i { j } else { j + 1 };
                    assert(after[j] == before[b]);
                }
                lemma_index_of_is(after, other, a);
            } else {
                let f = index_of(after, other);
                if f < after.len() {
                    let b = if f < i { f } else { f + 1 };
                    assert(after[f] == before[b]);
                    assert(entry_id(before[b]) != other);
                }
            }
        }
    }
}

/// Law: what is told of the subscribers is the list of them, in the order of the time since when
/// they are subscribed.
pub proof fn law_info_lists_subscribers(shared: PtyShared, info: PtyInfo)
    requires
        shared.told_by(info),
    ensures
        info.subscribers->0@.to_multiset() == shared.subscribers@.to_multiset(),
        forall|i: int, j: int|
            0 <= i <= j < info.subscribers->0@.len() ==> (#[trigger] info.subscribers->0@[i]).1.created_at.ticks()
                <= (#[trigger] info.subscribers->0@[j]).1.created_at.ticks(),
{
    crate::order::law_in_order(shared.subscribers@);
    let s = in_order(shared.subscribers@);
    assert forall|i: int, j: int| 0 <= i <= j < s.len() implies (#[trigger] s[i]).1.created_at.ticks()
        <= (#[trigger] s[j]).1.created_at.ticks() by {
        assert(s[i].key() <= s[j].key());
    }
}

/// A registered PTY: its id, its place in lists, and what the rest of the program holds of it.
pub struct RegistryEntry<H> {
    pub id: u64,
    pub sort_order: u32,
    pub handle: H,
}

/// The PTYs that there are.
pub struct PtyRegistry<H> {
    pub entries: Vec<RegistryEntry<H>>,
}

/// The entries by id.
pub open spec fn by_id<H>(entries: Seq<RegistryEntry<H>>) -> Map<u64, (u32, H)>
    decreases entries.len(),
{
    if entries.len() == 0 {
        Map::empty()
    } else {
        by_id(entries.drop_last()).insert(
            entries.last().id,
            (entries.last().sort_order, entries.last().handle),
        )
    }
}

/// Where the entry with an id is; the number of entries where there is none.
pub open spec fn id_place<H>(entries: Seq<RegistryEntry<H>>, id: u64) -> int
    decreases entries.len(),
{
    if entries.len() == 0 || entries[0].id == id {
        0
    } else {
        1 + id_place(entries.skip(1), id)
    }
}

/// The entries but for the one with this id.
pub open spec fn without_id<H>(entries: Seq<RegistryEntry<H>>, id: u64) -> Seq<RegistryEntry<H>> {
    if id_place(entries, id) < entries.len() {
        entries.remove(id_place(entries, id))
    } else {
        entries
    }
}

proof fn lemma_id_place<H>(entries: Seq<RegistryEntry<H>>, id: u64, at: int)
    requires
        0 <= at <= entries.len(),
        at < entries.len() ==> entries[at].id == id,
        forall|i: int| 0 <= i < at ==> (#[trigger] entries[i]).id != id,
    ensures
        id_place(entries, id) == at,
    decreases entries.len(),
{
    if at > 0 {
        let rest = entries.skip(1);
        assert(entries[0].id != id);
        assert forall|i: int| 0 <= i < at - 1 implies (#[trigger] rest[i]).id != id by {
            assert(rest[i] == entries[i + 1]);
        }
        lemma_id_place(rest, id, at - 1);
    }
}

/// True when a place in lists is taken.
pub open spec fn order_used<H>(entries: Seq<RegistryEntry<H>>, order: int) -> bool {
    exists|i: int| 0 <= i < entries.len() && #[trigger] entries[i].sort_order == order
}

/// True for the smallest place in lists that is not taken.
pub open spec fn is_next_order<H>(entries: Seq<RegistryEntry<H>>, order: u32) -> bool {
    &&& !order_used(entries, order as int)
    &&& forall|k: int| 0 <= k < order ==> #[trigger] order_used(entries, k)
}

/// The message for an id that no PTY has.
pub open spec fn not_found_text(id: u64) -> Seq<char> {
    "PTY "@ + ascii_chars(hex16(id)) + " not found"@
}

proof fn lemma_by_id_absent<H>(s: Seq<RegistryEntry<H>>, id: u64)
    requires
        forall|i: int| 0 <= i < s.len() ==> (#[trigger] s[i]).id != id,
    ensures
        !by_id(s).contains_key(id),
    decreases s.len(),
{
    if s.len() > 0 {
        let t = s.drop_last();
        assert forall|i: int| 0 <= i < t.len() implies (#[trigger] t[i]).id != id by {
            assert(t[i] == s[i]);
        }
        lemma_by_id_absent(t, id);
        assert(s[s.len() - 1].id != id);
    }
}

proof fn lemma_by_id_present<H>(s: Seq<RegistryEntry<H>>, i: int)
    requires
        ids_unique(s),
        0 <= i < s.len(),
    ensures
        by_id(s).contains_key(s[i].id),
        by_id(s)[s[i].id] == (s[i].sort_order, s[i].handle),
        by_id(s.remove(i)) == by_id(s).remove(s[i].id),
    decreases s.len(),
{
    let t = s.drop_last();
    assert forall|a: int, b: int| 0 <= a < b < t.len() implies (#[trigger] t[a]).id != (#[trigger] t[b]).id by {
        assert(t[a] == s[a]);
        assert(t[b] == s[b]);
    }
    if i == s.len() - 1 {
        assert(s.remove(i) =~= t);
        assert forall|k: int| 0 <= k < t.len() implies (#[trigger] t[k]).id != s[i].id by {
            assert(t[k] == s[k]);
        }
        lemma_by_id_absent(t, s[i].id);
        assert(by_id(s).remove(s[i].id) =~= by_id(t));
    } else {
        assert(t[i] == s[i]);
        lemma_by_id_present(t, i);
        assert(s.remove(i).drop_last() =~= t.remove(i));
        assert(s.remove(i).last() == s.last());
        assert(s[i].id != s[s.len() - 1].id);
        assert(by_id(s.remove(i)) =~= by_id(s).remove(s[i].id));
    }
}

/// True when no two entries have the same id.
pub open spec fn ids_unique<H>(s: Seq<RegistryEntry<H>>) -> bool {
    forall|i: int, j: int| 0 <= i < j < s.len() ==> (#[trigger] s[i]).id != (#[trigger] s[j]).id
}

/// True when no two entries have the same place in lists.
pub open spec fn orders_unique<H>(s: Seq<RegistryEntry<H>>) -> bool {
    forall|i: int, j: int|
        0 <= i < j < s.len() ==> (#[trigger] s[i]).sort_order != (#[trigger] s[j]).sort_order
}

/// As many different places as there are below `n` need as many entries.
proof fn lemma_orders_fit<H>(s: Seq<RegistryEntry<H>>, n: int)
    requires
        0 <= n,
        forall|k: int| 0 <= k < n ==> #[trigger] order_used(s, k),
    ensures
        n <= s.len(),
{
    let orders = Seq::new(s.len(), |i: int| s[i].sort_order as int);
    orders.lemma_cardinality_of_set();
    let range = vstd::set_lib::set_int_range(0, n);
    vstd::set_lib::lemma_int_range(0, n);
    assert(range.subset_of(orders.to_set())) by {
        assert forall|k: int| #[trigger] range.contains(k) implies orders.to_set().contains(k) by {
            assert(order_used(s, k));
            let i = choose|i: int| 0 <= i < s.len() && #[trigger] s[i].sort_order == k;
            assert(orders[i] == k);
        }
    }
    vstd::seq_lib::seq_to_set_is_finite(orders);
    vstd::set_lib::lemma_len_subset(range, orders.to_set());
}

impl<H> View for PtyRegistry<H> {
    type V = Map<u64, (u32, H)>;

    open spec fn view(&self) -> Map<u64, (u32, H)> {
        by_id(self.entries@)
    }
}

impl<H> PtyRegistry<H> {
    /// Ids and places in lists are each given once.
    pub open spec fn wf(self) -> bool {
        ids_unique(self.entries@) && orders_unique(self.entries@)
    }

    pub fn new() -> (registry: Self)
        ensures
            registry.wf(),
            registry.entries@ == Seq::<RegistryEntry<H>>::empty(),
            registry@ == Map::<u64, (u32, H)>::empty(),
    {
        PtyRegistry { entries: Vec::new() }
    }

    /// The place of an entry; the number of entries where there is none with this id.
    fn position(&self, id: u64) -> (at: usize)
        requires
            self.wf(),
        ensures
            at <= self.entries.len(),
            at == id_place(self.entries@, id),
            at < self.entries.len() ==> self.entries@[at as int].id == id && self@.contains_key(id)
                && self@[id] == (self.entries@[at as int].sort_order, self.entries@[at as int].handle),
            at == self.entries.len() ==> !self@.contains_key(id) && forall|i: int|
                0 <= i < self.entries.len() ==> (#[trigger] self.entries@[i]).id != id,
    {
        let mut i: usize = 0;
        while i < self.entries.len() && self.entries[i].id != id
            invariant
                i <= self.entries.len(),
                forall|j: int| 0 <= j < i ==> (#[trigger] self.entries@[j]).id != id,
            decreases self.entries.len() - i,
        {
            i = i + 1;
        }
        proof {
            lemma_id_place(self.entries@, id, i as int);
            if i < self.entries.len() {
                lemma_by_id_present(self.entries@, i as int);
            } else {
                lemma_by_id_absent(self.entries@, id);
            }
        }
        i
    }

    /// The smallest place in lists that is not taken.
    fn next_order(&self) -> (order: u32)
        requires
            self.entries.len() < u32::MAX,
        ensures
            is_next_order(self.entries@, order),
    {
        let mut order: u32 = 0;
        loop
            invariant
                self.entries.len() < u32::MAX,
                order <= self.entries.len(),
                forall|k: int| 0 <= k < order ==> #[trigger] order_used(self.entries@, k),
            decreases self.entries.len() - order,
        {
            let mut i: usize = 0;
            while i < self.entries.len() && self.entries[i].sort_order != order
                invariant
                    i <= self.entries.len(),
                    forall|j: int| 0 <= j < i ==> (#[trigger] self.entries@[j]).sort_order != order,
                decreases self.entries.len() - i,
            {
                i = i + 1;
            }
            if i == self.entries.len() {
                return order;
            }
            assert(self.entries@[i as int].sort_order == order);
            assert(order_used(self.entries@, order as int));
            proof {
                lemma_orders_fit(self.entries@, order + 1);
            }
            order = order + 1;
        }
    }

    /// Registers a PTY at the smallest place in lists that is free, and has the PTY tell that place
    /// from now on. `held` is what the registry keeps of it. An entry that has the same id makes
    /// room, but still holds its place.
    pub fn create(&mut self, handle: &mut PtyHandle, held: H) -> (order: u32)
        requires
            old(self).wf(),
            old(self).entries.len() < u32::MAX,
        ensures
            final(self).wf(),
            is_next_order(old(self).entries@, order),
            final(self).entries@ == without_id(old(self).entries@, old(handle).shared.id).push(
                RegistryEntry { id: old(handle).shared.id, sort_order: order, handle: held },
            ),
            final(self)@ == old(self)@.insert(old(handle).shared.id, (order, held)),
            *final(handle) == (PtyHandle { shared: PtyShared { sort_order: order, ..old(handle).shared } }),
    {
        let order = self.insert(handle.shared.id, held);
        handle.shared.sort_order = order;
        order
    }

    /// Adds an entry at the smallest place in lists that is free, in the stead of one with the same
    /// id.
    fn insert(&mut self, id: u64, handle: H) -> (order: u32)
        requires
            old(self).wf(),
            old(self).entries.len() < u32::MAX,
        ensures
            final(self).wf(),
            is_next_order(old(self).entries@, order),
            final(self).entries@ == without_id(old(self).entries@, id).push(
                RegistryEntry { id, sort_order: order, handle },
            ),
            final(self)@ == old(self)@.insert(id, (order, handle)),
    {
        let order = self.next_order();
        let at = self.position(id);
        let ghost before = self.entries@;
        if at < self.entries.len() {
            self.entries.remove(at);
        }
        let ghost kept = self.entries@;
        assert forall|i: int| 0 <= i < kept.len() implies (#[trigger] kept[i]).id != id && kept[i].sort_order
            != order by {
            let b = if i < at { i } else if kept.len() < before.len() { i + 1 } else { i };
            assert(kept[i] == before[b]);
            if at < before.len() {
                assert(before[at as int].id == id);
            }
            if kept[i].sort_order == order {
                assert(order_used(before, order as int));
            }
        }
        assert(ids_unique(kept) && orders_unique(kept)) by {
            assert forall|i: int, j: int| 0 <= i < j < kept.len() implies (#[trigger] kept[i]).id != (#[trigger] kept[j]).id
                && kept[i].sort_order != kept[j].sort_order by {
                let a = if i < at { i } else if kept.len() < before.len() { i + 1 } else { i };
                let b = if j < at { j } else if kept.len() < before.len() { j + 1 } else { j };
                assert(kept[i] == before[a]);
                assert(kept[j] == before[b]);
            }
        }
        proof {
            if at < before.len() {
                lemma_by_id_present(before, at as int);
            }
        }
        self.entries.push(RegistryEntry { id, sort_order: order, handle });
        assert(self.entries@.drop_last() =~= kept);
        assert(self@ =~= by_id(before).insert(id, (order, handle)));
        order
    }

    /// Takes a PTY out, for the caller to end it.
    pub fn destroy(&mut self, id: u64) -> (handle: Result<H, String>)
        requires
            old(self).wf(),
        ensures
            final(self).wf(),
            final(self).entries@ == without_id(old(self).entries@, id),
            match handle {
                Ok(h) => old(self)@.contains_key(id) && h == old(self)@[id].1 && final(self)@ == old(self)@.remove(id),
                Err(message) => !old(self)@.contains_key(id) && message@ == not_found_text(id) && final(self)@
                    == old(self)@,
            },
    {
        let at = self.position(id);
        let ghost before = self.entries@;
        if at < self.entries.len() {
            proof {
                lemma_by_id_present(before, at as int);
            }
            let entry = self.entries.remove(at);
            let ghost kept = self.entries@;
            assert forall|i: int, j: int| 0 <= i < j < kept.len() implies (#[trigger] kept[i]).id != (#[trigger] kept[j]).id
                && kept[i].sort_order != kept[j].sort_order by {
                let a = if i < at { i } else { i + 1 };
                let b = if j < at { j } else { j + 1 };
                assert(kept[i] == before[a]);
                assert(kept[j] == before[b]);
            }
            Ok(entry.handle)
        } else {
            let message = "PTY ".to_owned().concat(hex16_string(id).as_str()).concat(" not found");
            Err(message)
        }
    }

    /// Takes all PTYs out, for the caller to end them.
    pub fn destroy_all(&mut self) -> (handles: Vec<H>)
        ensures
            final(self).wf(),
            final(self).entries@ == Seq::<RegistryEntry<H>>::empty(),
            final(self)@ == Map::<u64, (u32, H)>::empty(),
            handles@ == Seq::new(old(self).entries@.len(), |i: int| old(self).entries@[i].handle),
    {
        let mut handles: Vec<H> = Vec::new();
        let ghost all = self.entries@;
        let ghost mut done: int = 0;
        assert(all.skip(0) =~= all);
        while self.entries.len() > 0
            invariant
                all == old(self).entries@,
                0 <= done <= all.len(),
                self.entries@ == all.skip(done),
                handles@ == Seq::new(done as nat, |i: int| all[i].handle),
            decreases self.entries.len(),
        {
            let entry = self.entries.remove(0);
            handles.push(entry.handle);
            proof {
                done = done + 1;
                assert(self.entries@ =~= all.skip(done));
                assert(handles@ =~= Seq::new(done as nat, |i: int| all[i].handle));
            }
        }
        handles
    }

    /// The PTY with this id, if there is one.
    pub fn get(&self, id: u64) -> (handle: Option<&H>)
        requires
            self.wf(),
        ensures
            match handle {
                Some(h) => self@.contains_key(id) && *h == self@[id].1,
                None => !self@.contains_key(id),
            },
    {
        let at = self.position(id);
        if at < self.entries.len() {
            Some(&self.entries[at].handle)
        } else {
            None
        }
    }

    /// All PTYs, from the longest registered on.
    pub fn list(&self) -> (handles: Vec<&H>)
        ensures
            handles.len() == self.entries.len(),
            forall|i: int| 0 <= i < handles.len() ==> *(#[trigger] handles@[i]) == self.entries@[i].handle,
    {
        let mut handles: Vec<&H> = Vec::new();
        let mut i: usize = 0;
        while i < self.entries.len()
            invariant
                i <= self.entries.len(),
                handles.len() == i,
                forall|j: int| 0 <= j < i ==> *(#[trigger] handles@[j]) == self.entries@[j].handle,
            decreases self.entries.len() - i,
        {
            handles.push(&self.entries[i].handle);
            i = i + 1;
        }
        handles
    }
}

/// Law: a place in lists that was given up is the next to be given, where no smaller one is free.
pub proof fn law_places_are_reused<H>(s: Seq<RegistryEntry<H>>, i: int, order: u32)
    requires
        orders_unique(s),
        0 <= i < s.len(),
        forall|k: int| 0 <= k < s[i].sort_order ==> #[trigger] order_used(s, k),
        is_next_order(s.remove(i), order),
    ensures
        order == s[i].sort_order,
{
    let t = s.remove(i);
    let freed = s[i].sort_order;
    assert(!order_used(t, freed as int)) by {
        if order_used(t, freed as int) {
            let j = choose|j: int| 0 <= j < t.len() && #[trigger] t[j].sort_order == freed;
            let b = if j < i { j } else { j + 1 };
            assert(t[j] == s[b]);
        }
    }
    if order > freed {
        assert(order_used(t, freed as int));
    } else if order < freed {
        assert(order_used(s, order as int));
        let j = choose|j: int| 0 <= j < s.len() && #[trigger] s[j].sort_order == order as int;
        let b = if j < i { j } else { j - 1 };
        assert(t[b] == s[j]);
        assert(order_used(t, order as int));
    }
}

/// Law: there is exactly one next place.
pub proof fn law_next_place_is_unique<H>(s: Seq<RegistryEntry<H>>, a: u32, b: u32)
    requires
        is_next_order(s, a),
        is_next_order(s, b),
    ensures
        a == b,
{
    if a < b {
        assert(order_used(s, a as int));
    } else if b < a {
        assert(order_used(s, b as int));
    }
}

/// Law: a PTY that was registered is found by its id, with what was handed over for it, at a place of its
/// own, which it tells itself from then on. All other PTYs are found as before.
pub proof fn law_registering<H>(
    registry: &mut PtyRegistry<H>,
    handle: &mut PtyHandle,
    held: H,
    order: u32,
    other: u64,
    found: Option<&H>,
    found_other: Option<&H>,
    before: Option<&H>,
)
    requires
        old(registry).wf(),
        old(registry).entries@.len() < u32::MAX,
        call_ensures(PtyRegistry::<H>::create, (registry, handle, held), order),
        call_ensures(PtyRegistry::<H>::get, (&*final(registry), old(handle).shared.id), found),
        call_ensures(PtyRegistry::<H>::get, (&*final(registry), other), found_other),
        call_ensures(PtyRegistry::<H>::get, (&*old(registry), other), before),
        other != old(handle).shared.id,
    ensures
        found matches Some(h) && *h == held,
        found_other is Some == before is Some,
        before matches Some(b) ==> (found_other matches Some(h) && *h == *b),
        final(handle).shared.sort_order == order,
        final(handle).shared.id == old(handle).shared.id,
        final(handle).shared.title == old(handle).shared.title,
        forall|i: int| 0 <= i < old(registry).entries@.len() ==> (#[trigger] old(registry).entries@[i]).sort_order != order,
        forall|k: int| 0 <= k < order ==> #[trigger] order_used(old(registry).entries@, k),
{
    let s = old(registry).entries@;
    assert forall|i: int| 0 <= i < s.len() implies (#[trigger] s[i]).sort_order != order by {
        if s[i].sort_order == order {
            assert(order_used(s, order as int));
        }
    }
}

/// Law: a PTY that was taken out is handed back and not found any more; all others are found as before. For
/// one that there is not, nothing changes, and the answer names its id.
pub proof fn law_taking_out<H>(
    registry: &mut PtyRegistry<H>,
    id: u64,
    taken: Result<H, String>,
    other: u64,
    found: Option<&H>,
    found_other: Option<&H>,
    was: Option<&H>,
    was_other: Option<&H>,
)
    requires
        old(registry).wf(),
        call_ensures(PtyRegistry::<H>::destroy, (registry, id), taken),
        call_ensures(PtyRegistry::<H>::get, (&*final(registry), id), found),
        call_ensures(PtyRegistry::<H>::get, (&*final(registry), other), found_other),
        call_ensures(PtyRegistry::<H>::get, (&*old(registry), id), was),
        call_ensures(PtyRegistry::<H>::get, (&*old(registry), other), was_other),
        other != id,
    ensures
        found is None,
        taken is Ok == was is Some,
        was matches Some(h) ==> (taken matches Ok(t) && t == *h),
        found_other is Some == was_other is Some,
        was_other matches Some(b) ==> (found_other matches Some(h) && *h == *b),
        taken matches Err(message) ==> message@ == "PTY "@ + ascii_chars(hex16(id)) + " not found"@,
{
}

/// Law: the PTYs by their ids are the entries: each entry under its own id, and nothing else.
pub proof fn law_entries_by_id<H>(entries: Seq<RegistryEntry<H>>, i: int, id: u64)
    requires
        ids_unique(entries),
        0 <= i < entries.len(),
    ensures
        by_id(entries).contains_key(entries[i].id),
        by_id(entries)[entries[i].id] == (entries[i].sort_order, entries[i].handle),
        (forall|k: int| 0 <= k < entries.len() ==> (#[trigger] entries[k]).id != id) ==> !by_id(entries).contains_key(id),
{
    lemma_by_id_present(entries, i);
    if forall|k: int| 0 <= k < entries.len() ==> (#[trigger] entries[k]).id != id {
        lemma_by_id_absent(entries, id);
    }
}

/// Law: what is told of a PTY is what it is.
pub proof fn law_info_tells_the_pty(handle: &PtyHandle, info: PtyInfo)
    requires
        call_ensures(PtyHandle::info, (handle,), info),
    ensures
        info.id == handle.shared.id,
        info.cols == handle.shared.cols,
        info.rows == handle.shared.rows,
        info.title@ == handle.shared.title@,
        info.hostname@ == handle.shared.hostname@,
        info.pts_name@ == handle.shared.pts_name@,
        info.created_at == handle.shared.created_at,
        info.last_subscribed_at == handle.shared.last_subscribed_at,
        info.sort_order == handle.shared.sort_order,
        info.subscribers matches Some(told) && told@.to_multiset() == handle.shared.subscribers@.to_multiset(),
{
    law_info_lists_subscribers(handle.shared, info);
}

/// Law: times are compared by their seconds, and by their nanoseconds within the same second.
pub proof fn law_times(a: &UnixTime, b: &UnixTime, yes: bool)
    requires
        call_ensures(UnixTime::not_later, (a, b), yes),
    ensures
        yes == (a.secs < b.secs || (a.secs == b.secs && a.nanos <= b.nanos)),
        a.ticks() <= b.ticks() <==> (a.secs < b.secs || (a.secs == b.secs && a.nanos <= b.nanos)),
{
}

/// Law: generations count up by one, and start over after the largest.
pub proof fn law_generations(shared: &mut PtyShared, generation: u64)
    requires
        call_ensures(PtyShared::advance, (shared,), generation),
    ensures
        old(shared).generation < u64::MAX ==> generation == old(shared).generation + 1,
        old(shared).generation == u64::MAX ==> generation == 0,
        final(shared).generation == generation,
        final(shared).subscribers@ == old(shared).subscribers@,
        final(shared).cols == old(shared).cols && final(shared).rows == old(shared).rows,
        next_generation(old(shared).generation) == generation,
{
}

/// Law: a program that is asked for is run whatever the shell is; the shell is run where none is asked for; and
/// there is always one to run.
pub proof fn law_programs(command: Option<String>, shell: Option<String>, program: String)
    requires
        call_ensures(program_to_run, (command, shell), program),
    ensures
        command matches Some(named) ==> program@ == named@,
        command is None ==> (shell matches Some(users) ==> program@ == users@),
        command is None && shell is None ==> program@ == "/bin/sh"@,
{
}

/// Law: a PTY that was just opened has the size and the names that it was opened with, is called by its device,
/// was made now, and nobody has subscribed to it. One that closed is told by its id and when it was made.
pub proof fn law_opened_and_closed(
    id: u64,
    cols: u32,
    rows: u32,
    hostname: String,
    pts_name: String,
    now: UnixTime,
    handle: PtyHandle,
    its_id: u64,
    generation: u64,
    info: PtyInfo,
)
    requires
        call_ensures(PtyHandle::with_id, (id, cols, rows, hostname, pts_name, now), handle),
        call_ensures(PtyHandle::id, (&handle,), its_id),
        call_ensures(PtyHandle::current_generation, (&handle,), generation),
        call_ensures(PtyInfo::closed, (id, now), info),
    ensures
        its_id == id,
        generation == 0,
        handle.shared.cols == cols && handle.shared.rows == rows,
        handle.shared.hostname@ == hostname@,
        handle.shared.pts_name@ == pts_name@ && handle.shared.title@ == pts_name@,
        handle.shared.created_at == now,
        handle.shared.last_subscribed_at is None,
        handle.shared.subscribers@.len() == 0,
        info.id == id && info.created_at == now,
        info.subscribers is None && info.last_subscribed_at is None,
        info.title@.len() == 0,
{
}

/// Law: a title that is set is the title, and a subscription that is noted is the last; neither changes anything
/// else.
pub proof fn law_setting(handle: &mut PtyHandle, title: &str, touched: &mut PtyHandle, now: UnixTime)
    requires
        call_ensures(PtyHandle::set_title, (handle, title), ()),
        call_ensures(PtyHandle::touch_last_subscribed, (touched, now), ()),
    ensures
        final(handle).shared.title@ == title@,
        final(handle).shared.id == old(handle).shared.id,
        final(handle).shared.pts_name == old(handle).shared.pts_name,
        final(handle).shared.hostname == old(handle).shared.hostname,
        final(handle).shared.subscribers == old(handle).shared.subscribers,
        final(handle).shared.last_subscribed_at == old(handle).shared.last_subscribed_at,
        final(touched).shared.last_subscribed_at == Some(now),
        final(touched).shared.title == old(touched).shared.title,
        final(touched).shared.created_at == old(touched).shared.created_at,
        final(touched).shared.subscribers == old(touched).shared.subscribers,
{
}

/// Law: all PTYs are listed, and all are taken out at once, in the order in which they were registered; none is
/// left then.
pub proof fn law_all_ptys<H>(registry: &mut PtyRegistry<H>, listed: Vec<&H>, taken: Vec<H>, i: int, id: u64, found: Option<&H>)
    requires
        old(registry).wf(),
        call_ensures(PtyRegistry::<H>::list, (&*old(registry),), listed),
        call_ensures(PtyRegistry::<H>::destroy_all, (registry,), taken),
        call_ensures(PtyRegistry::<H>::get, (&*final(registry), id), found),
    ensures
        listed@.len() == old(registry).entries@.len(),
        taken@.len() == old(registry).entries@.len(),
        0 <= i < taken@.len() ==> *listed@[i] == taken@[i] && taken@[i] == old(registry).entries@[i].handle,
        found is None,
{
}

/// Law: somebody who subscribes is listed with what they told, and keeps the time of their first subscription;
/// somebody who leaves is not listed any more. Neither changes anything of anybody else, or of the PTY.
pub proof fn law_coming_and_going(
    handle: &mut PtyHandle,
    subscriber_id: &str,
    info: SubscriberInfo,
    left: &mut PtyHandle,
    other: Seq<char>,
)
    requires
        old(handle).shared.wf(),
        call_ensures(PtyHandle::upsert_subscriber, (handle, subscriber_id, info), ()),
        old(left).shared.wf(),
        call_ensures(PtyHandle::remove_subscriber, (left, subscriber_id), ()),
        other != subscriber_id@,
    ensures
        subscriber(final(handle).shared.subscribers@, subscriber_id@) matches Some(listed) && listed.cols == info.cols
            && listed.rows == info.rows && listed.hostname == info.hostname && (match subscriber(
            old(handle).shared.subscribers@,
            subscriber_id@,
        ) {
            Some(known) => listed.created_at == known.created_at,
            None => listed.created_at == info.created_at,
        }),
        subscriber(final(handle).shared.subscribers@, other) == subscriber(old(handle).shared.subscribers@, other),
        final(handle).shared.id == old(handle).shared.id,
        final(handle).shared.title == old(handle).shared.title,
        final(handle).shared.hostname == old(handle).shared.hostname,
        final(handle).shared.pts_name == old(handle).shared.pts_name,
        final(handle).shared.cols == old(handle).shared.cols && final(handle).shared.rows == old(handle).shared.rows,
        final(handle).shared.generation == old(handle).shared.generation,
        final(handle).shared.created_at == old(handle).shared.created_at,
        final(handle).shared.last_subscribed_at == old(handle).shared.last_subscribed_at,
        final(handle).shared.sort_order == old(handle).shared.sort_order,
        subscriber(final(left).shared.subscribers@, subscriber_id@) is None,
        subscriber(final(left).shared.subscribers@, other) == subscriber(old(left).shared.subscribers@, other),
        final(left).shared.title == old(left).shared.title,
        final(left).shared.id == old(left).shared.id,
        final(left).shared.cols == old(left).shared.cols && final(left).shared.rows == old(left).shared.rows,
        final(left).shared.generation == old(left).shared.generation,
        final(left).shared.last_subscribed_at == old(left).shared.last_subscribed_at,
{
    law_upsert(
        old(handle).shared.subscribers@,
        subscriber_id@,
        info,
        final(handle).shared.subscribers@,
        other,
    );
    law_remove(old(left).shared.subscribers@, subscriber_id@, other);
}

} // verus!
