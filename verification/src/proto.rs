//! What client and server say to each other.
use vstd::prelude::*;

verus! {

#[derive(Clone, Copy, Debug, PartialEq, Eq, Structural)]
pub struct Size {
    pub cols: u32,
    pub rows: u32,
}

/// Seconds since the Unix epoch, and nanoseconds on top.
#[derive(Clone, Copy, Debug, PartialEq, Eq, Structural)]
pub struct Timestamp {
    pub seconds: i64,
    pub nanos: i32,
}

#[derive(Clone, Debug)]
pub struct SubscriberInfo {
    pub subscriber_id: String,
    pub hostname: String,
    pub size: Option<Size>,
    pub created_at: Option<Timestamp>,
}

#[derive(Debug)]
pub struct PtyItem {
    pub pty_id: u64,
    pub hostname: String,
    pub pts_name: String,
    pub size: Option<Size>,
    pub title: String,
    pub created_at: Option<Timestamp>,
    pub last_subscribed_at: Option<Timestamp>,
    pub subscribers: Vec<SubscriberInfo>,
    pub sort_order: u32,
}

pub struct ListResponse {
    pub items: Vec<PtyItem>,
}

#[derive(Clone, Copy)]
pub struct DestroyRequest {
    pub pty_id: u64,
}

/// What a client wants of the history.
#[derive(Clone, Copy, Debug, PartialEq, Eq, Structural)]
pub enum ScrollbackOpKind {
    ScrollbackOpen,
    ScrollbackMove,
    ScrollbackClose,
}

#[derive(Debug)]
pub struct ScrollbackResponse {
    pub data: Vec<u8>,
    pub total_scrollback_rows: u32,
    pub row_offset: u32,
}

/// The first word of a subscriber: which PTY they want, and how large their terminal is.
#[derive(Debug)]
pub struct SubscribeStart {
    pub pty_id: u64,
    pub hostname: String,
    pub size: Option<Size>,
}

/// What a subscriber sends.
pub enum Frame {
    Start(SubscribeStart),
    Write(Vec<u8>),
}

pub struct SubscribeFrame {
    pub frame: Option<Frame>,
}

/// A screen.
#[derive(Debug)]
pub struct RefreshData {
    pub data: Vec<u8>,
    pub size: Option<Size>,
    pub degraded: bool,
}

/// What is told of a PTY.
#[derive(Debug)]
pub enum MetaEvent {
    Resized(Option<Size>),
    TitleChanged(String),
    Exited(i32),
    SubscribersChanged(Vec<SubscriberInfo>),
    DataLost,
}

/// What a subscriber receives. The first is always their id.
#[derive(Debug)]
pub enum Event {
    Ready(String),
    Data(Vec<u8>),
    Refresh(RefreshData),
    Metadata(Option<MetaEvent>),
}

#[derive(Debug)]
pub struct SubscribeEvent {
    pub event: Option<Event>,
}

/// Why a request failed.
#[derive(Clone, Copy, Debug, PartialEq, Eq, Structural)]
pub enum Code {
    NotFound,
    Internal,
    InvalidArgument,
    Unauthenticated,
}

/// A request that failed.
#[derive(Debug)]
pub struct Status {
    pub code: Code,
    pub message: String,
}

/// A failure with a fixed message.
pub fn status(code: Code, message: &str) -> (s: Status)
    ensures
        s.code == code,
        s.message@ == message@,
{
    Status { code, message: message.to_owned() }
}

impl Clone for PtyItem {
    fn clone(&self) -> (copy: Self)
        ensures
            copy@ == self@,
    {
        let mut subscribers: Vec<SubscriberInfo> = Vec::new();
        let mut i: usize = 0;
        while i < self.subscribers.len()
            invariant
                i <= self.subscribers.len(),
                subscribers@ == self.subscribers@.take(i as int),
            decreases self.subscribers.len() - i,
        {
            let s = &self.subscribers[i];
            subscribers.push(
                SubscriberInfo {
                    subscriber_id: s.subscriber_id.clone(),
                    hostname: s.hostname.clone(),
                    size: s.size,
                    created_at: s.created_at,
                },
            );
            assert(subscribers@ =~= self.subscribers@.take(i + 1));
            i = i + 1;
        }
        assert(self.subscribers@.take(i as int) =~= self.subscribers@);
        PtyItem {
            pty_id: self.pty_id,
            hostname: self.hostname.clone(),
            pts_name: self.pts_name.clone(),
            size: self.size,
            title: self.title.clone(),
            created_at: self.created_at,
            last_subscribed_at: self.last_subscribed_at,
            subscribers,
            sort_order: self.sort_order,
        }
    }
}

/// What an item holds.
pub struct ItemModel {
    pub pty_id: u64,
    pub hostname: String,
    pub pts_name: String,
    pub size: Option<Size>,
    pub title: String,
    pub created_at: Option<Timestamp>,
    pub last_subscribed_at: Option<Timestamp>,
    pub subscribers: Seq<SubscriberInfo>,
    pub sort_order: u32,
}

impl View for PtyItem {
    type V = ItemModel;

    open spec fn view(&self) -> ItemModel {
        ItemModel {
            pty_id: self.pty_id,
            hostname: self.hostname,
            pts_name: self.pts_name,
            size: self.size,
            title: self.title,
            created_at: self.created_at,
            last_subscribed_at: self.last_subscribed_at,
            subscribers: self.subscribers@,
            sort_order: self.sort_order,
        }
    }
}

impl crate::order::Keyed for PtyItem {
    open spec fn key(&self) -> int {
        self.sort_order as int
    }

    fn not_after(&self, other: &Self) -> (yes: bool) {
        self.sort_order <= other.sort_order
    }
}

} // verus!
