//! The reader of a PTY: it passes the PTY's output on to its subscribers, takes snapshots of the
//! screen where no escape sequence is cut by them, and queues input.
//!
//! The terminal that follows the output, and the PTY itself, are driven from outside. What is
//! decided here takes what they showed.
use super::{
    MetadataReason, PtyChunk, PtyEvent, PtyInfo, PtyMetadata, PtyShared, RefreshData, ScrollbackOp,
};
#[allow(unused_imports)]
use super::{is_closed_info, next_generation};
#[allow(unused_imports)]
use crate::shared_bytes::held_bytes;
use crate::shared_bytes::{bytes_from_vec, bytes_slice};
#[allow(unused_imports)]
use crate::text::{bytes_of, signed_decimal};
use crate::text::{push_bytes, push_signed, push_str};
use bytes::Bytes;
use std::sync::Arc;
use vstd::prelude::*;
use vstd::string::StringExecFns;

verus! {

/// How long to wait for an escape sequence to end before the screen is taken in its middle.
pub const REFRESH_STALL_TIMEOUT_MS: i32 = 1000;

/// How much input is buffered for a PTY that does not read.
pub const MAX_PENDING_INPUT: usize = 0x10_0000;

/// Which of its two screens a terminal shows.
#[derive(Clone, Copy, Debug, PartialEq, Eq, Structural)]
pub enum Screen {
    Primary,
    Alternate,
}

/// A snapshot of the screen that is to be sent to one subscriber.
pub struct Delivery {
    pub subscriber_id: String,
    pub ticket: u64,
}

/// What was taken of the terminal's screen.
pub struct Snapshot {
    pub data: Bytes,
    pub cols: u32,
    pub rows: u32,
}

impl Snapshot {
    /// The snapshot as it is sent.
    pub fn stamped(self, generation: u64, degraded: bool) -> (data: RefreshData)
        ensures
            Some(data@) == as_sent(Some(self), generation, degraded),
    {
        RefreshData { generation, data: self.data, cols: self.cols, rows: self.rows, degraded }
    }
}

/// What the reader gives out, in this order. A ticket stands for whoever waits for the answer.
pub enum Emit {
    /// To all subscribers, with the output.
    Event(PtyEvent),
    /// To all subscribers, beside the output.
    Meta(PtyMetadata),
    /// The snapshot that was asked for, unless it could not be taken.
    Reply { ticket: u64, data: Option<Arc<RefreshData>> },
    /// Whether the snapshot that was asked for went out with the output.
    Delivered { ticket: u64, ok: bool },
}

/// The state of a reader.
pub struct Reader {
    /// Input that the PTY did not take yet.
    pub pending_out: Vec<u8>,
    /// Who waits for a snapshot. They get one as soon as the output stands between two escape
    /// sequences, so that what follows the snapshot begins with none cut off.
    pub pending_replies: Vec<u64>,
    pub pending_deliveries: Vec<Delivery>,
    pub pending_broadcast_refresh: bool,
    pub prev_title: String,
    pub prev_screen: Screen,
    pub exit_code: Option<i32>,
}

/// The contents of a snapshot that is sent.
pub struct RefreshModel {
    pub generation: u64,
    pub data: Seq<u8>,
    pub cols: u32,
    pub rows: u32,
    pub degraded: bool,
}

impl View for RefreshData {
    type V = RefreshModel;

    open spec fn view(&self) -> RefreshModel {
        RefreshModel {
            generation: self.generation,
            data: held_bytes(self.data),
            cols: self.cols,
            rows: self.rows,
            degraded: self.degraded,
        }
    }
}

/// What the reader gives out, by its contents.
pub enum EmitModel {
    Data { generation: u64, data: Seq<u8> },
    Refresh(RefreshModel),
    RefreshFor { subscriber_id: Seq<char>, screen: RefreshModel },
    Meta(PtyMetadata),
    Reply { ticket: u64, answer: Option<RefreshModel> },
    Delivered { ticket: u64, ok: bool },
}

impl View for Emit {
    type V = EmitModel;

    open spec fn view(&self) -> EmitModel {
        match *self {
            Emit::Event(PtyEvent::Data(chunk)) => EmitModel::Data {
                generation: chunk.generation,
                data: held_bytes(chunk.data),
            },
            Emit::Event(PtyEvent::Refresh(data)) => EmitModel::Refresh(data@),
            Emit::Event(PtyEvent::RefreshFor { subscriber_id, data }) => EmitModel::RefreshFor {
                subscriber_id: subscriber_id@,
                screen: data@,
            },
            Emit::Event(PtyEvent::Metadata(meta)) => EmitModel::Meta(*meta),
            Emit::Meta(meta) => EmitModel::Meta(meta),
            Emit::Reply { ticket, data } => EmitModel::Reply {
                ticket,
                answer: match data {
                    Some(d) => Some(d@),
                    None => None,
                },
            },
            Emit::Delivered { ticket, ok } => EmitModel::Delivered { ticket, ok },
        }
    }
}

/// All that was given out, by its contents.
pub open spec fn emitted(out: Seq<Emit>) -> Seq<EmitModel> {
    Seq::new(out.len(), |i: int| out[i]@)
}

/// The state of a reader, by its contents.
pub struct ReaderModel {
    pub pending_out: Seq<u8>,
    pub replies: Seq<u64>,
    pub deliveries: Seq<(Seq<char>, u64)>,
    pub broadcast: bool,
    pub prev_title: Seq<char>,
    pub prev_screen: Screen,
    pub exit_code: Option<i32>,
}

/// Deliveries by their contents.
pub open spec fn delivery_list(s: Seq<Delivery>) -> Seq<(Seq<char>, u64)> {
    Seq::new(s.len(), |i: int| (s[i].subscriber_id@, s[i].ticket))
}

impl View for Reader {
    type V = ReaderModel;

    open spec fn view(&self) -> ReaderModel {
        ReaderModel {
            pending_out: self.pending_out@,
            replies: self.pending_replies@,
            deliveries: delivery_list(self.pending_deliveries@),
            broadcast: self.pending_broadcast_refresh,
            prev_title: self.prev_title@,
            prev_screen: self.prev_screen,
            exit_code: self.exit_code,
        }
    }
}

impl ReaderModel {
    /// True when somebody waits for a snapshot.
    pub open spec fn wants_refresh(self) -> bool {
        self.replies.len() > 0 || self.deliveries.len() > 0 || self.broadcast
    }

    /// The reader when nobody waits any more.
    pub open spec fn served(self) -> ReaderModel {
        ReaderModel { replies: Seq::empty(), deliveries: Seq::empty(), broadcast: false, ..self }
    }
}

/// The snapshot as it is sent, where one could be taken.
pub open spec fn as_sent(snapshot: Option<Snapshot>, generation: u64, degraded: bool) -> Option<RefreshModel> {
    match snapshot {
        Some(s) => Some(
            RefreshModel { generation, data: held_bytes(s.data), cols: s.cols, rows: s.rows, degraded },
        ),
        None => None,
    }
}

/// The answers to those who wait for a snapshot.
pub open spec fn reply_emits(tickets: Seq<u64>, sent: Option<RefreshModel>) -> Seq<EmitModel> {
    Seq::new(tickets.len(), |i: int| EmitModel::Reply { ticket: tickets[i], answer: sent })
}

/// The snapshots for single subscribers, each followed by the word that it went out; only the word
/// that it did not, where there is none.
pub open spec fn delivery_emits(deliveries: Seq<(Seq<char>, u64)>, sent: Option<RefreshModel>) -> Seq<EmitModel>
    decreases deliveries.len(),
{
    if deliveries.len() == 0 {
        Seq::empty()
    } else {
        let (subscriber_id, ticket) = deliveries.last();
        delivery_emits(deliveries.drop_last(), sent) + (match sent {
            Some(data) => seq![
                EmitModel::RefreshFor { subscriber_id, screen: data },
                EmitModel::Delivered { ticket, ok: true },
            ],
            None => seq![EmitModel::Delivered { ticket, ok: false }],
        })
    }
}

/// Everything that is given out with a snapshot.
pub open spec fn refresh_emits(m: ReaderModel, sent: Option<RefreshModel>) -> Seq<EmitModel> {
    reply_emits(m.replies, sent) + delivery_emits(m.deliveries, sent) + (match sent {
        Some(data) => if m.broadcast {
            seq![EmitModel::Refresh(data)]
        } else {
            Seq::empty()
        },
        None => Seq::empty(),
    })
}

/// What a flush of the waiting snapshots gives out, given the generation before it.
pub open spec fn flush_emits(
    m: ReaderModel,
    generation: u64,
    snapshot: Option<Snapshot>,
    degraded: bool,
) -> Seq<EmitModel> {
    if m.wants_refresh() {
        refresh_emits(m, as_sent(snapshot, next_generation(generation), degraded))
    } else {
        Seq::empty()
    }
}

/// The generation after a flush: a snapshot takes one.
pub open spec fn flush_generation(m: ReaderModel, generation: u64) -> u64 {
    if m.wants_refresh() {
        next_generation(generation)
    } else {
        generation
    }
}

/// The outcome of one read of the PTY.
pub struct ReadOutcome {
    pub emits: Seq<EmitModel>,
    pub generation: u64,
    pub last_data: u64,
    pub next: ReaderModel,
}

/// What becomes of one read. As a rule it is passed on whole. Where somebody waits for a snapshot
/// and the output came to the end of an escape sequence within the read, it is split there: the
/// snapshot goes between the two parts.
pub open spec fn read_outcome(
    m: ReaderModel,
    generation: u64,
    batch: Seq<u8>,
    split: Option<usize>,
    snapshot: Option<Snapshot>,
) -> ReadOutcome {
    let g1 = next_generation(generation);
    match split {
        Some(at) => if m.wants_refresh() {
            let g2 = next_generation(g1);
            let g3 = next_generation(g2);
            let head = seq![EmitModel::Data { generation: g1, data: batch.take(at as int) }];
            let between = flush_emits(m, g1, snapshot, false);
            if at < batch.len() {
                ReadOutcome {
                    emits: head + between + seq![
                        EmitModel::Data { generation: g3, data: batch.skip(at as int) },
                    ],
                    generation: g3,
                    last_data: g3,
                    next: m.served(),
                }
            } else {
                ReadOutcome { emits: head + between, generation: g2, last_data: g1, next: m.served() }
            }
        } else {
            whole_read(m, g1, batch)
        },
        None => whole_read(m, g1, batch),
    }
}

/// A read that is passed on whole.
pub open spec fn whole_read(m: ReaderModel, generation: u64, batch: Seq<u8>) -> ReadOutcome {
    ReadOutcome {
        emits: seq![EmitModel::Data { generation, data: batch }],
        generation,
        last_data: generation,
        next: m,
    }
}

/// Gives out `e`.
fn emit(out: &mut Vec<Emit>, e: Emit)
    ensures
        emitted(final(out)@) == emitted(old(out)@).push(e@),
        final(out)@ == old(out)@.push(e),
{
    let ghost before = out@;
    out.push(e);
    assert(emitted(out@) =~= emitted(before).push(e@));
}

impl Reader {
    /// A reader for a PTY whose title is still the name of its device.
    pub fn new(pts_name: &String) -> (reader: Self)
        ensures
            reader@ == (ReaderModel {
                pending_out: Seq::empty(),
                replies: Seq::empty(),
                deliveries: Seq::empty(),
                broadcast: false,
                prev_title: pts_name@,
                prev_screen: Screen::Primary,
                exit_code: None,
            }),
    {
        let reader = Reader {
            pending_out: Vec::new(),
            pending_replies: Vec::new(),
            pending_deliveries: Vec::new(),
            pending_broadcast_refresh: false,
            prev_title: pts_name.clone(),
            prev_screen: Screen::Primary,
            exit_code: None,
        };
        assert(reader@.deliveries =~= Seq::empty());
        reader
    }

    /// True when somebody waits for a snapshot.
    pub fn wants_refresh(&self) -> (yes: bool)
        ensures
            yes == self@.wants_refresh(),
    {
        self.pending_replies.len() > 0 || self.pending_deliveries.len() > 0
            || self.pending_broadcast_refresh
    }

    /// Gives the snapshot to everybody who waits for one, or the word that there is none.
    pub fn flush_refreshes(
        &mut self,
        shared: &mut PtyShared,
        snapshot: Option<Snapshot>,
        degraded: bool,
        out: &mut Vec<Emit>,
    )
        ensures
            *final(shared) == (PtyShared {
                generation: flush_generation(old(self)@, old(shared).generation),
                ..*old(shared)
            }),
            final(self)@ == (if old(self)@.wants_refresh() {
                old(self)@.served()
            } else {
                old(self)@
            }),
            emitted(final(out)@) == emitted(old(out)@) + flush_emits(
                old(self)@,
                old(shared).generation,
                snapshot,
                degraded,
            ),
    {
        let ghost m = self@;
        let ghost before = emitted(out@);
        if !self.wants_refresh() {
            assert(before + Seq::<EmitModel>::empty() =~= before);
            return;
        }
        let generation = shared.advance();
        let data: Option<Arc<RefreshData>> = match snapshot {
            Some(s) => Some(Arc::new(s.stamped(generation, degraded))),
            None => None,
        };
        let ghost sent = as_sent(snapshot, generation, degraded);
        self.answer(&data, Ghost(sent), out);
        if self.pending_broadcast_refresh {
            self.pending_broadcast_refresh = false;
            if let Some(data) = data {
                emit(out, Emit::Event(PtyEvent::Refresh(data)));
            }
        }
        assert(emitted(out@) =~= before + refresh_emits(m, sent));
    }

    /// Gives the snapshot to everybody who waits for one, if the output stands between two escape
    /// sequences. Otherwise they wait on.
    pub fn flush_refreshes_if_at_boundary(
        &mut self,
        shared: &mut PtyShared,
        at_boundary: bool,
        snapshot: Option<Snapshot>,
        out: &mut Vec<Emit>,
    )
        ensures
            *final(shared) == (PtyShared {
                generation: if at_boundary {
                    flush_generation(old(self)@, old(shared).generation)
                } else {
                    old(shared).generation
                },
                ..*old(shared)
            }),
            final(self)@ == (if at_boundary && old(self)@.wants_refresh() {
                old(self)@.served()
            } else {
                old(self)@
            }),
            emitted(final(out)@) == (if at_boundary {
                emitted(old(out)@) + flush_emits(old(self)@, old(shared).generation, snapshot, false)
            } else {
                emitted(old(out)@)
            }),
    {
        if at_boundary {
            self.flush_refreshes(shared, snapshot, false, out);
        }
    }

    /// Answers everybody who waits for a snapshot of their own.
    fn answer(&mut self, data: &Option<Arc<RefreshData>>, sent: Ghost<Option<RefreshModel>>, out: &mut Vec<Emit>)
        requires
            sent@ == (match *data {
                Some(d) => Some(d@),
                None => None,
            }),
        ensures
            final(self)@ == (ReaderModel {
                replies: Seq::empty(),
                deliveries: Seq::empty(),
                ..old(self)@
            }),
            emitted(final(out)@) == emitted(old(out)@) + reply_emits(old(self)@.replies, sent@) + delivery_emits(
                old(self)@.deliveries,
                sent@,
            ),
    {
        let ghost m = self@;
        let ghost before = emitted(out@);
        let mut i: usize = 0;
        assert(before + reply_emits(m.replies.take(0), sent@) =~= before);
        while i < self.pending_replies.len()
            invariant
                i <= self.pending_replies.len(),
                self@ == m,
                sent@ == (match *data {
                    Some(d) => Some(d@),
                    None => None,
                }),
                emitted(out@) == before + reply_emits(m.replies.take(i as int), sent@),
            decreases self.pending_replies.len() - i,
        {
            let ghost was = emitted(out@);
            let copy = match data {
                Some(d) => Some(d.clone()),
                None => None,
            };
            emit(out, Emit::Reply { ticket: self.pending_replies[i], data: copy });
            assert(reply_emits(m.replies.take(i + 1), sent@) =~= reply_emits(
                m.replies.take(i as int),
                sent@,
            ).push(EmitModel::Reply { ticket: m.replies[i as int], answer: sent@ }));
            assert(emitted(out@) =~= before + reply_emits(m.replies.take(i + 1), sent@));
            i = i + 1;
        }
        assert(m.replies.take(i as int) =~= m.replies);
        let ghost middle = emitted(out@);
        let mut j: usize = 0;
        assert(middle + delivery_emits(m.deliveries.take(0), sent@) =~= middle);
        while j < self.pending_deliveries.len()
            invariant
                j <= self.pending_deliveries.len(),
                self@ == m,
                sent@ == (match *data {
                    Some(d) => Some(d@),
                    None => None,
                }),
                emitted(out@) == middle + delivery_emits(m.deliveries.take(j as int), sent@),
            decreases self.pending_deliveries.len() - j,
        {
            let ghost was = emitted(out@);
            let ghost next = m.deliveries.take(j + 1);
            assert(next.drop_last() =~= m.deliveries.take(j as int));
            assert(next.last() == m.deliveries[j as int]);
            let delivery = &self.pending_deliveries[j];
            assert(m.deliveries[j as int] == (delivery.subscriber_id@, delivery.ticket));
            match data {
                Some(d) => {
                    emit(
                        out,
                        Emit::Event(
                            PtyEvent::RefreshFor {
                                subscriber_id: delivery.subscriber_id.clone(),
                                data: d.clone(),
                            },
                        ),
                    );
                    emit(out, Emit::Delivered { ticket: delivery.ticket, ok: true });
                },
                None => emit(out, Emit::Delivered { ticket: delivery.ticket, ok: false }),
            }
            assert(emitted(out@) =~= middle + delivery_emits(next, sent@));
            j = j + 1;
        }
        assert(m.deliveries.take(j as int) =~= m.deliveries);
        self.pending_replies.clear();
        self.pending_deliveries.clear();
        assert(self@.deliveries =~= Seq::empty());
        assert(self@.replies =~= Seq::empty());
    }

    /// Passes one read of the PTY on. `split` is where, behind how many bytes, the output first
    /// stood between two escape sequences; `snapshot` is the screen there. Returns the generation
    /// of the last output that was passed on.
    pub fn process_read(
        &mut self,
        shared: &mut PtyShared,
        batch: Bytes,
        split: Option<usize>,
        snapshot: Option<Snapshot>,
        out: &mut Vec<Emit>,
    ) -> (generation: u64)
        requires
            split matches Some(at) ==> at <= held_bytes(batch).len(),
        ensures
            ({
                let r = read_outcome(
                    old(self)@,
                    old(shared).generation,
                    held_bytes(batch),
                    split,
                    snapshot,
                );
                &&& emitted(final(out)@) == emitted(old(out)@) + r.emits
                &&& *final(shared) == PtyShared { generation: r.generation, ..*old(shared) }
                &&& final(self)@ == r.next
                &&& generation == r.last_data
            }),
    {
        let ghost m = self@;
        let ghost before = emitted(out@);
        let ghost bytes = held_bytes(batch);
        let ghost g = shared.generation;
        if let Some(at) = split {
            if self.wants_refresh() {
                let len = batch.len();
                let head = bytes_slice(&batch, 0, at);
                let head_generation = shared.advance();
                assert(bytes.subrange(0, at as int) =~= bytes.take(at as int));
                emit(
                    out,
                    Emit::Event(PtyEvent::Data(PtyChunk { generation: head_generation, data: head })),
                );
                self.flush_refreshes(shared, snapshot, false, out);
                if at < len {
                    let tail = bytes_slice(&batch, at, len);
                    let tail_generation = shared.advance();
                    assert(bytes.subrange(at as int, len as int) =~= bytes.skip(at as int));
                    emit(
                        out,
                        Emit::Event(PtyEvent::Data(PtyChunk { generation: tail_generation, data: tail })),
                    );
                    assert(emitted(out@) =~= before + read_outcome(m, g, bytes, split, snapshot).emits);
                    return tail_generation;
                }
                assert(emitted(out@) =~= before + read_outcome(m, g, bytes, split, snapshot).emits);
                return head_generation;
            }
        }
        let generation = shared.advance();
        emit(out, Emit::Event(PtyEvent::Data(PtyChunk { generation, data: batch })));
        assert(emitted(out@) =~= before + read_outcome(m, g, bytes, split, snapshot).emits);
        generation
    }

    /// Takes note of the screen and the title after a read: another screen calls for a snapshot to
    /// all; another title is told to all, with the generation of the output that set it.
    pub fn after_read(&mut self, shared: &PtyShared, screen: Screen, generation: u64, out: &mut Vec<Emit>)
        ensures
            final(self)@ == (ReaderModel {
                prev_screen: screen,
                broadcast: old(self)@.broadcast || screen != old(self)@.prev_screen,
                prev_title: shared.title@,
                ..old(self)@
            }),
            if shared.title@ == old(self)@.prev_title {
                final(out)@ == old(out)@
            } else {
                &&& final(out)@.len() == old(out)@.len() + 1
                &&& final(out)@.drop_last() == old(out)@
                &&& final(out)@.last() is Meta
                &&& is_told(*shared, MetadataReason::TitleChanged, generation, final(out)@.last()->Meta_0)
            },
    {
        let ghost before = out@;
        if screen != self.prev_screen {
            self.prev_screen = screen;
            self.pending_broadcast_refresh = true;
        }
        if shared.title != self.prev_title {
            self.prev_title = shared.title.clone();
            out.push(
                Emit::Meta(
                    PtyMetadata {
                        reason: MetadataReason::TitleChanged,
                        exit_code: None,
                        generation,
                        info: shared.info(),
                    },
                ),
            );
            assert(out@.drop_last() =~= before);
        }
    }

    /// What to wait for: input is taken up again when the PTY can take it; and where somebody waits
    /// for a snapshot, the wait has an end.
    pub fn poll_plan(&self) -> (plan: PollPlan)
        ensures
            plan.watch_writable == (self@.pending_out.len() > 0),
            plan.timeout_ms == (if self@.wants_refresh() {
                REFRESH_STALL_TIMEOUT_MS as int
            } else {
                -1
            }),
    {
        PollPlan {
            watch_writable: self.pending_out.len() > 0,
            timeout_ms: if self.wants_refresh() { REFRESH_STALL_TIMEOUT_MS } else { -1 },
        }
    }

    /// Notes a request for a snapshot. It is answered between two escape sequences.
    pub fn request_refresh(&mut self, ticket: u64)
        ensures
            final(self)@ == (ReaderModel { replies: old(self)@.replies.push(ticket), ..old(self)@ }),
    {
        self.pending_replies.push(ticket);
        assert(self@.deliveries =~= old(self)@.deliveries);
    }

    /// Notes a request for a snapshot to one subscriber, within the output.
    pub fn request_delivery(&mut self, subscriber_id: String, ticket: u64)
        ensures
            final(self)@ == (ReaderModel {
                deliveries: old(self)@.deliveries.push((subscriber_id@, ticket)),
                ..old(self)@
            }),
    {
        self.pending_deliveries.push(Delivery { subscriber_id, ticket });
        assert(self@.deliveries =~= old(self)@.deliveries.push((subscriber_id@, ticket)));
    }

    /// Finishes a resize: where the PTY and its terminal took the new size, it is noted, told to
    /// all, and a snapshot to all is due. Otherwise nothing changes.
    pub fn apply_resize(&mut self, shared: &mut PtyShared, cols: u32, rows: u32, taken: bool, out: &mut Vec<Emit>)
        ensures
            final(self)@ == (ReaderModel { broadcast: old(self)@.broadcast || taken, ..old(self)@ }),
            if taken {
                &&& *final(shared) == PtyShared { cols, rows, ..*old(shared) }
                &&& final(out)@.len() == old(out)@.len() + 1
                &&& final(out)@.drop_last() == old(out)@
                &&& final(out)@.last() is Meta
                &&& is_told(
                    *final(shared),
                    MetadataReason::Resize,
                    old(shared).generation,
                    final(out)@.last()->Meta_0,
                )
            } else {
                *final(shared) == *old(shared) && final(out)@ == old(out)@
            },
    {
        if !taken {
            return;
        }
        let ghost before = out@;
        shared.cols = cols;
        shared.rows = rows;
        self.pending_broadcast_refresh = true;
        out.push(
            Emit::Meta(
                PtyMetadata {
                    reason: MetadataReason::Resize,
                    exit_code: None,
                    generation: shared.generation,
                    info: shared.info(),
                },
            ),
        );
        assert(out@.drop_last() =~= before);
    }

    /// Announces the end of the PTY's process with the output, and answers everybody who still
    /// waits for a snapshot with the last screen there was.
    pub fn cleanup(
        &mut self,
        shared: &mut PtyShared,
        status: ExitStatus,
        snapshot: Option<Snapshot>,
        out: &mut Vec<Emit>,
    )
        ensures
            ({
                let generation = next_generation(old(shared).generation);
                let sent = as_sent(snapshot, generation, false);
                &&& *final(shared) == PtyShared { generation, ..*old(shared) }
                &&& final(self)@ == ReaderModel {
                    replies: Seq::empty(),
                    deliveries: Seq::empty(),
                    exit_code: status.code(),
                    ..old(self)@
                }
                &&& emitted(final(out)@) == emitted(old(out)@).push(
                    EmitModel::Data { generation, data: exit_text(old(shared).title@, status) },
                ) + reply_emits(old(self)@.replies, sent) + delivery_emits(old(self)@.deliveries, sent)
            }),
    {
        let message = exit_message(&shared.title, status);
        let generation = shared.advance();
        emit(
            out,
            Emit::Event(PtyEvent::Data(PtyChunk { generation, data: bytes_from_vec(message) })),
        );
        self.exit_code = match status {
            ExitStatus::Exited(code) => Some(code),
            _ => None,
        };
        let ghost sent = as_sent(snapshot, generation, false);
        let data: Option<Arc<RefreshData>> = match snapshot {
            Some(s) => Some(Arc::new(s.stamped(generation, false))),
            None => None,
        };
        self.answer(&data, Ghost(sent), out);
    }

    /// What is told last of a PTY.
    pub fn closed_metadata(&self, shared: &PtyShared) -> (meta: PtyMetadata)
        ensures
            meta.reason == MetadataReason::Closed,
            meta.exit_code == self@.exit_code,
            meta.generation == shared.generation,
            is_closed_info(meta.info, shared.id, shared.created_at),
    {
        PtyMetadata {
            reason: MetadataReason::Closed,
            exit_code: self.exit_code,
            generation: shared.generation,
            info: PtyInfo::closed(shared.id, shared.created_at),
        }
    }
}

/// True when `meta` tells what the PTY is, for this reason.
pub open spec fn is_told(shared: PtyShared, reason: MetadataReason, generation: u64, meta: PtyMetadata) -> bool {
    &&& meta.reason == reason
    &&& meta.exit_code is None
    &&& meta.generation == generation
    &&& shared.told_by(meta.info)
}

/// What to wait for before the reader goes on.
pub struct PollPlan {
    pub watch_writable: bool,
    /// Milliseconds; negative for no end.
    pub timeout_ms: i32,
}

/// What a wait came to.
#[derive(Clone, Copy, Debug, PartialEq, Eq, Structural)]
pub struct PollResult {
    /// How many descriptors are ready; negative for an error.
    pub ready: i32,
    /// The error was a signal.
    pub interrupted: bool,
    /// Nobody can wake the reader any more.
    pub wakeup_closed: bool,
    pub master_writable: bool,
    /// The PTY has output, or came to its end.
    pub master_readable: bool,
}

/// What the reader does after a wait.
#[derive(Clone, Copy, Debug, PartialEq, Eq, Structural)]
pub enum PollStep {
    /// Wait again.
    Retry,
    /// Come to an end.
    Exit,
    /// Take the snapshot that somebody waits for where the output stands.
    Stalled,
    /// Write what is queued, read what there is.
    Proceed { write: bool, read: bool },
}

/// Decides what the reader does after a wait.
pub fn after_poll(result: PollResult) -> (step: PollStep)
    ensures
        step == PollStep::Retry <==> result.ready < 0 && result.interrupted,
        step == PollStep::Exit <==> (result.ready < 0 && !result.interrupted) || (result.ready >= 0
            && result.wakeup_closed),
        step == PollStep::Stalled <==> result.ready == 0 && !result.wakeup_closed,
        result.ready > 0 && !result.wakeup_closed <==> step == (PollStep::Proceed {
            write: result.master_writable,
            read: result.master_readable,
        }),
{
    if result.ready < 0 {
        if result.interrupted {
            return PollStep::Retry;
        }
        return PollStep::Exit;
    }
    if result.wakeup_closed {
        return PollStep::Exit;
    }
    if result.ready == 0 {
        return PollStep::Stalled;
    }
    PollStep::Proceed { write: result.master_writable, read: result.master_readable }
}

/// What one attempt to read the PTY gave.
pub enum ReadAttempt<'a> {
    Data(&'a [u8]),
    /// There is no more for now.
    WouldBlock,
    Eof,
    Failed,
}

/// What the reader does after an attempt to read.
#[derive(Clone, Copy, Debug, PartialEq, Eq, Structural)]
pub enum ReadStep {
    /// Read on.
    Again,
    /// Pass on what was read.
    Process,
    /// There is nothing to pass on; wait.
    Wait,
    /// Come to an end.
    Exit,
}

/// Adds what an attempt read to `batch`, and decides how to go on.
pub fn after_read_attempt(batch: &mut Vec<u8>, attempt: ReadAttempt) -> (step: ReadStep)
    ensures
        match attempt {
            ReadAttempt::Data(data) => step == ReadStep::Again && final(batch)@ == old(batch)@ + data@,
            ReadAttempt::WouldBlock => final(batch)@ == old(batch)@ && step == (if old(batch)@.len() == 0 {
                ReadStep::Wait
            } else {
                ReadStep::Process
            }),
            ReadAttempt::Eof => step == ReadStep::Exit && final(batch)@ == old(batch)@,
            ReadAttempt::Failed => step == ReadStep::Exit && final(batch)@ == old(batch)@,
        },
{
    match attempt {
        ReadAttempt::Data(data) => {
            push_bytes(batch, data);
            ReadStep::Again
        },
        ReadAttempt::WouldBlock => if batch.len() == 0 {
            ReadStep::Wait
        } else {
            ReadStep::Process
        },
        ReadAttempt::Eof => ReadStep::Exit,
        ReadAttempt::Failed => ReadStep::Exit,
    }
}

/// The search for the place within a read where the output stands between two escape sequences.
/// The terminal takes the bytes one at a time until it says so.
pub struct BoundaryScan {
    pub len: usize,
    pub fed: usize,
    pub split: Option<usize>,
}

/// Behind how many bytes a terminal that answered with `flags` first stood between two sequences.
pub open spec fn first_boundary(flags: Seq<bool>) -> Option<usize>
    decreases flags.len(),
{
    if flags.len() == 0 {
        None
    } else {
        match first_boundary(flags.drop_last()) {
            Some(at) => Some(at),
            None => if flags.last() {
                Some(flags.len() as usize)
            } else {
                None
            },
        }
    }
}

impl BoundaryScan {
    /// The scan after the terminal answered with `flags`.
    pub open spec fn saw(self, flags: Seq<bool>) -> bool {
        &&& self.fed == flags.len()
        &&& self.fed <= self.len
        &&& self.split == first_boundary(flags)
    }

    pub fn new(len: usize) -> (scan: Self)
        ensures
            scan.len == len,
            scan.saw(Seq::empty()),
    {
        BoundaryScan { len, fed: 0, split: None }
    }

    /// The byte that the terminal takes next, if the search goes on.
    pub fn next_byte(&self) -> (at: Option<usize>)
        ensures
            match at {
                Some(i) => i == self.fed && self.fed < self.len && self.split is None,
                None => self.fed >= self.len || self.split is Some,
            },
    {
        if self.split.is_none() && self.fed < self.len {
            Some(self.fed)
        } else {
            None
        }
    }

    /// Takes the terminal's answer.
    pub fn on_fed(&mut self, at_boundary: bool)
        requires
            old(self).fed < old(self).len,
        ensures
            final(self).len == old(self).len,
            final(self).fed == old(self).fed + 1,
            final(self).split == (if old(self).split is Some {
                old(self).split
            } else if at_boundary {
                Some((old(self).fed + 1) as usize)
            } else {
                None
            }),
            forall|flags: Seq<bool>|
                old(self).saw(flags) ==> #[trigger] final(self).saw(flags.push(at_boundary)),
    {
        let ghost was = *self;
        self.fed = self.fed + 1;
        if self.split.is_none() && at_boundary {
            self.split = Some(self.fed);
        }
        assert forall|flags: Seq<bool>| was.saw(flags) implies #[trigger] self.saw(flags.push(at_boundary)) by {
            assert(flags.push(at_boundary).drop_last() =~= flags);
        }
    }
}

/// What one attempt to write to the PTY gave.
#[derive(Clone, Copy, Debug, PartialEq, Eq, Structural)]
pub enum WriteAttempt {
    Accepted(usize),
    WouldBlock,
    Interrupted,
    Failed,
}

/// How writing goes on.
#[derive(Clone, Copy, Debug, PartialEq, Eq, Structural)]
pub enum WriteNext {
    /// Write what stands behind so many bytes.
    From(usize),
    /// So many bytes were taken, and no more for now.
    Done(usize),
    Failed,
}

/// How writing `len` bytes begins.
pub fn first_write(len: usize) -> (next: WriteNext)
    ensures
        next == (if len == 0 {
            WriteNext::Done(0)
        } else {
            WriteNext::From(0)
        }),
{
    if len == 0 {
        WriteNext::Done(0)
    } else {
        WriteNext::From(0)
    }
}

/// How writing `len` bytes goes on, `written` of which were taken before this attempt.
pub fn write_some(len: usize, written: usize, attempt: WriteAttempt) -> (next: WriteNext)
    requires
        written < len,
        attempt matches WriteAttempt::Accepted(n) ==> written + n <= len,
    ensures
        next == (match attempt {
            WriteAttempt::Accepted(n) => if n == 0 || written + n == len {
                WriteNext::Done((written + n) as usize)
            } else {
                WriteNext::From((written + n) as usize)
            },
            WriteAttempt::WouldBlock => WriteNext::Done(written),
            WriteAttempt::Interrupted => WriteNext::From(written),
            WriteAttempt::Failed => WriteNext::Failed,
        }),
{
    match attempt {
        WriteAttempt::Accepted(n) => if n == 0 || written + n == len {
            WriteNext::Done(written + n)
        } else {
            WriteNext::From(written + n)
        },
        WriteAttempt::WouldBlock => WriteNext::Done(written),
        WriteAttempt::Interrupted => WriteNext::From(written),
        WriteAttempt::Failed => WriteNext::Failed,
    }
}

/// What became of input before it is queued.
#[derive(Clone, Copy, Debug, PartialEq, Eq, Structural)]
pub enum WriteOutcome {
    /// There is older input that has to go first.
    NotTried,
    /// The PTY took so many bytes.
    Wrote(usize),
    /// The PTY is gone.
    Failed,
}

/// What is left of input to be queued.
pub open spec fn unwritten(data: Seq<u8>, outcome: WriteOutcome) -> Seq<u8> {
    match outcome {
        WriteOutcome::NotTried => data,
        WriteOutcome::Wrote(n) => data.skip(n as int),
        WriteOutcome::Failed => Seq::empty(),
    }
}

/// What is queued after more input: its rest comes last, unless there is no room for it.
pub open spec fn queued(pending: Seq<u8>, data: Seq<u8>, outcome: WriteOutcome, cap: usize) -> Seq<u8> {
    let rest = unwritten(data, outcome);
    if pending.len() + rest.len() <= cap {
        pending + rest
    } else {
        pending
    }
}

/// Queues input that the PTY did not take at once. It is tried at once only where nothing is
/// queued, so that it does not overtake.
pub fn queue_write(pending_out: &mut Vec<u8>, data: &[u8], outcome: WriteOutcome, cap: usize)
    requires
        outcome == WriteOutcome::NotTried <==> old(pending_out)@.len() > 0,
        outcome matches WriteOutcome::Wrote(n) ==> n <= data.len(),
    ensures
        final(pending_out)@ == queued(old(pending_out)@, data@, outcome, cap),
{
    let from: usize = match outcome {
        WriteOutcome::NotTried => 0,
        WriteOutcome::Wrote(n) => n,
        WriteOutcome::Failed => data.len(),
    };
    let rest = &data[from..data.len()];
    assert(rest@ =~= unwritten(data@, outcome));
    if rest.len() > cap || pending_out.len() > cap - rest.len() {
        return;
    }
    push_bytes(pending_out, rest);
}

/// Takes off the queue what the PTY took, or all of it where the PTY is gone.
pub fn flush_pending(pending_out: &mut Vec<u8>, written: Option<usize>)
    requires
        written matches Some(n) ==> n <= old(pending_out).len(),
    ensures
        final(pending_out)@ == (match written {
            Some(n) => old(pending_out)@.skip(n as int),
            None => Seq::empty(),
        }),
{
    match written {
        Some(n) => {
            let ghost before = pending_out@;
            let rest = pending_out.split_off(n);
            *pending_out = rest;
            assert(pending_out@ =~= before.skip(n as int));
        },
        None => {
            pending_out.clear();
            assert(pending_out@ =~= Seq::<u8>::empty());
        },
    }
}

/// How a process ended.
#[derive(Clone, Copy, Debug, PartialEq, Eq, Structural)]
pub enum ExitStatus {
    Exited(i32),
    Killed,
    Unknown,
}

impl ExitStatus {
    /// The code with which the process ended itself.
    pub open spec fn code(self) -> Option<i32> {
        match self {
            ExitStatus::Exited(code) => Some(code),
            _ => None,
        }
    }
}

/// The last line of a PTY's output.
pub open spec fn exit_text(title: Seq<char>, status: ExitStatus) -> Seq<u8> {
    bytes_of("\r\n[Command ") + vstd::utf8::encode_utf8(title) + (match status {
        ExitStatus::Exited(code) => bytes_of(" exited with code ") + signed_decimal(code as int),
        ExitStatus::Killed => bytes_of(" was killed"),
        ExitStatus::Unknown => bytes_of(" terminated"),
    }) + bytes_of("]\r\n")
}

/// The answer to a request for a snapshot that could not be taken, for a reason.
pub fn refresh_failure(reason: &str) -> (answer: String)
    ensures
        answer@ == "refresh failed: "@ + reason@,
{
    "refresh failed: ".to_owned().concat(reason)
}

/// Writes the last line of a PTY's output.
pub fn exit_message(title: &String, status: ExitStatus) -> (message: Vec<u8>)
    ensures
        message@ == exit_text(title@, status),
{
    let mut message: Vec<u8> = Vec::new();
    push_str(&mut message, "\r\n[Command ");
    push_str(&mut message, title.as_str());
    match status {
        ExitStatus::Exited(code) => {
            push_str(&mut message, " exited with code ");
            push_signed(&mut message, code);
        },
        ExitStatus::Killed => push_str(&mut message, " was killed"),
        ExitStatus::Unknown => push_str(&mut message, " terminated"),
    }
    push_str(&mut message, "]\r\n");
    assert(message@ =~= exit_text(title@, status));
    message
}

/// A request to the reader. They are taken in the order in which they come.
pub enum ReaderRequest {
    Write(Bytes),
    Resize { cols: u32, rows: u32, ticket: u64 },
    Refresh { ticket: u64 },
    Deliver { subscriber_id: String, ticket: u64 },
    Scrollback { subscriber_id: String, op: ScrollbackOp, amount: i32, row_count: u32, ticket: u64 },
}

/// What has to be done outside for a request.
pub enum RequestStep {
    /// Nothing: it is noted.
    Noted,
    /// Write this to the PTY; where `now` is false there is older input, and it is only queued.
    Write { data: Bytes, now: bool },
    /// Change the size of the PTY and its terminal.
    Resize { cols: u32, rows: u32, ticket: u64 },
    /// Show a part of the history.
    Scrollback { subscriber_id: String, op: ScrollbackOp, amount: i32, row_count: u32, ticket: u64 },
    /// Answer that the PTY is closed.
    Refuse { ticket: u64 },
    /// Nothing: nobody can take it any more.
    Drop,
}

impl Reader {
    /// Takes a request.
    pub fn handle_request(&mut self, request: ReaderRequest) -> (step: RequestStep)
        ensures
            match request {
                ReaderRequest::Write(data) => final(self)@ == old(self)@ && step == (RequestStep::Write {
                    data,
                    now: old(self)@.pending_out.len() == 0,
                }),
                ReaderRequest::Resize { cols, rows, ticket } => final(self)@ == old(self)@ && step == (RequestStep::Resize {
                    cols,
                    rows,
                    ticket,
                }),
                ReaderRequest::Refresh { ticket } => step == RequestStep::Noted && final(self)@ == (ReaderModel {
                    replies: old(self)@.replies.push(ticket),
                    ..old(self)@
                }),
                ReaderRequest::Deliver { subscriber_id, ticket } => step == RequestStep::Noted && final(self)@ == (
                ReaderModel {
                    deliveries: old(self)@.deliveries.push((subscriber_id@, ticket)),
                    ..old(self)@
                }),
                ReaderRequest::Scrollback { subscriber_id, op, amount, row_count, ticket } => final(self)@
                    == old(self)@ && step == (RequestStep::Scrollback {
                    subscriber_id,
                    op,
                    amount,
                    row_count,
                    ticket,
                }),
            },
    {
        match request {
            ReaderRequest::Write(data) => RequestStep::Write { data, now: self.pending_out.len() == 0 },
            ReaderRequest::Resize { cols, rows, ticket } => RequestStep::Resize { cols, rows, ticket },
            ReaderRequest::Refresh { ticket } => {
                self.request_refresh(ticket);
                RequestStep::Noted
            },
            ReaderRequest::Deliver { subscriber_id, ticket } => {
                self.request_delivery(subscriber_id, ticket);
                RequestStep::Noted
            },
            ReaderRequest::Scrollback { subscriber_id, op, amount, row_count, ticket } =>
                RequestStep::Scrollback { subscriber_id, op, amount, row_count, ticket },
        }
    }

    /// Takes a request that is left over when the process has ended: the last screen and the history
    /// can still be had, the size cannot be changed, and input has nowhere to go. Snapshots that are
    /// noted here are answered by `answer_leftovers`.
    pub fn handle_leftover(&mut self, request: ReaderRequest) -> (step: RequestStep)
        ensures
            match request {
                ReaderRequest::Write(_) => final(self)@ == old(self)@ && step == RequestStep::Drop,
                ReaderRequest::Resize { ticket, .. } => final(self)@ == old(self)@ && step == (RequestStep::Refuse {
                    ticket,
                }),
                ReaderRequest::Refresh { ticket } => step == RequestStep::Noted && final(self)@ == (ReaderModel {
                    replies: old(self)@.replies.push(ticket),
                    ..old(self)@
                }),
                ReaderRequest::Deliver { subscriber_id, ticket } => step == RequestStep::Noted && final(self)@ == (
                ReaderModel {
                    deliveries: old(self)@.deliveries.push((subscriber_id@, ticket)),
                    ..old(self)@
                }),
                ReaderRequest::Scrollback { subscriber_id, op, amount, row_count, ticket } => final(self)@
                    == old(self)@ && step == (RequestStep::Scrollback {
                    subscriber_id,
                    op,
                    amount,
                    row_count,
                    ticket,
                }),
            },
    {
        match request {
            ReaderRequest::Write(_) => RequestStep::Drop,
            ReaderRequest::Resize { ticket, .. } => RequestStep::Refuse { ticket },
            other => self.handle_request(other),
        }
    }

    /// Answers everybody who waits with the last screen there was, in the generation that it has.
    pub fn answer_leftovers(&mut self, shared: &PtyShared, snapshot: Option<Snapshot>, out: &mut Vec<Emit>)
        ensures
            ({
                let sent = as_sent(snapshot, shared.generation, false);
                &&& final(self)@ == ReaderModel {
                    replies: Seq::empty(),
                    deliveries: Seq::empty(),
                    ..old(self)@
                }
                &&& emitted(final(out)@) == emitted(old(out)@) + reply_emits(old(self)@.replies, sent)
                    + delivery_emits(old(self)@.deliveries, sent)
            }),
    {
        let generation = shared.generation;
        let ghost sent = as_sent(snapshot, generation, false);
        let data: Option<Arc<RefreshData>> = match snapshot {
            Some(s) => Some(Arc::new(s.stamped(generation, false))),
            None => None,
        };
        self.answer(&data, Ghost(sent), out);
    }
}

/// The output within what was given out.
pub open spec fn output_of(emits: Seq<EmitModel>) -> Seq<u8>
    decreases emits.len(),
{
    if emits.len() == 0 {
        Seq::empty()
    } else {
        let before = output_of(emits.drop_last());
        match emits.last() {
            EmitModel::Data { data, .. } => before + data,
            _ => before,
        }
    }
}

proof fn lemma_output_join(a: Seq<EmitModel>, b: Seq<EmitModel>)
    ensures
        output_of(a + b) == output_of(a) + output_of(b),
    decreases b.len(),
{
    if b.len() == 0 {
        assert(a + b =~= a);
        assert(output_of(a) + output_of(b) =~= output_of(a));
    } else {
        assert((a + b).drop_last() =~= a + b.drop_last());
        assert((a + b).last() == b.last());
        lemma_output_join(a, b.drop_last());
        if b.last() is Data {
            let data = b.last()->data;
            assert((output_of(a) + output_of(b.drop_last())) + data =~= output_of(a) + (output_of(
                b.drop_last(),
            ) + data));
        }
    }
}

proof fn lemma_output_of_one(e: EmitModel)
    ensures
        output_of(seq![e]) == (match e {
            EmitModel::Data { data, .. } => data,
            _ => Seq::empty(),
        }),
{
    assert(seq![e].drop_last() =~= Seq::<EmitModel>::empty());
    assert(output_of(seq![e].drop_last()) =~= Seq::<u8>::empty());
    if e is Data {
        assert(Seq::<u8>::empty() + e->data =~= e->data);
    }
}

/// Snapshots carry no output.
proof fn lemma_no_output(emits: Seq<EmitModel>)
    requires
        forall|i: int| 0 <= i < emits.len() ==> !((#[trigger] emits[i]) is Data),
    ensures
        output_of(emits) == Seq::<u8>::empty(),
    decreases emits.len(),
{
    if emits.len() > 0 {
        let less = emits.drop_last();
        assert forall|i: int| 0 <= i < less.len() implies !((#[trigger] less[i]) is Data) by {
            assert(less[i] == emits[i]);
        }
        lemma_no_output(less);
        assert(!(emits[emits.len() - 1] is Data));
    }
}

/// What deliveries give out: the snapshot or the word on it, nothing else.
proof fn lemma_delivery_emits(deliveries: Seq<(Seq<char>, u64)>, sent: Option<RefreshModel>)
    ensures
        forall|i: int|
            0 <= i < delivery_emits(deliveries, sent).len() ==> match #[trigger] delivery_emits(
                deliveries,
                sent,
            )[i] {
                EmitModel::RefreshFor { screen, .. } => Some(screen) == sent,
                EmitModel::Delivered { .. } => true,
                _ => false,
            },
    decreases deliveries.len(),
{
    if deliveries.len() > 0 {
        lemma_delivery_emits(deliveries.drop_last(), sent);
        let less = delivery_emits(deliveries.drop_last(), sent);
        let all = delivery_emits(deliveries, sent);
        assert forall|i: int| 0 <= i < all.len() implies match #[trigger] all[i] {
            EmitModel::RefreshFor { screen, .. } => Some(screen) == sent,
            EmitModel::Delivered { .. } => true,
            _ => false,
        } by {
            if i < less.len() {
                assert(all[i] == less[i]);
            }
        }
    }
}

/// Law: with a snapshot nothing is given out but that snapshot, stamped as asked, and the word on
/// it.
pub proof fn law_flush_gives_one_snapshot(
    m: ReaderModel,
    generation: u64,
    snapshot: Option<Snapshot>,
    degraded: bool,
)
    ensures
        forall|i: int|
            0 <= i < flush_emits(m, generation, snapshot, degraded).len() ==> match #[trigger] flush_emits(
                m,
                generation,
                snapshot,
                degraded,
            )[i] {
                EmitModel::Refresh(r) => Some(r) == as_sent(snapshot, next_generation(generation), degraded),
                EmitModel::RefreshFor { screen, .. } => Some(screen) == as_sent(
                    snapshot,
                    next_generation(generation),
                    degraded,
                ),
                EmitModel::Reply { answer, .. } => answer == as_sent(
                    snapshot,
                    next_generation(generation),
                    degraded,
                ),
                EmitModel::Delivered { .. } => true,
                _ => false,
            },
{
    let sent = as_sent(snapshot, next_generation(generation), degraded);
    lemma_delivery_emits(m.deliveries, sent);
    let replies = reply_emits(m.replies, sent);
    let deliveries = delivery_emits(m.deliveries, sent);
    let all = flush_emits(m, generation, snapshot, degraded);
    assert forall|i: int| 0 <= i < all.len() implies match #[trigger] all[i] {
        EmitModel::Refresh(r) => Some(r) == sent,
        EmitModel::RefreshFor { screen, .. } => Some(screen) == sent,
        EmitModel::Reply { answer, .. } => answer == sent,
        EmitModel::Delivered { .. } => true,
        _ => false,
    } by {
        if i < replies.len() {
            assert(all[i] == replies[i]);
        } else if i < replies.len() + deliveries.len() {
            assert(all[i] == deliveries[i - replies.len()]);
        }
    }
}

/// Law: no output is lost, doubled or reordered: the parts in which a read is passed on are the
/// read, wherever it is split.
pub proof fn law_read_is_passed_on(
    m: ReaderModel,
    generation: u64,
    batch: Seq<u8>,
    split: Option<usize>,
    snapshot: Option<Snapshot>,
)
    requires
        split matches Some(at) ==> at <= batch.len(),
    ensures
        output_of(read_outcome(m, generation, batch, split, snapshot).emits) == batch,
{
    let r = read_outcome(m, generation, batch, split, snapshot);
    let g1 = next_generation(generation);
    if split is Some && m.wants_refresh() {
        let at = split->0 as int;
        let head = EmitModel::Data { generation: g1, data: batch.take(at) };
        let between = flush_emits(m, g1, snapshot, false);
        law_flush_gives_one_snapshot(m, g1, snapshot, false);
        lemma_no_output(between);
        lemma_output_join(seq![head], between);
        lemma_output_of_one(head);
        assert(batch.take(at) + Seq::<u8>::empty() =~= batch.take(at));
        if at < batch.len() {
            let tail = EmitModel::Data {
                generation: next_generation(next_generation(g1)),
                data: batch.skip(at),
            };
            lemma_output_join(seq![head] + between, seq![tail]);
            lemma_output_of_one(tail);
            assert(batch.take(at) + batch.skip(at) =~= batch);
        } else {
            assert(batch.take(at) =~= batch);
        }
    } else {
        lemma_output_of_one(EmitModel::Data { generation: g1, data: batch });
    }
}

/// Law: a snapshot that splits a read stands between its two parts, in a generation of its own
/// between theirs. A subscriber who skips everything up to the snapshot's generation goes on with
/// exactly what is not in it.
pub proof fn law_snapshot_between_parts(
    m: ReaderModel,
    generation: u64,
    batch: Seq<u8>,
    at: usize,
    snapshot: Snapshot,
)
    requires
        m.wants_refresh(),
        at < batch.len(),
        generation <= u64::MAX - 3,
    ensures
        ({
            let r = read_outcome(m, generation, batch, Some(at), Some(snapshot));
            let sent = RefreshModel {
                generation: (generation + 2) as u64,
                data: held_bytes(snapshot.data),
                cols: snapshot.cols,
                rows: snapshot.rows,
                degraded: false,
            };
            &&& r.emits == seq![
                EmitModel::Data { generation: (generation + 1) as u64, data: batch.take(at as int) },
            ] + refresh_emits(m, Some(sent)) + seq![
                EmitModel::Data { generation: (generation + 3) as u64, data: batch.skip(at as int) },
            ]
            &&& r.generation == generation + 3
            &&& !r.next.wants_refresh()
        }),
{
}

/// Law: where a read holds no end of an escape sequence, nobody is answered, and they go on
/// waiting.
pub proof fn law_snapshot_waits(
    m: ReaderModel,
    generation: u64,
    batch: Seq<u8>,
    snapshot: Option<Snapshot>,
)
    ensures
        read_outcome(m, generation, batch, None, snapshot).next == m,
        read_outcome(m, generation, batch, None, snapshot).emits == seq![
            EmitModel::Data { generation: next_generation(generation), data: batch },
        ],
{
}

/// The tickets that are answered, in order.
pub open spec fn answered(emits: Seq<EmitModel>) -> Seq<u64>
    decreases emits.len(),
{
    if emits.len() == 0 {
        Seq::empty()
    } else {
        let before = answered(emits.drop_last());
        match emits.last() {
            EmitModel::Reply { ticket, .. } => before.push(ticket),
            EmitModel::Delivered { ticket, .. } => before.push(ticket),
            _ => before,
        }
    }
}

proof fn lemma_answered_join(a: Seq<EmitModel>, b: Seq<EmitModel>)
    ensures
        answered(a + b) == answered(a) + answered(b),
    decreases b.len(),
{
    if b.len() == 0 {
        assert(a + b =~= a);
        assert(answered(a) + answered(b) =~= answered(a));
    } else {
        assert((a + b).drop_last() =~= a + b.drop_last());
        assert((a + b).last() == b.last());
        lemma_answered_join(a, b.drop_last());
        assert(answered(a + b) =~= answered(a) + answered(b));
    }
}

proof fn lemma_answered_of_one(e: EmitModel)
    ensures
        answered(seq![e]) == (match e {
            EmitModel::Reply { ticket, .. } => seq![ticket],
            EmitModel::Delivered { ticket, .. } => seq![ticket],
            _ => Seq::empty(),
        }),
{
    assert(seq![e].drop_last() =~= Seq::<EmitModel>::empty());
    assert(answered(seq![e].drop_last()) =~= Seq::<u64>::empty());
    assert(answered(seq![e]) =~= (match e {
        EmitModel::Reply { ticket, .. } => seq![ticket],
        EmitModel::Delivered { ticket, .. } => seq![ticket],
        _ => Seq::empty(),
    }));
}

proof fn lemma_replies_answered(tickets: Seq<u64>, sent: Option<RefreshModel>)
    ensures
        answered(reply_emits(tickets, sent)) == tickets,
    decreases tickets.len(),
{
    if tickets.len() > 0 {
        assert(reply_emits(tickets, sent).drop_last() =~= reply_emits(tickets.drop_last(), sent));
        lemma_replies_answered(tickets.drop_last(), sent);
        assert(tickets.drop_last().push(tickets.last()) =~= tickets);
    } else {
        assert(tickets =~= Seq::<u64>::empty());
    }
}

/// The tickets of deliveries.
pub open spec fn delivery_tickets(deliveries: Seq<(Seq<char>, u64)>) -> Seq<u64> {
    Seq::new(deliveries.len(), |i: int| deliveries[i].1)
}

proof fn lemma_deliveries_answered(deliveries: Seq<(Seq<char>, u64)>, sent: Option<RefreshModel>)
    ensures
        answered(delivery_emits(deliveries, sent)) == delivery_tickets(deliveries),
    decreases deliveries.len(),
{
    if deliveries.len() > 0 {
        let less = deliveries.drop_last();
        let (subscriber_id, ticket) = deliveries.last();
        lemma_deliveries_answered(less, sent);
        let last = match sent {
            Some(data) => seq![
                EmitModel::RefreshFor { subscriber_id, screen: data },
                EmitModel::Delivered { ticket, ok: true },
            ],
            None => seq![EmitModel::Delivered { ticket, ok: false }],
        };
        lemma_answered_join(delivery_emits(less, sent), last);
        match sent {
            Some(data) => {
                let first = EmitModel::RefreshFor { subscriber_id, screen: data };
                let second = EmitModel::Delivered { ticket, ok: true };
                lemma_answered_of_one(first);
                lemma_answered_of_one(second);
                lemma_answered_join(seq![first], seq![second]);
                assert(last =~= seq![first] + seq![second]);
                assert(answered(last) =~= seq![ticket]);
            },
            None => lemma_answered_of_one(EmitModel::Delivered { ticket, ok: false }),
        }
        assert(delivery_tickets(less) + seq![ticket] =~= delivery_tickets(deliveries));
    } else {
        assert(delivery_tickets(deliveries) =~= Seq::<u64>::empty());
    }
}

/// Law: a flush answers everybody who waits exactly once, whether or not there is a snapshot, and
/// nobody waits afterwards.
pub proof fn law_flush_answers_everybody(
    m: ReaderModel,
    generation: u64,
    snapshot: Option<Snapshot>,
    degraded: bool,
)
    ensures
        answered(flush_emits(m, generation, snapshot, degraded)) == m.replies + delivery_tickets(
            m.deliveries,
        ),
        !m.served().wants_refresh(),
{
    let sent = as_sent(snapshot, next_generation(generation), degraded);
    let replies = reply_emits(m.replies, sent);
    let deliveries = delivery_emits(m.deliveries, sent);
    lemma_replies_answered(m.replies, sent);
    lemma_deliveries_answered(m.deliveries, sent);
    lemma_answered_join(replies, deliveries);
    if m.wants_refresh() {
        let last = match sent {
            Some(data) => if m.broadcast {
                seq![EmitModel::Refresh(data)]
            } else {
                Seq::empty()
            },
            None => Seq::empty(),
        };
        lemma_answered_join(replies + deliveries, last);
        if last.len() > 0 {
            lemma_answered_of_one(last[0]);
            assert(last =~= seq![last[0]]);
        }
        assert(answered(last) =~= Seq::<u64>::empty());
        assert(answered(replies + deliveries) + Seq::<u64>::empty() =~= m.replies + delivery_tickets(
            m.deliveries,
        ));
    } else {
        assert(m.replies + delivery_tickets(m.deliveries) =~= Seq::<u64>::empty());
    }
}

/// Law: the scan finds the first place where the terminal stood between two sequences, and only
/// such a place.
pub proof fn law_scan_finds_first(flags: Seq<bool>)
    requires
        flags.len() <= usize::MAX,
    ensures
        match first_boundary(flags) {
            Some(at) => 1 <= at <= flags.len() && flags[at - 1] && forall|j: int|
                0 <= j < at - 1 ==> !(#[trigger] flags[j]),
            None => forall|j: int| 0 <= j < flags.len() ==> !(#[trigger] flags[j]),
        },
    decreases flags.len(),
{
    if flags.len() > 0 {
        let less = flags.drop_last();
        law_scan_finds_first(less);
        assert(forall|j: int| 0 <= j < less.len() ==> less[j] == flags[j]);
        match first_boundary(less) {
            Some(at) => {
                assert(less[at - 1] == flags[at - 1]);
                assert forall|j: int| 0 <= j < at - 1 implies !(#[trigger] flags[j]) by {
                    assert(less[j] == flags[j]);
                }
            },
            None => {
                assert forall|j: int| 0 <= j < flags.len() - 1 implies !(#[trigger] flags[j]) by {
                    assert(less[j] == flags[j]);
                }
            },
        }
    }
}

/// Law: input reaches the PTY in the order in which it came. What the PTY took so far, followed by
/// what is queued, grows by the new input at its end, as long as the PTY is there and there is
/// room.
pub proof fn law_input_in_order(
    taken: Seq<u8>,
    pending: Seq<u8>,
    data: Seq<u8>,
    outcome: WriteOutcome,
    cap: usize,
)
    requires
        outcome == WriteOutcome::NotTried <==> pending.len() > 0,
        outcome matches WriteOutcome::Wrote(n) ==> n <= data.len(),
        outcome != WriteOutcome::Failed,
        pending.len() + unwritten(data, outcome).len() <= cap,
    ensures
        ({
            let now_taken = match outcome {
                WriteOutcome::Wrote(n) => taken + data.take(n as int),
                _ => taken,
            };
            now_taken + queued(pending, data, outcome, cap) == taken + pending + data
        }),
{
    match outcome {
        WriteOutcome::Wrote(n) => {
            assert(pending =~= Seq::<u8>::empty());
            assert((taken + data.take(n as int)) + (pending + data.skip(n as int)) =~= taken + pending + data);
        },
        _ => {
            assert(taken + (pending + data) =~= taken + pending + data);
        },
    }
}

/// Law: taking bytes off the queue moves them behind what was taken before, and changes nothing
/// else.
pub proof fn law_flush_in_order(taken: Seq<u8>, pending: Seq<u8>, n: usize)
    requires
        n <= pending.len(),
    ensures
        (taken + pending.take(n as int)) + pending.skip(n as int) == taken + pending,
{
    assert((taken + pending.take(n as int)) + pending.skip(n as int) =~= taken + pending);
}

/// Law: more input never makes the queue longer than the limit, and never touches what is in it.
pub proof fn law_queue_bounded(pending: Seq<u8>, data: Seq<u8>, outcome: WriteOutcome, cap: usize)
    requires
        pending.len() <= cap,
    ensures
        queued(pending, data, outcome, cap).len() <= cap,
        pending.is_prefix_of(queued(pending, data, outcome, cap)),
{
}

/// Law: whoever asks for a snapshot is answered by the next flush, behind all who asked before them, and with
/// the snapshot that was taken then. A snapshot for one subscriber goes out for them, and directly behind it
/// the word that it did.
pub proof fn law_requests_are_answered(
    reader: &mut Reader,
    ticket: u64,
    noted: RequestStep,
    other: &mut Reader,
    subscriber_id: String,
    also: RequestStep,
    generation: u64,
    snapshot: Snapshot,
)
    requires
        call_ensures(Reader::handle_request, (reader, ReaderRequest::Refresh { ticket }), noted),
        call_ensures(Reader::handle_request, (other, ReaderRequest::Deliver { subscriber_id, ticket }), also),
        old(other)@.replies.len() == 0,
        !old(other)@.broadcast,
    ensures
        final(reader)@.wants_refresh(),
        final(other)@.wants_refresh(),
        answered(flush_emits(final(reader)@, generation, Some(snapshot), false)) == old(reader)@.replies.push(ticket)
            + delivery_tickets(old(reader)@.deliveries),
        ({
            let emits = flush_emits(final(other)@, generation, Some(snapshot), false);
            let n = emits.len();
            &&& n >= 2
            &&& emits[n - 1] == EmitModel::Delivered { ticket, ok: true }
            &&& emits[n - 2] matches EmitModel::RefreshFor { subscriber_id: to, screen } && to == subscriber_id@
                && screen.data == held_bytes(snapshot.data) && screen.cols == snapshot.cols && screen.rows == snapshot.rows
                && !screen.degraded && screen.generation == next_generation(generation)
        }),
{
    law_flush_answers_everybody(final(reader)@, generation, Some(snapshot), false);
    let d = final(other)@.deliveries;
    assert(d.drop_last() =~= old(other)@.deliveries);
    let sent = as_sent(Some(snapshot), next_generation(generation), false);
    let emits = flush_emits(final(other)@, generation, Some(snapshot), false);
    assert(final(other)@.replies =~= Seq::<u64>::empty());
    assert(reply_emits(final(other)@.replies, sent) =~= Seq::<EmitModel>::empty());
    assert(emits =~= delivery_emits(d, sent));
}

/// Law: when a snapshot to all is due, the next flush gives one out, to all, unless none could be taken.
pub proof fn law_broadcasts_go_out(m: ReaderModel, generation: u64, snapshot: Snapshot, degraded: bool)
    requires
        m.broadcast,
    ensures
        flush_emits(m, generation, Some(snapshot), degraded).len() > 0,
        flush_emits(m, generation, Some(snapshot), degraded).last() == EmitModel::Refresh(
            RefreshModel {
                generation: next_generation(generation),
                data: held_bytes(snapshot.data),
                cols: snapshot.cols,
                rows: snapshot.rows,
                degraded,
            },
        ),
{
}

/// Law: another screen calls for a snapshot to all, and the same screen does not. Another title is told to
/// all, with the output that set it, and the same title is not told again.
pub proof fn law_screens_and_titles(
    reader: &mut Reader,
    again: &mut Reader,
    shared: &PtyShared,
    screen: Screen,
    generation: u64,
    out: &mut Vec<Emit>,
    more: &mut Vec<Emit>,
)
    requires
        call_ensures(Reader::after_read, (reader, shared, screen, generation, out), ()),
        old(again)@ == final(reader)@,
        call_ensures(Reader::after_read, (again, shared, screen, generation, more), ()),
    ensures
        screen != old(reader)@.prev_screen ==> final(reader)@.wants_refresh() && final(reader)@.broadcast,
        screen == old(reader)@.prev_screen ==> final(reader)@.broadcast == old(reader)@.broadcast,
        final(reader)@.replies == old(reader)@.replies,
        final(reader)@.deliveries == old(reader)@.deliveries,
        final(reader)@.pending_out == old(reader)@.pending_out,
        shared.title@ == old(reader)@.prev_title ==> final(out)@ == old(out)@,
        shared.title@ != old(reader)@.prev_title ==> final(out)@.len() == old(out)@.len() + 1 && (
        final(out)@.last() matches Emit::Meta(meta) && meta.reason == MetadataReason::TitleChanged && meta.generation
            == generation && meta.info.title@ == shared.title@ && meta.info.id == shared.id),
        final(more)@ == old(more)@,
        final(again)@ == final(reader)@,
{
}

/// Law: a size that the PTY took is its size from then on, is told to all and calls for a snapshot to all; one
/// that it did not take changes nothing.
pub proof fn law_resizing(
    reader: &mut Reader,
    shared: &mut PtyShared,
    cols: u32,
    rows: u32,
    taken: bool,
    out: &mut Vec<Emit>,
)
    requires
        call_ensures(Reader::apply_resize, (reader, shared, cols, rows, taken, out), ()),
    ensures
        taken ==> final(shared).cols == cols && final(shared).rows == rows && final(reader)@.broadcast && (
        final(out)@.len() == old(out)@.len() + 1 && (final(out)@.last() matches Emit::Meta(meta) && meta.reason
            == MetadataReason::Resize && meta.info.cols == cols && meta.info.rows == rows)),
        !taken ==> *final(shared) == *old(shared) && final(reader)@ == old(reader)@ && final(out)@ == old(out)@,
        final(shared).title == old(shared).title && final(shared).generation == old(shared).generation,
        final(shared).subscribers == old(shared).subscribers,
{
}

/// Law: the end of a process is the last line of its PTY's output, with the title and how it ended, and the
/// code with which it ended itself is told last of all.
pub proof fn law_the_end_is_told(
    reader: &mut Reader,
    shared: &mut PtyShared,
    code: i32,
    snapshot: Option<Snapshot>,
    out: &mut Vec<Emit>,
    meta: PtyMetadata,
)
    requires
        call_ensures(Reader::cleanup, (reader, shared, ExitStatus::Exited(code), snapshot, out), ()),
        call_ensures(Reader::closed_metadata, (&*final(reader), &*final(shared)), meta),
        old(reader)@.replies.len() == 0,
        old(reader)@.deliveries.len() == 0,
    ensures
        meta.reason == MetadataReason::Closed,
        meta.exit_code == Some(code),
        meta.info.id == old(shared).id,
        emitted(final(out)@).len() == emitted(old(out)@).len() + 1,
        emitted(final(out)@).last() matches EmitModel::Data { data, .. } && data == bytes_of("\r\n[Command ")
            + vstd::utf8::encode_utf8(old(shared).title@) + (bytes_of(" exited with code ") + signed_decimal(code as int))
            + bytes_of("]\r\n"),
        exit_text(old(shared).title@, ExitStatus::Killed) == bytes_of("\r\n[Command ") + vstd::utf8::encode_utf8(
            old(shared).title@,
        ) + bytes_of(" was killed") + bytes_of("]\r\n"),
        exit_text(old(shared).title@, ExitStatus::Unknown) == bytes_of("\r\n[Command ") + vstd::utf8::encode_utf8(
            old(shared).title@,
        ) + bytes_of(" terminated") + bytes_of("]\r\n"),
{
    let generation = next_generation(old(shared).generation);
    let sent = as_sent(snapshot, generation, false);
    assert(reply_emits(old(reader)@.replies, sent) =~= Seq::<EmitModel>::empty());
    assert(delivery_emits(old(reader)@.deliveries, sent) =~= Seq::<EmitModel>::empty());
    let line = EmitModel::Data { generation, data: exit_text(old(shared).title@, ExitStatus::Exited(code)) };
    let none = Seq::<EmitModel>::empty();
    assert(emitted(old(out)@).push(line) + none + none =~= emitted(old(out)@).push(line));
}

/// Law: while bytes are written, those that were taken are counted exactly, and writing goes on behind them
/// until all are taken, or no more can be for now.
pub proof fn law_writing(len: usize, written: usize, attempt: WriteAttempt, next: WriteNext)
    requires
        written < len,
        attempt matches WriteAttempt::Accepted(n) ==> written + n <= len,
        call_ensures(write_some, (len, written, attempt), next),
    ensures
        attempt matches WriteAttempt::Accepted(n) ==> (next matches WriteNext::From(k) ==> k == written + n && k < len && n
            > 0),
        attempt matches WriteAttempt::Accepted(n) ==> (next matches WriteNext::Done(k) ==> k == written + n),
        attempt matches WriteAttempt::Accepted(n) ==> (written + n == len ==> next == WriteNext::Done(len)),
        attempt matches WriteAttempt::Accepted(n) ==> (0 < n && written + n < len ==> next == WriteNext::From(
            (written + n) as usize,
        )),
        attempt == WriteAttempt::WouldBlock ==> next == WriteNext::Done(written),
        attempt == WriteAttempt::Interrupted ==> next == WriteNext::From(written),
        attempt == WriteAttempt::Failed <==> next == WriteNext::Failed,
{
}

/// Law: input that the PTY did not take is queued behind what is queued, whole, as long as there is room; and
/// what the PTY takes of the queue is taken from its front.
pub proof fn law_queueing(
    queue: &mut Vec<u8>,
    data: &[u8],
    taken: usize,
    cap: usize,
    later: &mut Vec<u8>,
    written: usize,
)
    requires
        old(queue)@.len() == 0,
        taken <= data@.len(),
        call_ensures(queue_write, (queue, data, WriteOutcome::Wrote(taken), cap), ()),
        written <= old(later)@.len(),
        call_ensures(flush_pending, (later, Some(written)), ()),
    ensures
        data@.len() - taken <= cap ==> data@.take(taken as int) + final(queue)@ == data@,
        data@.len() - taken > cap ==> final(queue)@.len() == 0,
        old(later)@.take(written as int) + final(later)@ == old(later)@,
{
    assert(old(queue)@ =~= Seq::<u8>::empty());
    if data@.len() - taken <= cap {
        assert(data@.take(taken as int) + (old(queue)@ + data@.skip(taken as int)) =~= data@);
    }
    assert(old(later)@.take(written as int) + old(later)@.skip(written as int) =~= old(later)@);
}

/// Law: what is read is gathered in its order until there is no more; what was gathered is passed on, and
/// nothing is passed on where nothing came.
pub proof fn law_gathering(batch: &mut Vec<u8>, data: &[u8], step: ReadStep, rest: &mut Vec<u8>, then_step: ReadStep)
    requires
        call_ensures(after_read_attempt, (batch, ReadAttempt::Data(data)), step),
        *old(rest) == *final(batch),
        call_ensures(after_read_attempt, (rest, ReadAttempt::WouldBlock), then_step),
    ensures
        step == ReadStep::Again,
        final(rest)@ == old(batch)@ + data@,
        old(batch)@.len() + data@.len() > 0 ==> then_step == ReadStep::Process,
        old(batch)@.len() + data@.len() == 0 ==> then_step == ReadStep::Wait,
{
}

/// Law: a flush gives the generation after the last to the snapshot, and only where somebody waits; it
/// touches neither the queue nor what is known of title and screen.
pub proof fn law_flushing(
    reader: &mut Reader,
    shared: &mut PtyShared,
    snapshot: Option<Snapshot>,
    degraded: bool,
    out: &mut Vec<Emit>,
    again: &mut Reader,
    same: &mut PtyShared,
    more: &mut Vec<Emit>,
)
    requires
        call_ensures(Reader::flush_refreshes, (reader, shared, snapshot, degraded, out), ()),
        old(again)@ == final(reader)@,
        *old(same) == *final(shared),
        call_ensures(Reader::flush_refreshes, (again, same, snapshot, degraded, more), ()),
        old(shared).generation < u64::MAX,
    ensures
        old(reader)@.wants_refresh() ==> final(shared).generation == old(shared).generation + 1,
        !old(reader)@.wants_refresh() ==> final(shared).generation == old(shared).generation && emitted(final(out)@)
            == emitted(old(out)@),
        final(shared).title == old(shared).title && final(shared).cols == old(shared).cols && final(shared).rows
            == old(shared).rows && final(shared).subscribers == old(shared).subscribers,
        !final(reader)@.wants_refresh(),
        final(reader)@.pending_out == old(reader)@.pending_out,
        final(reader)@.prev_title == old(reader)@.prev_title,
        final(reader)@.prev_screen == old(reader)@.prev_screen,
        emitted(final(more)@) == emitted(old(more)@),
        *final(same) == *old(same),
{
}

/// Law: between two escape sequences everybody who waits gets a snapshot that is whole, and elsewhere nobody
/// gets one, and they go on waiting.
pub proof fn law_only_between_sequences(
    reader: &mut Reader,
    shared: &mut PtyShared,
    snapshot: Snapshot,
    out: &mut Vec<Emit>,
    midway: &mut Reader,
    same: &mut PtyShared,
    more: &mut Vec<Emit>,
)
    requires
        call_ensures(Reader::flush_refreshes_if_at_boundary, (reader, shared, true, Some(snapshot), out), ()),
        call_ensures(Reader::flush_refreshes_if_at_boundary, (midway, same, false, Some(snapshot), more), ()),
        old(reader)@.broadcast,
    ensures
        !final(reader)@.wants_refresh(),
        emitted(final(out)@).last() == EmitModel::Refresh(
            RefreshModel {
                generation: next_generation(old(shared).generation),
                data: held_bytes(snapshot.data),
                cols: snapshot.cols,
                rows: snapshot.rows,
                degraded: false,
            },
        ),
        emitted(final(out)@).len() > emitted(old(out)@).len(),
        final(midway)@ == old(midway)@,
        emitted(final(more)@) == emitted(old(more)@),
        *final(same) == *old(same),
{
    law_broadcasts_go_out(old(reader)@, old(shared).generation, snapshot, false);
}

/// Law: what is read is given out with generations that count on from the last, and the generation that is
/// named is that of the last output given out. Where nobody waits it is given out whole, wherever it could
/// be split; where somebody waits and it can be split behind its end, the snapshot comes last.
pub proof fn law_generations_of_output(
    m: ReaderModel,
    generation: u64,
    batch: Seq<u8>,
    split: Option<usize>,
    snapshot: Option<Snapshot>,
)
    requires
        generation <= u64::MAX - 3,
        split matches Some(at) ==> at <= batch.len(),
    ensures
        ({
            let r = read_outcome(m, generation, batch, split, snapshot);
            &&& r.emits.len() > 0
            &&& r.emits[0] matches EmitModel::Data { generation: first, .. } && first == generation + 1
            &&& r.generation <= generation + 3
            &&& r.last_data <= r.generation
            &&& exists|i: int|
                0 <= i < r.emits.len() && (#[trigger] r.emits[i] matches EmitModel::Data { generation: g, .. } && g
                    == r.last_data)
        }),
        !m.wants_refresh() || split is None ==> {
            let r = read_outcome(m, generation, batch, split, snapshot);
            &&& r.emits == seq![EmitModel::Data { generation: (generation + 1) as u64, data: batch }]
            &&& r.generation == generation + 1
            &&& r.last_data == generation + 1
            &&& r.next == m
        },
        m.wants_refresh() && split == Some(batch.len() as usize) && batch.len() <= usize::MAX ==> {
            let r = read_outcome(m, generation, batch, split, snapshot);
            &&& r.emits == seq![EmitModel::Data { generation: (generation + 1) as u64, data: batch }] + flush_emits(
                m,
                (generation + 1) as u64,
                snapshot,
                false,
            )
            &&& r.generation == generation + 2
            &&& r.last_data == generation + 1
            &&& !r.next.wants_refresh()
        },
{
    let r = read_outcome(m, generation, batch, split, snapshot);
    let n = r.emits.len();
    assert(r.emits[0] is Data);
    assert(r.emits[n - 1] is Data || r.emits[0]->Data_generation == r.last_data);
    assert(batch.take(batch.len() as int) =~= batch);
}

/// Law: the operation that passes a read on gives out all of it, in order, behind what was given out before.
pub proof fn law_reading(
    reader: &mut Reader,
    shared: &mut PtyShared,
    batch: Bytes,
    split: Option<usize>,
    snapshot: Option<Snapshot>,
    out: &mut Vec<Emit>,
    generation: u64,
)
    requires
        split matches Some(at) ==> at <= held_bytes(batch).len(),
        old(shared).generation <= u64::MAX - 3,
        call_ensures(Reader::process_read, (reader, shared, batch, split, snapshot, out), generation),
    ensures
        output_of(emitted(final(out)@)) == output_of(emitted(old(out)@)) + held_bytes(batch),
        emitted(final(out)@).len() > emitted(old(out)@).len(),
        forall|i: int| 0 <= i < emitted(old(out)@).len() ==> #[trigger] emitted(final(out)@)[i] == emitted(old(out)@)[i],
        old(shared).generation < generation <= final(shared).generation <= old(shared).generation + 3,
        final(shared).title == old(shared).title && final(shared).subscribers == old(shared).subscribers,
        final(reader)@.pending_out == old(reader)@.pending_out,
{
    let r = read_outcome(old(reader)@, old(shared).generation, held_bytes(batch), split, snapshot);
    law_read_is_passed_on(old(reader)@, old(shared).generation, held_bytes(batch), split, snapshot);
    law_generations_of_output(old(reader)@, old(shared).generation, held_bytes(batch), split, snapshot);
    lemma_output_join(emitted(old(out)@), r.emits);
    let e = emitted(old(out)@) + r.emits;
    assert forall|i: int| 0 <= i < emitted(old(out)@).len() implies #[trigger] emitted(final(out)@)[i] == emitted(
        old(out)@,
    )[i] by {
        assert(e[i] == emitted(old(out)@)[i]);
    }
}

/// Law: whoever still waits when the process ends is answered behind the last line, with the last screen; and
/// so is whoever asks afterwards. A process that did not end itself has no code.
pub proof fn law_nobody_is_left_waiting(
    reader: &mut Reader,
    shared: &mut PtyShared,
    status: ExitStatus,
    snapshot: Option<Snapshot>,
    out: &mut Vec<Emit>,
    left: &mut Reader,
    later: &mut Vec<Emit>,
)
    requires
        call_ensures(Reader::cleanup, (reader, shared, status, snapshot, out), ()),
        call_ensures(Reader::answer_leftovers, (left, &*final(shared), snapshot, later), ()),
    ensures
        answered(emitted(final(out)@)) == answered(emitted(old(out)@)) + (old(reader)@.replies + delivery_tickets(
            old(reader)@.deliveries,
        )),
        output_of(emitted(final(out)@)) == output_of(emitted(old(out)@)) + exit_text(old(shared).title@, status),
        final(reader)@.replies.len() == 0 && final(reader)@.deliveries.len() == 0,
        answered(emitted(final(later)@)) == answered(emitted(old(later)@)) + (old(left)@.replies + delivery_tickets(
            old(left)@.deliveries,
        )),
        output_of(emitted(final(later)@)) == output_of(emitted(old(later)@)),
        final(left)@.replies.len() == 0 && final(left)@.deliveries.len() == 0,
        final(left)@.exit_code == old(left)@.exit_code,
        status == ExitStatus::Killed || status == ExitStatus::Unknown ==> final(reader)@.exit_code is None,
{
    let sent = as_sent(snapshot, next_generation(old(shared).generation), false);
    let line = EmitModel::Data {
        generation: next_generation(old(shared).generation),
        data: exit_text(old(shared).title@, status),
    };
    let before = emitted(old(out)@);
    lemma_answers(before.push(line), old(reader)@.replies, old(reader)@.deliveries, sent);
    assert(before.push(line).drop_last() =~= before);
    let since = as_sent(snapshot, final(shared).generation, false);
    lemma_answers(emitted(old(later)@), old(left)@.replies, old(left)@.deliveries, since);
}

proof fn lemma_answers(
    before: Seq<EmitModel>,
    replies: Seq<u64>,
    deliveries: Seq<(Seq<char>, u64)>,
    sent: Option<RefreshModel>,
)
    ensures
        answered(before + reply_emits(replies, sent) + delivery_emits(deliveries, sent)) == answered(before) + (replies
            + delivery_tickets(deliveries)),
        output_of(before + reply_emits(replies, sent) + delivery_emits(deliveries, sent)) == output_of(before),
{
    let a = reply_emits(replies, sent);
    let b = delivery_emits(deliveries, sent);
    lemma_answered_join(before, a);
    lemma_answered_join(before + a, b);
    lemma_replies_answered(replies, sent);
    lemma_deliveries_answered(deliveries, sent);
    assert((answered(before) + replies) + delivery_tickets(deliveries) =~= answered(before) + (replies
        + delivery_tickets(deliveries)));
    lemma_output_join(before, a);
    lemma_output_join(before + a, b);
    lemma_no_output(a);
    lemma_delivery_emits(deliveries, sent);
    lemma_no_output(b);
    assert(output_of(before) + Seq::<u8>::empty() =~= output_of(before));
}

/// Law: a reader waits for room in the PTY as long as input is queued. It waits without end while nobody wants
/// a snapshot, and otherwise at most for a second.
pub proof fn law_waiting_for_the_pty(reader: &Reader, plan: PollPlan)
    requires
        call_ensures(Reader::poll_plan, (reader,), plan),
    ensures
        plan.watch_writable <==> reader@.pending_out.len() > 0,
        plan.timeout_ms < 0 <==> reader@.replies.len() == 0 && reader@.deliveries.len() == 0 && !reader@.broadcast,
        plan.timeout_ms >= 0 ==> plan.timeout_ms == 1000,
{
}

/// Law: a wait that a signal broke off is taken up again; one that failed, or after which nobody can wake the
/// reader, is the last. One that came to its end without anything calls for the snapshot; after any other what
/// can be written is written and what can be read is read.
pub proof fn law_after_waiting(result: PollResult, step: PollStep)
    requires
        call_ensures(after_poll, (result,), step),
    ensures
        result.ready < 0 && result.interrupted ==> step == PollStep::Retry,
        result.ready < 0 && !result.interrupted ==> step == PollStep::Exit,
        result.ready >= 0 && result.wakeup_closed ==> step == PollStep::Exit,
        result.ready == 0 && !result.wakeup_closed ==> step == PollStep::Stalled,
        result.ready > 0 && !result.wakeup_closed ==> (step matches PollStep::Proceed { write, read } && write
            == result.master_writable && read == result.master_readable),
{
}

/// Law: the terminal takes the bytes of a read one after the other, and none after the first place where it
/// stands between two sequences; that place is what was found, and it stays so.
pub proof fn law_scanning(
    scan: &mut BoundaryScan,
    at: Option<usize>,
    at_boundary: bool,
    next: Option<usize>,
    len: usize,
    fresh: BoundaryScan,
)
    requires
        call_ensures(BoundaryScan::next_byte, (&*old(scan),), at),
        at is Some,
        call_ensures(BoundaryScan::on_fed, (scan, at_boundary), ()),
        call_ensures(BoundaryScan::next_byte, (&*final(scan),), next),
        call_ensures(BoundaryScan::new, (len,), fresh),
    ensures
        at == Some(old(scan).fed),
        old(scan).fed < old(scan).len,
        at_boundary ==> final(scan).split == Some((old(scan).fed + 1) as usize) && next is None,
        !at_boundary ==> final(scan).split is None,
        !at_boundary && old(scan).fed + 1 < old(scan).len ==> next == Some((old(scan).fed + 1) as usize),
        !at_boundary && old(scan).fed + 1 == old(scan).len ==> next is None,
        final(scan).len == old(scan).len,
        fresh.fed == 0 && fresh.split is None && fresh.len == len,
{
}

/// Law: writing begins with the first byte, if there is one; and a PTY that is gone has nothing queued any more.
pub proof fn law_first_and_last_write(
    len: usize,
    next: WriteNext,
    queue: &mut Vec<u8>,
    data: &[u8],
    cap: usize,
    rest: &mut Vec<u8>,
)
    requires
        call_ensures(first_write, (len,), next),
        old(queue)@.len() == 0,
        call_ensures(queue_write, (queue, data, WriteOutcome::Failed, cap), ()),
        call_ensures(flush_pending, (rest, None), ()),
    ensures
        len > 0 ==> next == WriteNext::From(0),
        len == 0 ==> next == WriteNext::Done(0),
        final(queue)@.len() == 0,
        final(rest)@.len() == 0,
{
}

/// Law: input that finds older input queued is not written before it. Input, sizes and views of the history are
/// handed on as they were asked for, and change nothing by themselves.
pub proof fn law_requests_are_handed_on(
    reader: &mut Reader,
    data: Bytes,
    step: RequestStep,
    resizing: &mut Reader,
    cols: u32,
    rows: u32,
    ticket: u64,
    resize: RequestStep,
    scrolling: &mut Reader,
    subscriber_id: String,
    op: ScrollbackOp,
    amount: i32,
    row_count: u32,
    scrollback: RequestStep,
)
    requires
        call_ensures(Reader::handle_request, (reader, ReaderRequest::Write(data)), step),
        call_ensures(Reader::handle_request, (resizing, ReaderRequest::Resize { cols, rows, ticket }), resize),
        call_ensures(
            Reader::handle_request,
            (scrolling, ReaderRequest::Scrollback { subscriber_id, op, amount, row_count, ticket }),
            scrollback,
        ),
    ensures
        step matches RequestStep::Write { data: written, now } && written == data && (now <==> old(
            reader,
        )@.pending_out.len() == 0),
        final(reader)@ == old(reader)@,
        resize == (RequestStep::Resize { cols, rows, ticket }),
        final(resizing)@ == old(resizing)@,
        scrollback matches RequestStep::Scrollback { subscriber_id: s, op: o, amount: a, row_count: r, ticket: t } && s@
            == subscriber_id@ && o == op && a == amount && r == row_count && t == ticket,
        final(scrolling)@ == old(scrolling)@,
{
}

/// Law: after the end input is dropped, a size is refused, and a snapshot is still noted, under the same ticket.
pub proof fn law_requests_after_the_end(
    reader: &mut Reader,
    data: Bytes,
    step: RequestStep,
    resizing: &mut Reader,
    cols: u32,
    rows: u32,
    ticket: u64,
    resize: RequestStep,
    refreshing: &mut Reader,
    refresh: RequestStep,
    delivering: &mut Reader,
    subscriber_id: String,
    delivery: RequestStep,
)
    requires
        call_ensures(Reader::handle_leftover, (reader, ReaderRequest::Write(data)), step),
        call_ensures(Reader::handle_leftover, (resizing, ReaderRequest::Resize { cols, rows, ticket }), resize),
        call_ensures(Reader::handle_leftover, (refreshing, ReaderRequest::Refresh { ticket }), refresh),
        call_ensures(Reader::handle_leftover, (delivering, ReaderRequest::Deliver { subscriber_id, ticket }), delivery),
    ensures
        step == RequestStep::Drop,
        resize == (RequestStep::Refuse { ticket }),
        final(reader)@ == old(reader)@ && final(resizing)@ == old(resizing)@,
        refresh == RequestStep::Noted && delivery == RequestStep::Noted,
        final(refreshing)@.replies == old(refreshing)@.replies.push(ticket),
        final(refreshing)@.deliveries == old(refreshing)@.deliveries,
        final(delivering)@.deliveries == old(delivering)@.deliveries.push((subscriber_id@, ticket)),
        final(delivering)@.replies == old(delivering)@.replies,
{
}

/// Law: nobody waits for anything of a reader that has just begun, and it tells no title before the program sets
/// one.
pub proof fn law_readers_begin(
    pts_name: &String,
    reader: Reader,
    first: &mut Reader,
    shared: &PtyShared,
    generation: u64,
    out: &mut Vec<Emit>,
)
    requires
        call_ensures(Reader::new, (pts_name,), reader),
        *old(first) == reader,
        shared.title@ == pts_name@,
        call_ensures(Reader::after_read, (first, shared, Screen::Primary, generation, out), ()),
    ensures
        !reader@.wants_refresh(),
        reader@.pending_out.len() == 0,
        reader@.exit_code is None,
        final(out)@ == old(out)@,
        !final(first)@.wants_refresh(),
{
}

/// Law: a snapshot is stamped with the generation that is given, and is otherwise what it was.
pub proof fn law_stamping(snapshot: Snapshot, generation: u64, degraded: bool, data: RefreshData, reason: &str, answer: String)
    requires
        call_ensures(Snapshot::stamped, (snapshot, generation, degraded), data),
        call_ensures(refresh_failure, (reason,), answer),
    ensures
        data.generation == generation,
        data.degraded == degraded,
        held_bytes(data.data) == held_bytes(snapshot.data),
        data.cols == snapshot.cols && data.rows == snapshot.rows,
        answer@ == "refresh failed: "@ + reason@,
{
}

/// Law: the end of the output, and an error, end the reading, and what was gathered before stays as it is.
pub proof fn law_end_of_output(batch: &mut Vec<u8>, step: ReadStep, other: &mut Vec<u8>, failed: ReadStep)
    requires
        call_ensures(after_read_attempt, (batch, ReadAttempt::Eof), step),
        call_ensures(after_read_attempt, (other, ReadAttempt::Failed), failed),
    ensures
        step == ReadStep::Exit && failed == ReadStep::Exit,
        final(batch)@ == old(batch)@ && final(other)@ == old(other)@,
{
}

} // verus!
