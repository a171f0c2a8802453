use bytes::Bytes;
use termd::pty::reader::{
    after_poll, after_read_attempt, exit_message, first_write, flush_pending, queue_write, refresh_failure, write_some,
    BoundaryScan, Emit, ExitStatus, PollResult, PollStep, ReadAttempt, ReadStep, Reader, ReaderRequest,
    RequestStep, Screen, Snapshot, WriteAttempt, WriteNext, WriteOutcome, MAX_PENDING_INPUT,
};
use termd::pty::{MetadataReason, PtyEvent, PtyShared, ScrollbackOp, UnixTime};

/// A terminal that knows where escape sequences begin and end, and nothing else.
struct Terminal {
    inside: Option<u8>,
    taken: Vec<u8>,
}

impl Terminal {
    fn vt_write(&mut self, data: &[u8]) {
        for &b in data {
            self.taken.push(b);
            self.inside = match (self.inside, b) {
                (None, 0x1b) => Some(0x1b),
                (Some(0x1b), b'[') => Some(b'['),
                (Some(0x1b), b']') => Some(b']'),
                (Some(b'['), 0x40..=0x7e) => None,
                (Some(b']'), 0x07) => None,
                (Some(0x1b), _) => None,
                (inside, _) => inside,
            };
        }
    }

    fn vt_at_boundary(&self) -> bool {
        self.inside.is_none()
    }

    fn snapshot(&self) -> Option<Snapshot> {
        Some(Snapshot { data: Bytes::from(self.taken.clone()), cols: 80, rows: 24 })
    }
}

fn make_terminal() -> Terminal {
    Terminal { inside: None, taken: Vec::new() }
}

fn make_shared() -> PtyShared {
    let now = UnixTime { secs: 0, nanos: 0 };
    termd::pty::PtyHandle::new(80, 24, "box".to_string(), "/dev/pts/1".to_string(), now).shared
}

fn make_reader() -> Reader {
    Reader::new(&"/dev/pts/1".to_string())
}

/// Feeds one read to the terminal and the reader, as the read loop does.
fn process_read(t: &mut Terminal, reader: &mut Reader, shared: &mut PtyShared, data: &'static [u8]) -> Vec<Emit> {
    let mut out = Vec::new();
    let mut split = None;
    let mut snapshot = None;
    let mut fed = 0;
    if reader.wants_refresh() {
        let mut scan = BoundaryScan::new(data.len());
        while let Some(i) = scan.next_byte() {
            t.vt_write(&data[i..i + 1]);
            scan.on_fed(t.vt_at_boundary());
        }
        fed = scan.fed;
        split = scan.split;
        snapshot = t.snapshot();
    }
    t.vt_write(&data[fed..]);
    reader.process_read(shared, Bytes::from_static(data), split, snapshot, &mut out);
    out
}

fn event(e: &Emit) -> &PtyEvent {
    match e {
        Emit::Event(e) => e,
        _ => panic!("expected an event"),
    }
}

// With no refresh waiting, a read is written and broadcast unchanged — one
// Data chunk, no splitting, no Refresh.
#[test]
fn no_pending_refresh_emits_single_data_chunk() {
    let mut t = make_terminal();
    let mut reader = make_reader();
    let mut shared = make_shared();

    let events = process_read(&mut t, &mut reader, &mut shared, b"hello");

    assert_eq!(events.len(), 1, "expected a single Data chunk");
    match event(&events[0]) {
        PtyEvent::Data(c) => assert_eq!(&c.data[..], b"hello"),
        _ => panic!("expected Data"),
    }
}

// The core case: a refresh is pending and the parser is mid-sequence (the
// previous read ended inside a CSI). The read is split at the first ground
// boundary into head + tail, with the snapshot pinned strictly between them.
#[test]
fn pending_refresh_splits_read_at_boundary_into_head_refresh_tail() {
    let mut t = make_terminal();
    t.vt_write(b"\x1b[31"); // leave the parser mid-SGR
    assert!(!t.vt_at_boundary());

    let mut reader = make_reader();
    let mut shared = make_shared();
    reader.pending_broadcast_refresh = true; // a resize/screen-switch broadcast refresh is waiting

    // 'm' completes the SGR (first boundary); "hello" is the clean tail.
    let events = process_read(&mut t, &mut reader, &mut shared, b"mhello");

    assert_eq!(events.len(), 3, "expected head Data + Refresh + tail Data");
    let (head_gen, head) = match event(&events[0]) {
        PtyEvent::Data(c) => (c.generation, c.data.clone()),
        _ => panic!("expected head Data"),
    };
    let refresh_gen = match event(&events[1]) {
        PtyEvent::Refresh(r) => r.generation,
        _ => panic!("expected Refresh"),
    };
    let (tail_gen, tail) = match event(&events[2]) {
        PtyEvent::Data(c) => (c.generation, c.data.clone()),
        _ => panic!("expected tail Data"),
    };

    assert_eq!(&head[..], b"m", "head completes the open sequence");
    assert_eq!(&tail[..], b"hello", "tail is the clean remainder");
    let mut joined = head.to_vec();
    joined.extend_from_slice(&tail);
    assert_eq!(joined, b"mhello", "head ++ tail reconstructs the read exactly");
    assert!(
        head_gen < refresh_gen && refresh_gen < tail_gen,
        "snapshot must sit between head and tail: head={head_gen} refresh={refresh_gen} tail={tail_gen}"
    );
    assert!(!reader.pending_broadcast_refresh, "the pending refresh was flushed at the boundary");
}

// When the entire read sits inside one unfinished sequence there is no boundary
// to split on: broadcast it whole and keep the refresh pending for a later read.
#[test]
fn read_entirely_inside_sequence_emits_whole_and_keeps_pending() {
    let mut t = make_terminal();
    t.vt_write(b"\x1b]0;tit"); // mid-OSC, no terminator
    assert!(!t.vt_at_boundary());

    let mut reader = make_reader();
    let mut shared = make_shared();
    reader.pending_broadcast_refresh = true;

    // More OSC body, still no ST/BEL — the read never reaches ground.
    let events = process_read(&mut t, &mut reader, &mut shared, b"le-more");

    assert_eq!(events.len(), 1, "no boundary => single whole-read Data, no Refresh");
    match event(&events[0]) {
        PtyEvent::Data(c) => assert_eq!(&c.data[..], b"le-more"),
        _ => panic!("expected Data"),
    }
    assert!(reader.pending_broadcast_refresh, "refresh stays pending until a boundary arrives");
}

// The boundary can fall at the very end of the read, leaving an empty tail —
// we emit head + Refresh and skip the empty tail Data.
#[test]
fn split_with_empty_tail_emits_head_and_refresh_only() {
    let mut t = make_terminal();
    t.vt_write(b"\x1b[31"); // mid-SGR
    let mut reader = make_reader();
    let mut shared = make_shared();
    reader.pending_broadcast_refresh = true;

    // 'm' completes the SGR and the read ends exactly at the boundary.
    let events = process_read(&mut t, &mut reader, &mut shared, b"m");

    assert_eq!(events.len(), 2, "head + Refresh only; no empty tail Data");
    assert!(matches!(event(&events[0]), PtyEvent::Data(_)), "first event is head Data");
    assert!(matches!(event(&events[1]), PtyEvent::Refresh(_)), "second event is Refresh");
    assert!(!reader.pending_broadcast_refresh, "the pending refresh was flushed at the boundary");
}

// The reader's parser must mirror the real byte stream exactly, because
// vt_at_boundary() (used to choose split points) reads that parser state. When a
// split happens, the tail must still be applied to the terminal.
#[test]
fn split_applies_tail_to_terminal_so_parser_stays_in_sync() {
    let mut t = make_terminal();
    t.vt_write(b"\x1b[31"); // leave the parser mid-SGR
    assert!(!t.vt_at_boundary());

    let mut reader = make_reader();
    let mut shared = make_shared();
    reader.pending_broadcast_refresh = true;

    // 'm' completes the SGR (first boundary); the tail "hello\x1b[1" ends mid-CSI.
    process_read(&mut t, &mut reader, &mut shared, b"mhello\x1b[1");

    assert!(
        !t.vt_at_boundary(),
        "tail must be applied to the terminal; parser should still be mid-sequence"
    );
}

// The stall-timeout flush stamps degraded=true on both the on-demand reply and
// the broadcast refresh; a boundary-clean flush leaves it false. This is the only
// signal the client gets that a snapshot was forced out mid-sequence.
#[test]
fn flush_refreshes_marks_degraded_only_on_the_stall_path() {
    let t = make_terminal();
    let mut reader = make_reader();
    let mut shared = make_shared();
    for degraded in [true, false] {
        reader.pending_replies = vec![7];
        reader.pending_broadcast_refresh = true;
        let mut out = Vec::new();
        reader.flush_refreshes(&mut shared, t.snapshot(), degraded, &mut out);
        assert_eq!(out.len(), 2);
        match &out[0] {
            Emit::Reply { ticket, data } => {
                assert_eq!(*ticket, 7);
                let reply = data.as_ref().expect("refresh failed");
                assert_eq!(reply.degraded, degraded, "the reply says how the snapshot was taken");
            }
            _ => panic!("reply not sent"),
        }
        match event(&out[1]) {
            PtyEvent::Refresh(r) => assert_eq!(r.degraded, degraded, "and so does the broadcast"),
            _ => panic!("expected Refresh"),
        }
        assert!(!reader.wants_refresh());
    }
}

/// Stands for a PTY that takes so much input until it is read.
struct Pipe {
    held: Vec<u8>,
    room: usize,
}

impl Pipe {
    fn write(&mut self, data: &[u8]) -> WriteAttempt {
        let n = data.len().min(self.room - self.held.len());
        if n == 0 {
            return WriteAttempt::WouldBlock;
        }
        self.held.extend_from_slice(&data[..n]);
        WriteAttempt::Accepted(n)
    }

    fn write_all(&mut self, data: &[u8]) -> Option<usize> {
        let mut next = first_write(data.len());
        loop {
            match next {
                WriteNext::From(at) => next = write_some(data.len(), at, self.write(&data[at..])),
                WriteNext::Done(n) => return Some(n),
                WriteNext::Failed => return None,
            }
        }
    }

    fn drain(&mut self) -> Vec<u8> {
        std::mem::take(&mut self.held)
    }
}

fn queue(pipe: &mut Pipe, pending: &mut Vec<u8>, data: &[u8], cap: usize) {
    let outcome = if pending.is_empty() {
        match pipe.write_all(data) {
            Some(n) => WriteOutcome::Wrote(n),
            None => WriteOutcome::Failed,
        }
    } else {
        WriteOutcome::NotTried
    };
    queue_write(pending, data, outcome, cap);
}

#[test]
fn queue_write_writes_directly_when_buffer_empty() {
    let mut pipe = Pipe { held: Vec::new(), room: 65536 };
    let mut pending = Vec::new();
    queue(&mut pipe, &mut pending, b"hello", MAX_PENDING_INPUT);
    assert!(pending.is_empty(), "small write must go straight through");
    assert_eq!(pipe.drain(), b"hello");
}

#[test]
fn queue_write_buffers_tail_on_full_pipe_and_flush_preserves_order() {
    let mut pipe = Pipe { held: Vec::new(), room: 65000 };
    let mut pending = Vec::new();
    // Fill the pipe until a tail lands in the buffer.
    let chunk = [b'a'; 4096];
    while pending.is_empty() {
        queue(&mut pipe, &mut pending, &chunk, MAX_PENDING_INPUT);
    }
    // With bytes pending, later writes append instead of jumping the queue.
    queue(&mut pipe, &mut pending, b"WORLD", MAX_PENDING_INPUT);
    assert!(pending.ends_with(b"WORLD"));

    // Drain the pipe, flush, repeat: every byte arrives, in order.
    let mut received = pipe.drain();
    while !pending.is_empty() {
        let written = pipe.write_all(&pending);
        flush_pending(&mut pending, written);
        received.extend_from_slice(&pipe.drain());
    }
    assert!(received.ends_with(b"WORLD"), "buffered tail must arrive last");
    let body = &received[..received.len() - 5];
    assert!(body.iter().all(|&b| b == b'a'), "no reordering or corruption");
}

#[test]
fn queue_write_drops_beyond_cap_keeps_buffer_intact() {
    let mut pipe = Pipe { held: Vec::new(), room: 65536 };
    let mut pending = vec![b'x'; 10]; // non-empty => no direct-write path
    queue(&mut pipe, &mut pending, b"toolarge", 12); // 10 + 8 > 12: dropped
    assert_eq!(pending.len(), 10);
    queue(&mut pipe, &mut pending, b"ok", 12); // 10 + 2 <= 12: appended
    assert_eq!(pending.len(), 12);
    assert!(pending.ends_with(b"ok"));
}

#[test]
fn input_for_a_pty_that_is_gone_is_dropped() {
    let mut pending = Vec::new();
    queue_write(&mut pending, b"abc", WriteOutcome::Failed, MAX_PENDING_INPUT);
    assert!(pending.is_empty());
    pending = b"abc".to_vec();
    flush_pending(&mut pending, None);
    assert!(pending.is_empty());
    pending = b"abc".to_vec();
    flush_pending(&mut pending, Some(2));
    assert_eq!(pending, b"c");
}

#[test]
fn how_writing_goes_on() {
    assert_eq!(first_write(0), WriteNext::Done(0));
    assert_eq!(first_write(3), WriteNext::From(0));
    assert_eq!(write_some(10, 4, WriteAttempt::Accepted(3)), WriteNext::From(7));
    assert_eq!(write_some(10, 4, WriteAttempt::Accepted(6)), WriteNext::Done(10));
    assert_eq!(write_some(10, 4, WriteAttempt::Accepted(0)), WriteNext::Done(4));
    assert_eq!(write_some(10, 4, WriteAttempt::WouldBlock), WriteNext::Done(4));
    assert_eq!(write_some(10, 4, WriteAttempt::Interrupted), WriteNext::From(4));
    assert_eq!(write_some(10, 4, WriteAttempt::Failed), WriteNext::Failed);
}

#[test]
fn everybody_who_waits_gets_the_one_snapshot() {
    let mut reader = make_reader();
    let mut shared = make_shared();
    reader.request_refresh(1);
    reader.request_refresh(2);
    reader.request_delivery("me".to_string(), 3);
    assert!(reader.wants_refresh());
    assert_eq!(reader.poll_plan().timeout_ms, 1000);
    let mut out = Vec::new();
    let snapshot = Some(Snapshot { data: Bytes::from_static(b"S"), cols: 80, rows: 24 });
    reader.flush_refreshes(&mut shared, snapshot, false, &mut out);
    assert_eq!(shared.generation, 1, "one snapshot, one generation");
    let told: Vec<String> = out
        .iter()
        .map(|e| match e {
            Emit::Reply { ticket, data } => format!("reply {ticket} {}", data.is_some()),
            Emit::Delivered { ticket, ok } => format!("delivered {ticket} {ok}"),
            Emit::Event(PtyEvent::RefreshFor { subscriber_id, data }) => {
                format!("for {subscriber_id} {}", data.generation)
            }
            _ => "other".to_string(),
        })
        .collect();
    assert_eq!(told, ["reply 1 true", "reply 2 true", "for me 1", "delivered 3 true"]);
    assert_eq!(reader.poll_plan().timeout_ms, -1);
}

#[test]
fn without_a_snapshot_everybody_is_told_so() {
    let mut reader = make_reader();
    let mut shared = make_shared();
    reader.request_refresh(1);
    reader.request_delivery("me".to_string(), 3);
    reader.pending_broadcast_refresh = true;
    let mut out = Vec::new();
    reader.flush_refreshes(&mut shared, None, false, &mut out);
    assert_eq!(out.len(), 2);
    assert!(matches!(out[0], Emit::Reply { ticket: 1, data: None }));
    assert!(matches!(out[1], Emit::Delivered { ticket: 3, ok: false }));
    assert!(!reader.wants_refresh());
}

#[test]
fn another_screen_or_title_is_noticed() {
    let mut reader = make_reader();
    let mut shared = make_shared();
    let mut out = Vec::new();
    reader.after_read(&shared, Screen::Primary, 4, &mut out);
    assert!(out.is_empty() && !reader.wants_refresh());
    shared.title = "vim".to_string();
    reader.after_read(&shared, Screen::Alternate, 5, &mut out);
    assert!(reader.pending_broadcast_refresh);
    match &out[..] {
        [Emit::Meta(m)] => {
            assert_eq!(m.reason, MetadataReason::TitleChanged);
            assert_eq!((m.generation, m.info.title.as_str()), (5, "vim"));
        }
        _ => panic!("expected one notice"),
    }
}

#[test]
fn a_resize_is_told_and_calls_for_a_snapshot() {
    let mut reader = make_reader();
    let mut shared = make_shared();
    let mut out = Vec::new();
    reader.apply_resize(&mut shared, 100, 30, false, &mut out);
    assert!(out.is_empty() && !reader.wants_refresh() && shared.cols == 80);
    reader.apply_resize(&mut shared, 100, 30, true, &mut out);
    assert!(reader.wants_refresh());
    assert_eq!((shared.cols, shared.rows), (100, 30));
    match &out[..] {
        [Emit::Meta(m)] => {
            assert_eq!(m.reason, MetadataReason::Resize);
            assert_eq!((m.info.cols, m.info.rows), (100, 30));
        }
        _ => panic!("expected one notice"),
    }
}

#[test]
fn the_end_is_announced_and_answers_who_waits() {
    let mut reader = make_reader();
    let mut shared = make_shared();
    reader.request_refresh(9);
    let mut out = Vec::new();
    let snapshot = Some(Snapshot { data: Bytes::from_static(b"S"), cols: 80, rows: 24 });
    reader.cleanup(&mut shared, ExitStatus::Exited(3), snapshot, &mut out);
    match event(&out[0]) {
        PtyEvent::Data(c) => {
            assert_eq!(&c.data[..], &b"\r\n[Command /dev/pts/1 exited with code 3]\r\n"[..]);
            assert_eq!(c.generation, 1);
        }
        _ => panic!("expected Data"),
    }
    assert!(matches!(out[1], Emit::Reply { ticket: 9, data: Some(_) }));
    let meta = reader.closed_metadata(&shared);
    assert_eq!((meta.reason, meta.exit_code, meta.generation), (MetadataReason::Closed, Some(3), 1));
    assert_eq!(meta.info.id, shared.id);
}

#[test]
fn words_for_the_end() {
    let title = "sh".to_string();
    assert_eq!(exit_message(&title, ExitStatus::Exited(-1)), b"\r\n[Command sh exited with code -1]\r\n");
    assert_eq!(exit_message(&title, ExitStatus::Killed), b"\r\n[Command sh was killed]\r\n");
    assert_eq!(exit_message(&title, ExitStatus::Unknown), b"\r\n[Command sh terminated]\r\n");
    assert_eq!(refresh_failure("no grid"), "refresh failed: no grid");
}

#[test]
fn requests_while_the_process_runs() {
    let mut reader = make_reader();
    let write = || ReaderRequest::Write(Bytes::from_static(b"x"));
    assert!(matches!(reader.handle_request(write()), RequestStep::Write { now: true, .. }));
    reader.pending_out.push(b'y');
    assert!(matches!(reader.handle_request(write()), RequestStep::Write { now: false, .. }));
    assert!(reader.poll_plan().watch_writable);
    let resize = ReaderRequest::Resize { cols: 1, rows: 2, ticket: 3 };
    assert!(matches!(reader.handle_request(resize), RequestStep::Resize { cols: 1, rows: 2, ticket: 3 }));
    assert!(matches!(reader.handle_request(ReaderRequest::Refresh { ticket: 4 }), RequestStep::Noted));
    assert_eq!(reader.pending_replies, [4]);
    let deliver = ReaderRequest::Deliver { subscriber_id: "me".to_string(), ticket: 5 };
    assert!(matches!(reader.handle_request(deliver), RequestStep::Noted));
    assert_eq!(reader.pending_deliveries[0].ticket, 5);
}

#[test]
fn requests_after_the_process_ended() {
    let mut reader = make_reader();
    let shared = make_shared();
    let write = ReaderRequest::Write(Bytes::from_static(b"x"));
    assert!(matches!(reader.handle_leftover(write), RequestStep::Drop));
    let resize = ReaderRequest::Resize { cols: 1, rows: 2, ticket: 3 };
    assert!(matches!(reader.handle_leftover(resize), RequestStep::Refuse { ticket: 3 }));
    let scroll = ReaderRequest::Scrollback {
        subscriber_id: "me".to_string(), op: ScrollbackOp::Open, amount: 0, row_count: 5, ticket: 6,
    };
    assert!(matches!(reader.handle_leftover(scroll), RequestStep::Scrollback { ticket: 6, .. }));
    reader.handle_leftover(ReaderRequest::Refresh { ticket: 4 });
    let mut out = Vec::new();
    reader.answer_leftovers(&shared, None, &mut out);
    assert!(matches!(&out[..], [Emit::Reply { ticket: 4, data: None }]));
}

#[test]
fn what_follows_a_wait() {
    let quiet = PollResult {
        ready: 0, interrupted: false, wakeup_closed: false, master_writable: false, master_readable: false,
    };
    assert_eq!(after_poll(quiet), PollStep::Stalled);
    assert_eq!(after_poll(PollResult { ready: -1, ..quiet }), PollStep::Exit);
    assert_eq!(after_poll(PollResult { ready: -1, interrupted: true, ..quiet }), PollStep::Retry);
    assert_eq!(after_poll(PollResult { ready: 1, wakeup_closed: true, ..quiet }), PollStep::Exit);
    let both = PollResult { ready: 2, master_writable: true, master_readable: true, ..quiet };
    assert_eq!(after_poll(both), PollStep::Proceed { write: true, read: true });
}

#[test]
fn reads_are_gathered_until_there_is_no_more() {
    let mut batch = Vec::new();
    assert_eq!(after_read_attempt(&mut batch, ReadAttempt::WouldBlock), ReadStep::Wait);
    assert_eq!(after_read_attempt(&mut batch, ReadAttempt::Data(b"ab")), ReadStep::Again);
    assert_eq!(after_read_attempt(&mut batch, ReadAttempt::Data(b"c")), ReadStep::Again);
    assert_eq!(after_read_attempt(&mut batch, ReadAttempt::WouldBlock), ReadStep::Process);
    assert_eq!(batch, b"abc");
    assert_eq!(after_read_attempt(&mut batch, ReadAttempt::Eof), ReadStep::Exit);
    assert_eq!(after_read_attempt(&mut batch, ReadAttempt::Failed), ReadStep::Exit);
}

#[test]
fn the_scan_stops_at_the_first_boundary() {
    let flags = [false, false, true, false, true];
    let mut scan = BoundaryScan::new(flags.len());
    while let Some(i) = scan.next_byte() {
        scan.on_fed(flags[i]);
    }
    assert_eq!((scan.split, scan.fed), (Some(3), 3));
    let mut scan = BoundaryScan::new(2);
    scan.on_fed(false);
    scan.on_fed(false);
    assert_eq!((scan.split, scan.next_byte()), (None, None));
}

#[test]
fn who_waits_waits_for_a_boundary() {
    let t = make_terminal();
    let mut reader = make_reader();
    let mut shared = make_shared();
    reader.request_refresh(5);
    let mut out = Vec::new();
    reader.flush_refreshes_if_at_boundary(&mut shared, false, None, &mut out);
    assert!(out.is_empty() && reader.wants_refresh());
    reader.flush_refreshes_if_at_boundary(&mut shared, true, t.snapshot(), &mut out);
    assert!(matches!(out[0], Emit::Reply { ticket: 5, data: Some(_) }));
    assert!(!reader.wants_refresh());
}
