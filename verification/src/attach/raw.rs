//! Rendering by passing the PTY's bytes on as they come.
use super::{EventResult, PtyEvent};
#[allow(unused_imports)]
use super::chunk_data;
#[allow(unused_imports)]
use crate::text::bytes_of;
use crate::text::{push_bytes, push_str};
use vstd::prelude::*;

verus! {

/// Passes every byte through.
pub struct RawHandler;

/// What an event adds to the output: data as it is, a cleared screen for a new size.
pub open spec fn raw_output(event: PtyEvent) -> Seq<u8> {
    match event {
        PtyEvent::Stream { data } => data@,
        PtyEvent::Refresh { data, .. } => data@,
        PtyEvent::Resize { .. } => bytes_of("\x1b[2J"),
        PtyEvent::Closed => Seq::empty(),
    }
}

impl RawHandler {
    pub fn new() -> (handler: Self)
        ensures
            handler == RawHandler,
    {
        RawHandler
    }

    /// Writes the snapshot, then what came after it.
    pub fn init(&mut self, refresh_data: &[u8], buffered: &[(u64, Vec<u8>)], out: &mut Vec<u8>) -> (result: EventResult)
        ensures
            result == EventResult::Continue,
            final(out)@ == old(out)@ + refresh_data@ + chunk_data(buffered@),
    {
        push_bytes(out, refresh_data);
        let ghost start = out@;
        let mut i: usize = 0;
        assert(start + chunk_data(buffered@.take(0)) =~= start);
        while i < buffered.len()
            invariant
                i <= buffered.len(),
                out@ == start + chunk_data(buffered@.take(i as int)),
            decreases buffered.len() - i,
        {
            let ghost next = buffered@.take(i + 1);
            assert(next.drop_last() =~= buffered@.take(i as int));
            push_bytes(out, buffered[i].1.as_slice());
            assert(out@ =~= start + chunk_data(next));
            i = i + 1;
        }
        assert(buffered@.take(i as int) =~= buffered@);
        EventResult::Continue
    }

    pub fn on_pty_event(&mut self, event: PtyEvent, out: &mut Vec<u8>) -> (result: EventResult)
        ensures
            result == EventResult::Continue,
            final(out)@ == old(out)@ + raw_output(event),
    {
        match event {
            PtyEvent::Stream { data } => push_bytes(out, data),
            PtyEvent::Refresh { data, .. } => push_bytes(out, data),
            PtyEvent::Resize { .. } => push_str(out, "\x1b[2J"),
            PtyEvent::Closed => {
                assert(out@ + Seq::<u8>::empty() =~= out@);
            },
        }
        EventResult::Continue
    }

    /// A new size of the client's terminal calls for a fresh snapshot.
    pub fn on_sigwinch(&mut self, cols: u32, rows: u32, out: &mut Vec<u8>) -> (result: EventResult)
        ensures
            result == EventResult::RequestRefresh,
            final(out)@ == old(out)@,
    {
        EventResult::RequestRefresh
    }
}

/// Law: output and snapshots are written as they come; a new size clears the screen, and the end of the
/// PTY writes nothing.
pub proof fn law_raw_passes(handler: &mut RawHandler, event: PtyEvent, out: &mut Vec<u8>, result: EventResult)
    requires
        call_ensures(RawHandler::on_pty_event, (handler, event, out), result),
    ensures
        result == EventResult::Continue,
        event matches PtyEvent::Stream { data } ==> final(out)@ == old(out)@ + data@,
        event matches PtyEvent::Refresh { data, .. } ==> final(out)@ == old(out)@ + data@,
        event is Resize ==> final(out)@ == old(out)@ + bytes_of("\x1b[2J"),
        event is Closed ==> final(out)@ == old(out)@,
{
    assert(old(out)@ + Seq::<u8>::empty() =~= old(out)@);
}

/// Law: a session that begins writes the snapshot first and then what came after it.
pub proof fn law_raw_begins(
    handler: &mut RawHandler,
    snapshot: &[u8],
    later: &[(u64, Vec<u8>)],
    out: &mut Vec<u8>,
    result: EventResult,
)
    requires
        call_ensures(RawHandler::init, (handler, snapshot, later, out), result),
        later@.len() == 1,
    ensures
        final(out)@ == old(out)@ + snapshot@ + later@[0].1@,
{
    super::law_chunks_in_order(Seq::empty(), later@[0]);
    assert(Seq::empty().push(later@[0]) =~= later@);
    assert(Seq::<u8>::empty() + later@[0].1@ =~= later@[0].1@);
    assert(chunk_data(Seq::empty()) =~= Seq::<u8>::empty());
}

/// Law: when the client's terminal changes its size, nothing is written, and a snapshot is asked for.
pub proof fn law_raw_follows_client(handler: &mut RawHandler, cols: u32, rows: u32, out: &mut Vec<u8>, result: EventResult)
    requires
        call_ensures(RawHandler::on_sigwinch, (handler, cols, rows, out), result),
    ensures
        result == EventResult::RequestRefresh,
        final(out)@ == old(out)@,
{
}

} // verus!
