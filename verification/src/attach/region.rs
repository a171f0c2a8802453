//! Rendering within a scroll region of the server's size on a larger client terminal.
use super::{server_fits_client, EventResult, PtyEvent, RenderMode};
use super::csi::{end_margin, parse_params, push_csi_pair, start_margin};
#[allow(unused_imports)]
use super::csi::{csi_pair, law_margins_as_asked, law_pair_bytes, law_params_read_back, margin_end, margin_start,
    param_list};
#[allow(unused_imports)]
use super::{chunk_data, fits};
#[allow(unused_imports)]
use crate::text::{bytes_of, decimal, is_digit, law_decimal_reads_back};
use crate::text::{push_bytes, push_str};
use vstd::prelude::*;
#[allow(unused_imports)]
use vstd::utf8::*;

verus! {

/// Whether a control sequence began with a question mark.
#[derive(Clone, Copy, Debug, PartialEq, Eq, Structural)]
pub enum CsiMode {
    Normal,
    Private,
}

/// Where the filter stands within an escape sequence.
#[derive(Clone, Copy, Debug, PartialEq, Eq, Structural)]
pub enum FilterState {
    Normal,
    AfterEsc,
    InCsi(CsiMode),
}

/// A streaming filter for the output of programs on the server.
///
/// The output is shown on the client within margins of the server's size. Programs set margins of
/// their own, which would overwrite these, so the filter reads the stream byte by byte and
/// rewrites or drops the sequences that do. It keeps the state of a sequence that is cut off at
/// the end of a call.
pub struct VtFilter {
    pub state: FilterState,
    pub buf: Vec<u8>,
    pub server_rows: u32,
    pub server_cols: u32,
    pub client_rows: u32,
    pub client_cols: u32,
    pub declrmm_active: bool,
    pub in_alt_screen: bool,
}

/// The state of a `VtFilter`, with the held bytes as a sequence.
pub struct FilterModel {
    pub state: FilterState,
    pub buf: Seq<u8>,
    pub server_rows: u32,
    pub server_cols: u32,
    pub client_rows: u32,
    pub client_cols: u32,
    pub declrmm_active: bool,
    pub in_alt_screen: bool,
}

/// The state after some output, and what was written.
pub struct FilterStep {
    pub next: FilterModel,
    pub out: Seq<u8>,
}

/// More held bytes than this and a control sequence is given up.
pub open spec fn held_limit() -> nat {
    32
}

impl FilterModel {
    /// What is held is what was read of the sequence so far.
    pub open spec fn wf(self) -> bool {
        match self.state {
            FilterState::Normal => self.buf.len() == 0,
            FilterState::AfterEsc => self.buf == seq![0x1bu8],
            FilterState::InCsi(mode) => {
                &&& 2 <= self.buf.len() <= held_limit() + 1
                &&& self.buf[0] == 0x1b
                &&& self.buf[1] == '[' as u8
                &&& forall|i: int| 2 <= i < self.buf.len() ==> 0x20 <= #[trigger] self.buf[i] <= 0x3f
                &&& mode == CsiMode::Private <==> self.buf.len() > 2 && self.buf[2] == '?' as u8
            },
        }
    }

    pub open spec fn effective_rows(self) -> u32 {
        if self.server_rows <= self.client_rows {
            self.server_rows
        } else {
            self.client_rows
        }
    }

    pub open spec fn effective_cols(self) -> u32 {
        if self.server_cols <= self.client_cols {
            self.server_cols
        } else {
            self.client_cols
        }
    }

    /// The same filter at another place of the stream.
    pub open spec fn holding(self, state: FilterState, buf: Seq<u8>) -> FilterModel {
        FilterModel { state, buf, ..self }
    }

    /// The filter outside of any sequence.
    pub open spec fn idle(self) -> FilterModel {
        self.holding(FilterState::Normal, Seq::empty())
    }

    /// The filter once its margins stand: the horizontal ones only on a wider client.
    pub open spec fn with_margins(self) -> FilterModel {
        FilterModel { declrmm_active: self.client_cols > self.server_cols, ..self }
    }
}

/// The sequences that set the margins: rows always; columns on a wider client; on one that is not
/// wider any more, column margins are switched off.
pub open spec fn region_setup(m: FilterModel) -> Seq<u8> {
    csi_pair(1, m.effective_rows(), "r") + (if m.client_cols > m.server_cols {
        bytes_of("\x1b[?69h") + csi_pair(1, m.effective_cols(), "s")
    } else if m.declrmm_active {
        bytes_of("\x1b[?69l")
    } else {
        Seq::empty()
    })
}

/// The parameters of a complete control sequence: what stands between its introducer, with a
/// question mark where there is one, and its final byte.
pub open spec fn csi_params(buf: Seq<u8>) -> Seq<u32> {
    let start: int = if buf.len() > 2 && buf[2] == '?' as u8 {
        3
    } else {
        2
    };
    if start < buf.len() - 1 {
        param_list(buf.subrange(start, buf.len() - 1))
    } else {
        Seq::empty()
    }
}

/// What becomes of the complete control sequence that the filter holds.
pub open spec fn dispatch(m: FilterModel, mode: CsiMode, final_byte: u8) -> FilterStep {
    let params = csi_params(m.buf);
    let first = if params.len() > 0 {
        Some(params[0])
    } else {
        None
    };
    let rows = m.effective_rows();
    let cols = m.effective_cols();
    if mode == CsiMode::Normal && final_byte == 'p' as u8 && m.buf.len() > 2 && m.buf[2] == '!' as u8 {
        FilterStep { next: m.with_margins(), out: m.buf + region_setup(m) }
    } else if mode == CsiMode::Normal && final_byte == 'r' as u8 {
        let bottom = margin_end(params, rows);
        FilterStep {
            next: m,
            out: csi_pair(margin_start(params, bottom), bottom, "r") + (if m.declrmm_active {
                csi_pair(1, cols, "s")
            } else {
                Seq::empty()
            }),
        }
    } else if mode == CsiMode::Normal && final_byte == 's' as u8 && m.declrmm_active {
        let right = margin_end(params, cols);
        FilterStep { next: m, out: csi_pair(margin_start(params, right), right, "s") }
    } else if mode == CsiMode::Private && (final_byte == 'h' as u8 || final_byte == 'l' as u8) && first == Some(
        69u32,
    ) {
        FilterStep { next: m, out: Seq::empty() }
    } else if mode == CsiMode::Private && final_byte == 'h' as u8 && first == Some(1049u32) {
        FilterStep { next: FilterModel { in_alt_screen: true, ..m }, out: m.buf }
    } else if mode == CsiMode::Private && final_byte == 'l' as u8 && first == Some(1049u32) {
        FilterStep {
            next: FilterModel { in_alt_screen: false, ..m.with_margins() },
            out: m.buf + region_setup(m),
        }
    } else {
        FilterStep { next: m, out: m.buf }
    }
}

/// A byte outside of any sequence.
pub open spec fn plain_step(m: FilterModel, byte: u8) -> FilterStep {
    if byte == 0x1b {
        FilterStep { next: m.holding(FilterState::AfterEsc, m.buf.push(byte)), out: Seq::empty() }
    } else {
        FilterStep { next: m, out: seq![byte] }
    }
}

/// A byte within a control sequence.
pub open spec fn in_csi_step(m: FilterModel, mode: CsiMode, byte: u8) -> FilterStep {
    if m.buf.len() > held_limit() {
        let s = plain_step(m.idle(), byte);
        FilterStep { next: s.next, out: m.buf + s.out }
    } else if byte == 0x1b {
        FilterStep { next: m.holding(FilterState::AfterEsc, seq![byte]), out: m.buf }
    } else if 0x40 <= byte <= 0x7e {
        let s = dispatch(m.holding(m.state, m.buf.push(byte)), mode, byte);
        FilterStep { next: s.next.idle(), out: s.out }
    } else if 0x20 <= byte <= 0x3f {
        let state = if byte == '?' as u8 && m.buf.len() == 2 {
            FilterState::InCsi(CsiMode::Private)
        } else {
            m.state
        };
        FilterStep { next: m.holding(state, m.buf.push(byte)), out: Seq::empty() }
    } else {
        FilterStep { next: m.idle(), out: m.buf.push(byte) }
    }
}

/// What one byte of the stream does.
pub open spec fn filter_step(m: FilterModel, byte: u8) -> FilterStep {
    match m.state {
        FilterState::Normal => plain_step(m, byte),
        FilterState::AfterEsc => if byte == '[' as u8 {
            FilterStep {
                next: m.holding(FilterState::InCsi(CsiMode::Normal), m.buf.push(byte)),
                out: Seq::empty(),
            }
        } else if byte == 'c' as u8 {
            FilterStep { next: m.with_margins().idle(), out: bytes_of("\x1bc") + region_setup(m) }
        } else {
            FilterStep { next: m.idle(), out: m.buf.push(byte) }
        },
        FilterState::InCsi(mode) => in_csi_step(m, mode, byte),
    }
}

/// What a whole piece of the stream does.
pub open spec fn filter_run(m: FilterModel, input: Seq<u8>) -> FilterStep
    decreases input.len(),
{
    if input.len() == 0 {
        FilterStep { next: m, out: Seq::empty() }
    } else {
        let s = filter_step(m, input[0]);
        let r = filter_run(s.next, input.skip(1));
        FilterStep { next: r.next, out: s.out + r.out }
    }
}

impl View for VtFilter {
    type V = FilterModel;

    open spec fn view(&self) -> FilterModel {
        FilterModel {
            state: self.state,
            buf: self.buf@,
            server_rows: self.server_rows,
            server_cols: self.server_cols,
            client_rows: self.client_rows,
            client_cols: self.client_cols,
            declrmm_active: self.declrmm_active,
            in_alt_screen: self.in_alt_screen,
        }
    }
}

impl VtFilter {
    pub fn new(server_rows: u32, server_cols: u32, client_rows: u32, client_cols: u32) -> (filter: Self)
        ensures
            filter@ == (FilterModel {
                state: FilterState::Normal,
                buf: Seq::empty(),
                server_rows,
                server_cols,
                client_rows,
                client_cols,
                declrmm_active: false,
                in_alt_screen: false,
            }),
            filter@.wf(),
    {
        VtFilter {
            state: FilterState::Normal,
            buf: Vec::new(),
            server_rows,
            server_cols,
            client_rows,
            client_cols,
            declrmm_active: false,
            in_alt_screen: false,
        }
    }

    /// The rows that both sides have.
    pub fn effective_rows(&self) -> (rows: u32)
        ensures
            rows == self@.effective_rows(),
    {
        if self.server_rows <= self.client_rows {
            self.server_rows
        } else {
            self.client_rows
        }
    }

    /// The columns that both sides have.
    pub fn effective_cols(&self) -> (cols: u32)
        ensures
            cols == self@.effective_cols(),
    {
        if self.server_cols <= self.client_cols {
            self.server_cols
        } else {
            self.client_cols
        }
    }

    pub fn update_region(&mut self, server_rows: u32, server_cols: u32)
        ensures
            final(self)@ == (FilterModel { server_rows, server_cols, ..old(self)@ }),
    {
        self.server_rows = server_rows;
        self.server_cols = server_cols;
    }

    pub fn update_client_size(&mut self, client_rows: u32, client_cols: u32)
        ensures
            final(self)@ == (FilterModel { client_rows, client_cols, ..old(self)@ }),
    {
        self.client_rows = client_rows;
        self.client_cols = client_cols;
    }

    /// Sets the margins.
    pub fn emit_region_setup(&mut self, out: &mut Vec<u8>)
        ensures
            final(self)@ == old(self)@.with_margins(),
            final(out)@ == old(out)@ + region_setup(old(self)@),
    {
        let ghost before = out@;
        let ghost m = self@;
        push_csi_pair(out, 1, self.effective_rows(), "r");
        if self.client_cols > self.server_cols {
            push_str(out, "\x1b[?69h");
            push_csi_pair(out, 1, self.effective_cols(), "s");
            self.declrmm_active = true;
        } else if self.declrmm_active {
            push_str(out, "\x1b[?69l");
            self.declrmm_active = false;
        }
        assert(out@ =~= before + region_setup(m));
    }

    /// Passes `input` on, with what would upset the margins rewritten or left out.
    pub fn filter(&mut self, input: &[u8], out: &mut Vec<u8>)
        ensures
            final(self)@ == filter_run(old(self)@, input@).next,
            final(out)@ == old(out)@ + filter_run(old(self)@, input@).out,
    {
        let ghost before = out@;
        let ghost whole = filter_run(self@, input@);
        let mut i: usize = 0;
        assert(input@.skip(0) =~= input@);
        assert(before + whole.out =~= out@ + filter_run(self@, input@.skip(0)).out);
        while i < input.len()
            invariant
                i <= input.len(),
                whole == filter_run(old(self)@, input@),
                before == old(out)@,
                whole.next == filter_run(self@, input@.skip(i as int)).next,
                before + whole.out == out@ + filter_run(self@, input@.skip(i as int)).out,
            decreases input.len() - i,
        {
            let ghost rest = input@.skip(i as int);
            let ghost was = out@;
            let ghost m = self@;
            assert(rest.skip(1) =~= input@.skip(i + 1));
            self.filter_byte(input[i], out);
            assert(was + (filter_step(m, rest[0]).out + filter_run(self@, input@.skip(i + 1)).out)
                =~= out@ + filter_run(self@, input@.skip(i + 1)).out);
            i = i + 1;
        }
        assert(out@ + Seq::<u8>::empty() =~= out@);
    }

    /// Takes one byte of the stream.
    fn filter_byte(&mut self, byte: u8, out: &mut Vec<u8>)
        ensures
            final(self)@ == filter_step(old(self)@, byte).next,
            final(out)@ == old(out)@ + filter_step(old(self)@, byte).out,
    {
        let ghost before = out@;
        let ghost m = self@;
        let ghost step = filter_step(m, byte);
        match self.state {
            FilterState::Normal => {
                if byte == 0x1b {
                    self.buf.push(byte);
                    self.state = FilterState::AfterEsc;
                } else {
                    out.push(byte);
                }
            },
            FilterState::AfterEsc => {
                if byte == '[' as u8 {
                    self.buf.push(byte);
                    self.state = FilterState::InCsi(CsiMode::Normal);
                } else if byte == 'c' as u8 {
                    // A full reset drops the margins.
                    push_str(out, "\x1bc");
                    self.emit_region_setup(out);
                    self.buf.clear();
                    self.state = FilterState::Normal;
                } else {
                    push_bytes(out, self.buf.as_slice());
                    out.push(byte);
                    self.buf.clear();
                    self.state = FilterState::Normal;
                }
            },
            FilterState::InCsi(mode) => {
                if self.buf.len() > 32 {
                    push_bytes(out, self.buf.as_slice());
                    self.buf.clear();
                    self.state = FilterState::Normal;
                    if byte == 0x1b {
                        self.buf.push(byte);
                        self.state = FilterState::AfterEsc;
                    } else {
                        out.push(byte);
                    }
                } else if byte == 0x1b {
                    push_bytes(out, self.buf.as_slice());
                    self.buf.clear();
                    self.buf.push(byte);
                    self.state = FilterState::AfterEsc;
                } else if 0x40 <= byte && byte <= 0x7e {
                    self.buf.push(byte);
                    self.dispatch_csi(mode, byte, out);
                    self.buf.clear();
                    self.state = FilterState::Normal;
                } else if 0x20 <= byte && byte <= 0x3f {
                    if byte == '?' as u8 && self.buf.len() == 2 {
                        self.state = FilterState::InCsi(CsiMode::Private);
                    }
                    self.buf.push(byte);
                } else {
                    push_bytes(out, self.buf.as_slice());
                    self.buf.clear();
                    out.push(byte);
                    self.state = FilterState::Normal;
                }
            },
        }
        assert(self@.buf =~= step.next.buf);
        assert(out@ =~= before + step.out);
    }

    /// Writes what is to become of the complete control sequence that is held.
    pub fn dispatch_csi(&mut self, mode: CsiMode, final_byte: u8, out: &mut Vec<u8>)
        ensures
            final(self)@ == dispatch(old(self)@, mode, final_byte).next,
            final(out)@ == old(out)@ + dispatch(old(self)@, mode, final_byte).out,
    {
        let ghost before = out@;
        let ghost m = self@;
        let ghost step = dispatch(m, mode, final_byte);
        match mode {
            CsiMode::Normal => {
                if final_byte == 'p' as u8 && self.buf.len() > 2 && self.buf[2] == '!' as u8 {
                    // A soft reset drops the margins.
                    push_bytes(out, self.buf.as_slice());
                    self.emit_region_setup(out);
                } else if final_byte == 'r' as u8 {
                    let params = self.parse_csi_params();
                    let bottom = end_margin(&params, self.effective_rows());
                    let top = start_margin(&params, bottom);
                    push_csi_pair(out, top, bottom, "r");
                    // Some terminals drop the column margins with the row margins.
                    if self.declrmm_active {
                        push_csi_pair(out, 1, self.effective_cols(), "s");
                    }
                } else if final_byte == 's' as u8 && self.declrmm_active {
                    // Without column margins this sequence saves the cursor.
                    let params = self.parse_csi_params();
                    let right = end_margin(&params, self.effective_cols());
                    let left = start_margin(&params, right);
                    push_csi_pair(out, left, right, "s");
                } else {
                    push_bytes(out, self.buf.as_slice());
                }
            },
            CsiMode::Private => {
                if final_byte == 'h' as u8 || final_byte == 'l' as u8 {
                    // Only the first parameter counts.
                    let params = self.parse_csi_params();
                    let first: u32 = if params.len() > 0 { params[0] } else { 0 };
                    if first == 1049 {
                        push_bytes(out, self.buf.as_slice());
                        self.in_alt_screen = final_byte == 'h' as u8;
                        if final_byte == 'l' as u8 {
                            self.emit_region_setup(out);
                        }
                    } else if first != 69 {
                        push_bytes(out, self.buf.as_slice());
                    }
                } else {
                    push_bytes(out, self.buf.as_slice());
                }
            },
        }
        assert(out@ =~= before + step.out);
    }

    /// The parameters of the complete control sequence that is held.
    pub fn parse_csi_params(&self) -> (params: Vec<u32>)
        ensures
            params@ == csi_params(self@.buf),
    {
        let len: usize = self.buf.len();
        let start: usize = if len > 2 && self.buf[2] == '?' as u8 { 3 } else { 2 };
        if len == 0 || start >= len - 1 {
            return Vec::new();
        }
        parse_params(&self.buf.as_slice()[start..len - 1])
    }
}

/// Renders through a `VtFilter`.
pub struct RegionHandler {
    pub filter: VtFilter,
}

/// What writing the margins and then `data` does.
pub open spec fn repaint(m: FilterModel, data: Seq<u8>) -> FilterStep {
    let r = filter_run(m.with_margins(), data);
    FilterStep { next: r.next, out: region_setup(m) + r.out }
}

/// What an event does to the filter and its output; `None` where the server's screen does not
/// fit the client's any more and another mode has to take over.
pub open spec fn region_event(m: FilterModel, event: PtyEvent) -> Option<FilterStep> {
    match event {
        PtyEvent::Stream { data } => Some(filter_run(m, data@)),
        PtyEvent::Refresh { cols, rows, data } => if fits(cols, rows, m.client_cols, m.client_rows) {
            Some(repaint(FilterModel { server_rows: rows, server_cols: cols, ..m }, data@))
        } else {
            None
        },
        PtyEvent::Resize { cols, rows } => if fits(cols, rows, m.client_cols, m.client_rows) {
            let n = FilterModel { server_rows: rows, server_cols: cols, ..m };
            Some(FilterStep { next: n.with_margins(), out: region_setup(n) })
        } else {
            None
        },
        PtyEvent::Closed => Some(FilterStep { next: m, out: Seq::empty() }),
    }
}

/// What a handler returns and leaves behind where it handled the step, or where it could not.
pub open spec fn region_outcome(
    m: FilterModel,
    step: Option<FilterStep>,
    next: FilterModel,
    written: Seq<u8>,
    result: EventResult,
) -> bool {
    match step {
        Some(s) => result == EventResult::Continue && next == s.next && written == s.out,
        None => result == EventResult::ChangeRenderMode(RenderMode::Cell) && next == m && written
            == Seq::<u8>::empty(),
    }
}

/// What the output grew by.
pub open spec fn added(before: Seq<u8>, after: Seq<u8>) -> Seq<u8> {
    after.skip(before.len() as int)
}

impl RegionHandler {
    pub fn new(server_rows: u32, server_cols: u32, client_rows: u32, client_cols: u32) -> (handler: Self)
        ensures
            handler.filter@ == (FilterModel {
                state: FilterState::Normal,
                buf: Seq::empty(),
                server_rows,
                server_cols,
                client_rows,
                client_cols,
                declrmm_active: false,
                in_alt_screen: false,
            }),
    {
        RegionHandler { filter: VtFilter::new(server_rows, server_cols, client_rows, client_cols) }
    }

    /// Sets the margins and paints the snapshot with what came after it, if the server's screen
    /// fits.
    pub fn init(&mut self, refresh_data: &[u8], buffered: &[(u64, Vec<u8>)], out: &mut Vec<u8>) -> (result: EventResult)
        ensures
            ({
                let m = old(self).filter@;
                let step = if fits(m.server_cols, m.server_rows, m.client_cols, m.client_rows) {
                    Some(repaint(m, refresh_data@ + chunk_data(buffered@)))
                } else {
                    None
                };
                let written = added(old(out)@, final(out)@);
                &&& final(out)@ == old(out)@ + written
                &&& region_outcome(m, step, final(self).filter@, written, result)
            }),
    {
        let ghost before = out@;
        let ghost m = self.filter@;
        if !server_fits_client(
            self.filter.server_cols,
            self.filter.server_rows,
            self.filter.client_cols,
            self.filter.client_rows,
        ) {
            assert(added(before, out@) =~= Seq::<u8>::empty());
            assert(before + added(before, out@) =~= before);
            return EventResult::ChangeRenderMode(RenderMode::Cell);
        }
        self.filter.emit_region_setup(out);
        let ghost set = self.filter@;
        let ghost start = out@;
        self.filter.filter(refresh_data, out);
        let mut i: usize = 0;
        proof {
            assert(refresh_data@ + chunk_data(buffered@.take(0)) =~= refresh_data@);
        }
        while i < buffered.len()
            invariant
                i <= buffered.len(),
                self.filter@ == filter_run(set, refresh_data@ + chunk_data(buffered@.take(i as int))).next,
                out@ == start + filter_run(set, refresh_data@ + chunk_data(buffered@.take(i as int))).out,
            decreases buffered.len() - i,
        {
            let ghost done = refresh_data@ + chunk_data(buffered@.take(i as int));
            let ghost next = buffered@.take(i + 1);
            let ghost was = out@;
            proof {
                assert(next.drop_last() =~= buffered@.take(i as int));
                assert(refresh_data@ + chunk_data(next) =~= done + buffered@[i as int].1@);
                law_filter_chunks(set, done, buffered@[i as int].1@);
            }
            self.filter.filter(buffered[i].1.as_slice(), out);
            assert(out@ =~= start + filter_run(set, refresh_data@ + chunk_data(next)).out);
            i = i + 1;
        }
        assert(buffered@.take(i as int) =~= buffered@);
        assert(added(before, out@) =~= repaint(m, refresh_data@ + chunk_data(buffered@)).out);
        assert(out@ =~= before + added(before, out@));
        EventResult::Continue
    }

    pub fn on_pty_event(&mut self, event: PtyEvent, out: &mut Vec<u8>) -> (result: EventResult)
        ensures
            ({
                let m = old(self).filter@;
                let written = added(old(out)@, final(out)@);
                &&& final(out)@ == old(out)@ + written
                &&& region_outcome(m, region_event(m, event), final(self).filter@, written, result)
            }),
    {
        let ghost before = out@;
        let ghost m = self.filter@;
        let ghost step = region_event(m, event);
        match event {
            PtyEvent::Stream { data } => {
                self.filter.filter(data, out);
            },
            PtyEvent::Refresh { cols, rows, data } => {
                if !server_fits_client(cols, rows, self.filter.client_cols, self.filter.client_rows) {
                    assert(added(before, out@) =~= Seq::<u8>::empty());
                    assert(before + added(before, out@) =~= before);
                    return EventResult::ChangeRenderMode(RenderMode::Cell);
                }
                self.filter.update_region(rows, cols);
                self.filter.emit_region_setup(out);
                self.filter.filter(data, out);
            },
            PtyEvent::Resize { cols, rows } => {
                if !server_fits_client(cols, rows, self.filter.client_cols, self.filter.client_rows) {
                    assert(added(before, out@) =~= Seq::<u8>::empty());
                    assert(before + added(before, out@) =~= before);
                    return EventResult::ChangeRenderMode(RenderMode::Cell);
                }
                self.filter.update_region(rows, cols);
                self.filter.emit_region_setup(out);
            },
            PtyEvent::Closed => {},
        }
        assert(added(before, out@) =~= step.unwrap().out);
        assert(out@ =~= before + added(before, out@));
        EventResult::Continue
    }

    /// Follows a new size of the client's terminal, if the server's screen still fits.
    pub fn on_sigwinch(&mut self, cols: u32, rows: u32, out: &mut Vec<u8>) -> (result: EventResult)
        ensures
            ({
                let m = old(self).filter@;
                let n = FilterModel { client_rows: rows, client_cols: cols, ..m };
                let step = if fits(m.server_cols, m.server_rows, cols, rows) {
                    Some(FilterStep { next: n.with_margins(), out: region_setup(n) })
                } else {
                    None
                };
                let written = added(old(out)@, final(out)@);
                &&& final(out)@ == old(out)@ + written
                &&& region_outcome(m, step, final(self).filter@, written, result)
            }),
    {
        let ghost before = out@;
        if !server_fits_client(self.filter.server_cols, self.filter.server_rows, cols, rows) {
            assert(added(before, out@) =~= Seq::<u8>::empty());
            assert(before + added(before, out@) =~= before);
            return EventResult::ChangeRenderMode(RenderMode::Cell);
        }
        self.filter.update_client_size(rows, cols);
        let ghost n = self.filter@;
        self.filter.emit_region_setup(out);
        assert(added(before, out@) =~= region_setup(n));
        assert(out@ =~= before + added(before, out@));
        EventResult::Continue
    }

    /// Takes the margins back.
    pub fn cleanup(&mut self, out: &mut Vec<u8>)
        ensures
            final(self).filter@ == old(self).filter@,
            final(out)@ == old(out)@ + bytes_of("\x1b[r") + (if old(self).filter.declrmm_active {
                bytes_of("\x1b[?69l")
            } else {
                Seq::empty()
            }),
    {
        push_str(out, "\x1b[r");
        if self.filter.declrmm_active {
            push_str(out, "\x1b[?69l");
        } else {
            assert(out@ + Seq::<u8>::empty() =~= out@);
        }
    }
}

/// Law: how the stream is cut into pieces makes no difference to what is written.
pub proof fn law_filter_chunks(m: FilterModel, a: Seq<u8>, b: Seq<u8>)
    ensures
        filter_run(m, a + b).next == filter_run(filter_run(m, a).next, b).next,
        filter_run(m, a + b).out == filter_run(m, a).out + filter_run(filter_run(m, a).next, b).out,
    decreases a.len(),
{
    if a.len() == 0 {
        assert(a + b =~= b);
        assert(Seq::<u8>::empty() + filter_run(m, b).out =~= filter_run(m, b).out);
    } else {
        let s = filter_step(m, a[0]);
        assert((a + b)[0] == a[0]);
        assert((a + b).skip(1) =~= a.skip(1) + b);
        law_filter_chunks(s.next, a.skip(1), b);
        let r = filter_run(s.next, a.skip(1));
        let q = filter_run(r.next, b);
        assert(s.out + (r.out + q.out) =~= (s.out + r.out) + q.out);
    }
}

/// Law: output without escape sequences passes unchanged and at once.
pub proof fn law_plain_output_passes(m: FilterModel, input: Seq<u8>)
    requires
        m.wf(),
        m.state == FilterState::Normal,
        forall|i: int| 0 <= i < input.len() ==> #[trigger] input[i] != 0x1b,
    ensures
        filter_run(m, input) == (FilterStep { next: m, out: input }),
    decreases input.len(),
{
    if input.len() > 0 {
        let rest = input.skip(1);
        assert forall|i: int| 0 <= i < rest.len() implies #[trigger] rest[i] != 0x1b by {
            assert(rest[i] == input[i + 1]);
        }
        law_plain_output_passes(m, rest);
        assert(input =~= seq![input[0]] + rest);
    } else {
        assert(input =~= Seq::<u8>::empty());
    }
}

/// A byte leads from a well-formed state to a well-formed state.
proof fn lemma_filter_step_wf(m: FilterModel, byte: u8)
    requires
        m.wf(),
    ensures
        filter_step(m, byte).next.wf(),
{
    let next = filter_step(m, byte).next;
    match m.state {
        FilterState::Normal => {
            assert(m.buf.push(byte) =~= seq![byte]);
        },
        FilterState::AfterEsc => {
            assert(m.buf.push(byte) =~= seq![0x1bu8, byte]);
        },
        FilterState::InCsi(mode) => {
            assert(m.idle().buf.push(byte) =~= seq![byte]);
            if m.buf.len() <= held_limit() && 0x20 <= byte <= 0x3f {
                let grown = m.buf.push(byte);
                assert forall|i: int| 2 <= i < grown.len() implies 0x20 <= #[trigger] grown[i] <= 0x3f by {
                    if i < m.buf.len() {
                        assert(grown[i] == m.buf[i]);
                    }
                }
            }
        },
    }
}

/// Law: any output keeps the filter well-formed and what it holds back short, and leaves the
/// sizes alone.
pub proof fn law_filter_bounded(m: FilterModel, input: Seq<u8>)
    requires
        m.wf(),
    ensures
        filter_run(m, input).next.wf(),
        filter_run(m, input).next.buf.len() <= held_limit() + 1,
        filter_run(m, input).next.server_rows == m.server_rows,
        filter_run(m, input).next.server_cols == m.server_cols,
        filter_run(m, input).next.client_rows == m.client_rows,
        filter_run(m, input).next.client_cols == m.client_cols,
    decreases input.len(),
{
    if input.len() > 0 {
        lemma_filter_step_wf(m, input[0]);
        law_filter_bounded(filter_step(m, input[0]).next, input.skip(1));
    }
}

/// True when a byte completes a sequence that is rewritten, dropped or followed by margins.
pub open spec fn rewrites(m: FilterModel, byte: u8) -> bool {
    match m.state {
        FilterState::Normal => false,
        FilterState::AfterEsc => byte == 'c' as u8,
        FilterState::InCsi(mode) => {
            &&& m.buf.len() <= held_limit()
            &&& 0x40 <= byte <= 0x7e
            &&& dispatch(m.holding(m.state, m.buf.push(byte)), mode, byte).out != m.buf.push(byte)
        },
    }
}

/// True when `input` holds nothing that is rewritten.
pub open spec fn leaves_alone(m: FilterModel, input: Seq<u8>) -> bool
    decreases input.len(),
{
    input.len() > 0 ==> !rewrites(m, input[0]) && leaves_alone(
        filter_step(m, input[0]).next,
        input.skip(1),
    )
}

/// Law: nothing but the sequences that concern margins is touched. What was held and what came in
/// is what was written and what is held now.
pub proof fn law_filter_conserves(m: FilterModel, input: Seq<u8>)
    requires
        m.wf(),
        leaves_alone(m, input),
    ensures
        m.buf + input == filter_run(m, input).out + filter_run(m, input).next.buf,
    decreases input.len(),
{
    if input.len() > 0 {
        let b = input[0];
        let s = filter_step(m, b);
        assert(m.buf.push(b) =~= s.out + s.next.buf);
        lemma_filter_step_wf(m, b);
        law_filter_conserves(s.next, input.skip(1));
        let r = filter_run(s.next, input.skip(1));
        assert(m.buf + input =~= m.buf.push(b) + input.skip(1));
        assert((s.out + s.next.buf) + input.skip(1) =~= s.out + (s.next.buf + input.skip(1)));
        assert(s.out + (r.out + r.next.buf) =~= (s.out + r.out) + r.next.buf);
    } else {
        assert(m.buf + input =~= Seq::<u8>::empty() + m.buf);
    }
}

/// The kind of a control sequence with these contents.
pub open spec fn mode_of(content: Seq<u8>) -> CsiMode {
    if content.len() > 0 && content[0] == '?' as u8 {
        CsiMode::Private
    } else {
        CsiMode::Normal
    }
}

/// The rest of a control sequence, from any point within it.
proof fn lemma_rest_of_csi(m: FilterModel, mode: CsiMode, rest: Seq<u8>, final_byte: u8)
    requires
        m.wf(),
        m.state == FilterState::InCsi(mode),
        m.buf.len() + rest.len() <= held_limit(),
        forall|i: int| 0 <= i < rest.len() ==> 0x20 <= #[trigger] rest[i] <= 0x3f,
        0x40 <= final_byte <= 0x7e,
    ensures
        ({
            let all = m.buf + rest;
            let end = mode_of(all.skip(2));
            let s = dispatch(m.holding(FilterState::InCsi(end), all.push(final_byte)), end, final_byte);
            filter_run(m, rest.push(final_byte)) == FilterStep { next: s.next.idle(), out: s.out }
        }),
    decreases rest.len(),
{
    let input = rest.push(final_byte);
    let s = filter_step(m, input[0]);
    let all = m.buf + rest;
    if rest.len() == 0 {
        assert(all =~= m.buf);
        assert(input.skip(1) =~= Seq::<u8>::empty());
        assert(all.skip(2).len() > 0 ==> all.skip(2)[0] == m.buf[2]);
        assert(mode_of(all.skip(2)) == mode);
        assert(s.out + Seq::<u8>::empty() =~= s.out);
    } else {
        lemma_filter_step_wf(m, input[0]);
        assert(input.skip(1) =~= rest.skip(1).push(final_byte));
        assert(s.next.buf + rest.skip(1) =~= all);
        let next_mode = s.next.state->InCsi_0;
        lemma_rest_of_csi(s.next, next_mode, rest.skip(1), final_byte);
        let r = filter_run(s.next, input.skip(1));
        assert(Seq::<u8>::empty() + r.out =~= r.out);
        let end = mode_of(all.skip(2));
        assert(s.next.holding(FilterState::InCsi(end), all.push(final_byte)) == m.holding(
            FilterState::InCsi(end),
            all.push(final_byte),
        ));
    }
}

/// Law: a complete control sequence is judged as a whole, wherever it was cut: margins are
/// clamped, what concerns the column margins is taken out, everything else is written as it came.
pub proof fn law_complete_sequences(m: FilterModel, content: Seq<u8>, final_byte: u8)
    requires
        m.wf(),
        m.state == FilterState::Normal,
        content.len() + 2 <= held_limit(),
        forall|i: int| 0 <= i < content.len() ==> 0x20 <= #[trigger] content[i] <= 0x3f,
        0x40 <= final_byte <= 0x7e,
    ensures
        ({
            let whole = seq![0x1bu8, '[' as u8] + content + seq![final_byte];
            let mode = mode_of(content);
            let s = dispatch(m.holding(FilterState::InCsi(mode), whole), mode, final_byte);
            filter_run(m, whole) == FilterStep { next: s.next.idle(), out: s.out }
        }),
{
    let intro = seq![0x1bu8, '[' as u8];
    let whole = intro + content + seq![final_byte];
    let csi = m.holding(FilterState::InCsi(CsiMode::Normal), intro);
    let esc = m.holding(FilterState::AfterEsc, seq![0x1bu8]);
    assert(m.buf.push(0x1b) =~= seq![0x1bu8]);
    assert(esc.buf.push('[' as u8) =~= intro);
    assert(whole.skip(1).skip(1) =~= content.push(final_byte));
    lemma_rest_of_csi(csi, CsiMode::Normal, content, final_byte);
    assert((intro + content).skip(2) =~= content);
    assert((intro + content).push(final_byte) =~= whole);
    let r = filter_run(csi, content.push(final_byte));
    assert(whole[0] == 0x1b);
    assert(whole.skip(1)[0] == '[' as u8);
    assert(filter_step(esc, '[' as u8).next == csi);
    assert(Seq::<u8>::empty() + r.out =~= r.out);
    assert(filter_run(esc, whole.skip(1)) == r);
    assert(filter_step(m, 0x1b).next == esc);
    assert(filter_run(m, whole) == r);
}

/// Law: programs never switch the column margins on or off themselves.
pub proof fn law_column_margins_protected(m: FilterModel, final_byte: u8)
    requires
        csi_params(m.buf).len() > 0,
        csi_params(m.buf)[0] == 69,
        final_byte == 'h' as u8 || final_byte == 'l' as u8,
    ensures
        dispatch(m, CsiMode::Private, final_byte) == (FilterStep { next: m, out: Seq::empty() }),
{
}

/// Law: a full reset, a soft reset and leaving the alternate screen are each passed on and
/// followed by the margins.
pub proof fn law_margins_restored(m: FilterModel)
    ensures
        m.state == FilterState::AfterEsc ==> filter_step(m, 'c' as u8).out == bytes_of("\x1bc")
            + region_setup(m),
        m.buf.len() > 2 && m.buf[2] == '!' as u8 ==> dispatch(m, CsiMode::Normal, 'p' as u8).out == m.buf
            + region_setup(m),
        csi_params(m.buf).len() > 0 && csi_params(m.buf)[0] == 1049 ==> dispatch(
            m,
            CsiMode::Private,
            'l' as u8,
        ).out == m.buf + region_setup(m),
{
}

/// Law: once the margins stand, column margins are on exactly on a client wider than the server,
/// whatever the programs write.
pub proof fn law_column_margins_tracked(m: FilterModel, input: Seq<u8>)
    requires
        m.declrmm_active == (m.client_cols > m.server_cols),
    ensures
        filter_run(m, input).next.declrmm_active == (m.client_cols > m.server_cols),
    decreases input.len(),
{
    if input.len() > 0 {
        let s = filter_step(m, input[0]);
        law_column_margins_tracked(s.next, input.skip(1));
    }
}

/// The bytes of a control sequence: its introducer, its content, its final byte.
pub open spec fn sequence(content: Seq<u8>, final_byte: u8) -> Seq<u8> {
    seq![0x1bu8, '[' as u8] + content + seq![final_byte]
}

/// True for content that can stand in a control sequence and is short enough to be held.
pub open spec fn is_content(content: Seq<u8>) -> bool {
    content.len() <= 30 && forall|i: int| 0 <= i < content.len() ==> 0x20 <= #[trigger] content[i] <= 0x3f
}

/// True for a filter that is not in the middle of a sequence.
pub open spec fn between_sequences(m: FilterModel) -> bool {
    m.wf() && m.buf.len() == 0
}

proof fn lemma_between_sequences(m: FilterModel)
    requires
        between_sequences(m),
    ensures
        m.state == FilterState::Normal,
        m.buf == Seq::<u8>::empty(),
{
    assert(m.buf =~= Seq::<u8>::empty());
    if m.state == FilterState::AfterEsc {
        assert(seq![0x1bu8].len() == 1);
    }
}

/// Law: a control sequence that does not concern margins passes as it came and changes nothing: text
/// attributes, erasing, cursor moves, scrolling, queries and so on. Only `r`, `s`, a soft reset and the
/// private modes end anything else.
pub proof fn law_other_sequences_pass(m: FilterModel, content: Seq<u8>, final_byte: u8)
    requires
        between_sequences(m),
        is_content(content),
        0x40 <= final_byte <= 0x7e,
        if content.len() > 0 && content[0] == '?' as u8 {
            final_byte != 'h' as u8 && final_byte != 'l' as u8
        } else {
            &&& final_byte != 'r' as u8
            &&& final_byte == 's' as u8 ==> !m.declrmm_active
            &&& final_byte == 'p' as u8 ==> !(content.len() > 0 && content[0] == '!' as u8)
        },
    ensures
        filter_run(m, seq![0x1bu8, '[' as u8] + content + seq![final_byte]) == (FilterStep {
            next: m,
            out: seq![0x1bu8, '[' as u8] + content + seq![final_byte],
        }),
{
    lemma_between_sequences(m);
    law_complete_sequences(m, content, final_byte);
    let whole = sequence(content, final_byte);
    if content.len() > 0 {
        assert(whole[2] == content[0]);
    } else {
        assert(whole[2] == final_byte);
    }
}

/// The parameters of a complete sequence are what its content says.
proof fn lemma_content_params(content: Seq<u8>, final_byte: u8)
    requires
        final_byte != '?' as u8,
    ensures
        content.len() > 0 && content[0] != '?' as u8 ==> csi_params(sequence(content, final_byte)) == param_list(
            content,
        ),
        content.len() == 0 ==> csi_params(sequence(content, final_byte)) == Seq::<u32>::empty(),
        content.len() > 1 && content[0] == '?' as u8 ==> csi_params(sequence(content, final_byte)) == param_list(
            content.skip(1),
        ),
{
    let whole = sequence(content, final_byte);
    if content.len() > 0 {
        assert(whole[2] == content[0]);
        assert(whole.subrange(2, whole.len() - 1) =~= content);
        assert(whole.subrange(3, whole.len() - 1) =~= content.skip(1));
    } else {
        assert(whole[2] == final_byte);
    }
}

/// Law: the row margins that a program asks for are set as asked where they lie on the screen that
/// both sides have, cut off at its end where they do not, and the whole screen where it asks for none.
/// Where there are column margins, they are set again behind them. Nothing else happens.
pub proof fn law_row_margins(m: FilterModel, top: u32, bottom: u32)
    requires
        between_sequences(m),
        1 <= top < bottom,
        top < m.server_rows <= m.client_rows,
    ensures
        ({
            let columns = if m.declrmm_active {
                csi_pair(1, m.effective_cols(), "s")
            } else {
                Seq::empty()
            };
            let end = if bottom <= m.server_rows {
                bottom
            } else {
                m.server_rows
            };
            &&& filter_run(m, csi_pair(top, bottom, "r")) == FilterStep {
                next: m,
                out: csi_pair(top, end, "r") + columns,
            }
            &&& filter_run(m, seq![0x1bu8, '[' as u8, 'r' as u8]) == FilterStep {
                next: m,
                out: csi_pair(1, m.server_rows, "r") + columns,
            }
        }),
{
    lemma_between_sequences(m);
    let content = decimal(top as nat) + seq![';' as u8] + decimal(bottom as nat);
    lemma_pair_content(top, bottom);
    law_pair_bytes(top, bottom);
    law_params_read_back(top, bottom, Seq::empty());
    law_margins_as_asked(top, bottom, m.server_rows);
    law_complete_sequences(m, content, 'r' as u8);
    lemma_content_params(content, 'r' as u8);
    assert(csi_pair(top, bottom, "r") =~= sequence(content, 'r' as u8));
    let none = Seq::<u8>::empty();
    law_complete_sequences(m, none, 'r' as u8);
    lemma_content_params(none, 'r' as u8);
    assert(sequence(none, 'r' as u8) =~= seq![0x1bu8, '[' as u8, 'r' as u8]);
}

/// The content of a pair is content, and short.
proof fn lemma_pair_content(first: u32, second: u32)
    ensures
        ({
            let content = decimal(first as nat) + seq![';' as u8] + decimal(second as nat);
            is_content(content) && content.len() > 0 && content[0] != '?' as u8 && content[0] != '!' as u8
        }),
{
    let a = decimal(first as nat);
    let b = decimal(second as nat);
    law_decimal_reads_back(first);
    law_decimal_reads_back(second);
    let content = a + seq![';' as u8] + b;
    assert forall|i: int| 0 <= i < content.len() implies 0x20 <= #[trigger] content[i] <= 0x3f by {
        if i < a.len() {
            assert(is_digit(a[i]));
        } else if i > a.len() {
            assert(is_digit(b[i - a.len() - 1]));
            assert(content[i] == b[i - a.len() - 1]);
        }
    }
    assert(is_digit(a[0]));
    assert(content[0] == a[0]);
}

/// Law: where there are column margins, those that a program asks for are set as asked where they lie
/// on the screen, and cut off at its end where they do not. Where there are none, the sequence means
/// something else and passes.
pub proof fn law_column_margins(m: FilterModel, left: u32, right: u32)
    requires
        between_sequences(m),
        1 <= left < right,
        left < m.server_cols <= m.client_cols,
    ensures
        filter_run(m, csi_pair(left, right, "s")) == (FilterStep {
            next: m,
            out: csi_pair(
                left,
                if m.declrmm_active && right > m.server_cols {
                    m.server_cols
                } else {
                    right
                },
                "s",
            ),
        }),
{
    lemma_between_sequences(m);
    let content = decimal(left as nat) + seq![';' as u8] + decimal(right as nat);
    lemma_pair_content(left, right);
    law_pair_bytes(left, right);
    law_params_read_back(left, right, Seq::empty());
    law_margins_as_asked(left, right, m.server_cols);
    law_complete_sequences(m, content, 's' as u8);
    lemma_content_params(content, 's' as u8);
    assert(csi_pair(left, right, "s") =~= sequence(content, 's' as u8));
}

/// What a private mode that is switched becomes.
proof fn lemma_private_mode(m: FilterModel, content: Seq<u8>, mode: u32, final_byte: u8)
    requires
        between_sequences(m),
        is_content(content),
        content.len() > 1,
        content[0] == '?' as u8,
        param_list(content.skip(1)).len() > 0,
        param_list(content.skip(1))[0] == mode,
        final_byte == 'h' as u8 || final_byte == 'l' as u8,
    ensures
        ({
            let whole = sequence(content, final_byte);
            let r = filter_run(m, whole);
            &&& r.out == (if mode == 69 {
                Seq::empty()
            } else if mode == 1049 && final_byte == 'l' as u8 {
                whole + region_setup(m)
            } else {
                whole
            })
            &&& mode != 1049 ==> r.next == m
            &&& r.next.buf.len() == 0
        }),
{
    lemma_between_sequences(m);
    law_complete_sequences(m, content, final_byte);
    lemma_content_params(content, final_byte);
}

/// Law: of the private modes a program may switch all but the column margins, which it is kept from.
/// When it leaves the alternate screen, the margins are set behind that. All else passes as it came,
/// whether the mode stands alone or first among others.
pub proof fn law_private_modes(m: FilterModel, mode: u32, more: Seq<u8>, on: bool, alone: bool)
    requires
        between_sequences(m),
        more.len() <= 16,
        is_content(more),
    ensures
        ({
            let final_byte = if on {
                'h' as u8
            } else {
                'l' as u8
            };
            let others = if alone {
                Seq::empty()
            } else {
                seq![';' as u8] + more
            };
            let whole = seq![0x1bu8, '[' as u8] + (seq!['?' as u8] + decimal(mode as nat) + others) + seq![final_byte];
            let r = filter_run(m, whole);
            &&& r.out == (if mode == 69 {
                Seq::empty()
            } else if mode == 1049 && !on {
                whole + region_setup(m)
            } else {
                whole
            })
            &&& mode != 1049 ==> r.next == m
            &&& r.next.buf.len() == 0
        }),
{
    let d = decimal(mode as nat);
    law_decimal_reads_back(mode);
    law_params_read_back(mode, 0, more);
    let final_byte = if on {
        'h' as u8
    } else {
        'l' as u8
    };
    let others = if alone {
        Seq::empty()
    } else {
        seq![';' as u8] + more
    };
    let content = seq!['?' as u8] + d + others;
    assert forall|i: int| 0 <= i < content.len() implies 0x20 <= #[trigger] content[i] <= 0x3f by {
        if 0 < i <= d.len() {
            assert(is_digit(d[i - 1]));
            assert(content[i] == d[i - 1]);
        } else if i > d.len() + 1 {
            assert(content[i] == more[i - d.len() - 2]);
        }
    }
    if alone {
        assert(content.skip(1) =~= d);
    } else {
        assert(content.skip(1) =~= d + seq![';' as u8] + more);
    }
    lemma_private_mode(m, content, mode, final_byte);
}

/// Law: a full reset and a soft reset pass, with the margins set behind them.
pub proof fn law_resets(m: FilterModel)
    requires
        between_sequences(m),
    ensures
        filter_run(m, seq![0x1bu8, 'c' as u8]).out == seq![0x1bu8, 'c' as u8] + region_setup(m),
        filter_run(m, seq![0x1bu8, '[' as u8, '!' as u8, 'p' as u8]).out == seq![
            0x1bu8,
            '[' as u8,
            '!' as u8,
            'p' as u8,
        ] + region_setup(m),
{
    lemma_between_sequences(m);
    let soft = seq!['!' as u8];
    law_complete_sequences(m, soft, 'p' as u8);
    assert(sequence(soft, 'p' as u8) =~= seq![0x1bu8, '[' as u8, '!' as u8, 'p' as u8]);
    let esc = m.holding(FilterState::AfterEsc, seq![0x1bu8]);
    assert(m.buf.push(0x1b) =~= seq![0x1bu8]);
    let full = seq![0x1bu8, 'c' as u8];
    assert(full.skip(1)[0] == 'c' as u8);
    assert(full.skip(1).skip(1) =~= Seq::<u8>::empty());
    reveal_strlit("\x1bc");
    is_ascii_chars_encode_utf8("\x1bc"@);
    assert(bytes_of("\x1bc") =~= full);
    let s = filter_step(esc, 'c' as u8);
    assert(filter_run(s.next, full.skip(1).skip(1)).out == Seq::<u8>::empty());
    assert(filter_run(esc, full.skip(1)).out =~= full + region_setup(m));
    assert(filter_step(m, 0x1b).next == esc);
    assert(filter_run(m, full).out =~= full + region_setup(m));
}

/// Law: the margins are those of the server's screen: all its rows, and all its columns where the
/// client has more. Where the client has no more columns than the server, column margins that still
/// stand are switched off.
pub proof fn law_margins_are_the_servers(m: FilterModel)
    requires
        m.server_rows <= m.client_rows,
        m.server_cols <= m.client_cols,
    ensures
        m.server_cols < m.client_cols ==> region_setup(m) == csi_pair(1, m.server_rows, "r") + bytes_of("\x1b[?69h")
            + csi_pair(1, m.server_cols, "s"),
        m.server_cols == m.client_cols && m.declrmm_active ==> region_setup(m) == csi_pair(1, m.server_rows, "r")
            + bytes_of("\x1b[?69l"),
        m.server_cols == m.client_cols && !m.declrmm_active ==> region_setup(m) == csi_pair(1, m.server_rows, "r"),
{
    assert(csi_pair(1, m.server_rows, "r") + (bytes_of("\x1b[?69h") + csi_pair(1, m.server_cols, "s")) =~= csi_pair(
        1,
        m.server_rows,
        "r",
    ) + bytes_of("\x1b[?69h") + csi_pair(1, m.server_cols, "s"));
    assert(csi_pair(1, m.server_rows, "r") + Seq::<u8>::empty() =~= csi_pair(1, m.server_rows, "r"));
}

/// True for the bytes that end sequences which concern margins.
pub open spec fn ends_margins(b: u8) -> bool {
    b == 'r' as u8 || b == 's' as u8 || b == 'p' as u8 || b == 'h' as u8 || b == 'l' as u8
}

/// True when there is nothing in the output that could concern margins, seen from any point of it.
spec fn unconcerned(m: FilterModel, input: Seq<u8>) -> bool {
    &&& m.state == FilterState::AfterEsc && input.len() > 0 ==> input[0] != 'c' as u8
    &&& forall|i: int| 1 <= i < input.len() && #[trigger] input[i] == 'c' as u8 ==> input[i - 1] != 0x1b
    &&& (m.state != FilterState::Normal || exists|i: int| 0 <= i < input.len() && #[trigger] input[i] == 0x1b)
        ==> forall|i: int| 0 <= i < input.len() ==> !ends_margins(#[trigger] input[i])
}

proof fn lemma_unconcerned_is_left_alone(m: FilterModel, input: Seq<u8>)
    requires
        m.wf(),
        unconcerned(m, input),
    ensures
        leaves_alone(m, input),
    decreases input.len(),
{
    if input.len() > 0 {
        let s = filter_step(m, input[0]);
        let rest = input.skip(1);
        lemma_filter_step_wf(m, input[0]);
        assert forall|i: int| 1 <= i < rest.len() && #[trigger] rest[i] == 'c' as u8 implies rest[i - 1] != 0x1b by {
            assert(rest[i] == input[i + 1]);
            assert(rest[i - 1] == input[i]);
        }
        if rest.len() > 0 {
            assert(rest[0] == input[1]);
        }
        if s.next.state != FilterState::Normal || (exists|i: int| 0 <= i < rest.len() && #[trigger] rest[i] == 0x1b) {
            assert(m.state != FilterState::Normal || (exists|i: int|
                0 <= i < input.len() && #[trigger] input[i] == 0x1b)) by {
                if exists|i: int| 0 <= i < rest.len() && #[trigger] rest[i] == 0x1b {
                    let i = choose|i: int| 0 <= i < rest.len() && #[trigger] rest[i] == 0x1b;
                    assert(input[i + 1] == 0x1b);
                } else {
                    assert(m.state != FilterState::Normal || input[0] == 0x1b);
                }
            }
            assert forall|i: int| 0 <= i < rest.len() implies !ends_margins(#[trigger] rest[i]) by {
                assert(rest[i] == input[i + 1]);
            }
        }
        if m.state != FilterState::Normal {
            assert(!ends_margins(input[0]));
        }
        lemma_unconcerned_is_left_alone(s.next, rest);
    }
}

/// Law: output reaches the client once and in its place, as long as nothing in it can concern margins:
/// no full reset, and, where there is an escape, none of the bytes that such sequences end in. What is
/// not written yet is held, and that is the beginning of a sequence.
pub proof fn law_output_reaches_the_client(m: FilterModel, input: Seq<u8>)
    requires
        between_sequences(m),
        forall|i: int| 1 <= i < input.len() && #[trigger] input[i] == 'c' as u8 ==> input[i - 1] != 0x1b,
        (exists|i: int| 0 <= i < input.len() && #[trigger] input[i] == 0x1b) ==> forall|i: int|
            0 <= i < input.len() ==> !ends_margins(#[trigger] input[i]),
    ensures
        filter_run(m, input).out + filter_run(m, input).next.buf == input,
        filter_run(m, input).next.buf.len() > 0 ==> filter_run(m, input).next.buf[0] == 0x1b,
        filter_run(m, input).next.buf.len() <= 33,
{
    lemma_between_sequences(m);
    lemma_unconcerned_is_left_alone(m, input);
    law_filter_conserves(m, input);
    law_filter_bounded(m, input);
    assert(m.buf + input =~= input);
    let next = filter_run(m, input).next;
    if next.state == FilterState::AfterEsc {
        assert(seq![0x1bu8][0] == 0x1b);
    }
}

/// Law: a screen of the server that fits the client's is painted within its own margins, which come
/// first; a resize sets the new margins and keeps what is held of a sequence; one that does not fit, in
/// any direction, is left to another mode. Output passes without regard to sizes, and the end of the PTY
/// writes nothing.
pub proof fn law_region_events(m: FilterModel, cols: u32, rows: u32, data: &[u8])
    requires
        between_sequences(m),
        forall|i: int| 0 <= i < data@.len() ==> #[trigger] data@[i] != 0x1b,
    ensures
        ({
            let n = FilterModel { server_rows: rows, server_cols: cols, ..m };
            let resize = region_event(m, PtyEvent::Resize { cols, rows });
            let refresh = region_event(m, PtyEvent::Refresh { cols, rows, data });
            &&& cols <= m.client_cols && rows <= m.client_rows ==> {
                &&& resize matches Some(s) && s.out == region_setup(n) && s.next == n.with_margins()
                &&& refresh matches Some(s) && s.out == region_setup(n) + data@
            }
            &&& cols > m.client_cols || rows > m.client_rows ==> resize is None && refresh is None
            &&& region_event(m, PtyEvent::Stream { data }) matches Some(s) && s.out == data@ && s.next == m
            &&& region_event(m, PtyEvent::Closed) matches Some(s) && s.out.len() == 0 && s.next == m
        }),
{
    lemma_between_sequences(m);
    law_plain_output_passes(m, data@);
    law_plain_output_passes(FilterModel { server_rows: rows, server_cols: cols, ..m }.with_margins(), data@);
}

/// Law: a resize in the middle of a sequence loses nothing of it.
pub proof fn law_resize_keeps_what_is_held(m: FilterModel, cols: u32, rows: u32)
    requires
        cols <= m.client_cols,
        rows <= m.client_rows,
    ensures
        ({
            let s = region_event(m, PtyEvent::Resize { cols, rows });
            &&& s is Some
            &&& s->0.next.buf == m.buf
            &&& s->0.next.state == m.state
            &&& s->0.next.server_cols == cols
            &&& s->0.next.server_rows == rows
            &&& s->0.next.client_cols == m.client_cols
            &&& s->0.next.client_rows == m.client_rows
            &&& s->0.next.declrmm_active == (cols < m.client_cols)
        }),
{
}

/// Law: a filter that is not in the middle of a sequence writes one that does not concern margins as it
/// came.
pub proof fn law_filter_passes_sequences(
    filter: &mut VtFilter,
    input: &[u8],
    out: &mut Vec<u8>,
    content: Seq<u8>,
    final_byte: u8,
)
    requires
        call_ensures(VtFilter::filter, (filter, input, out), ()),
        between_sequences(old(filter)@),
        is_content(content),
        0x40 <= final_byte <= 0x7e,
        if content.len() > 0 && content[0] == '?' as u8 {
            final_byte != 'h' as u8 && final_byte != 'l' as u8
        } else {
            final_byte != 'r' as u8 && final_byte != 's' as u8 && final_byte != 'p' as u8
        },
        input@ == seq![0x1bu8, '[' as u8] + content + seq![final_byte],
    ensures
        final(out)@ == old(out)@ + input@,
        final(filter)@ == old(filter)@,
{
    law_other_sequences_pass(old(filter)@, content, final_byte);
}

/// Law: a handler passes output on in the same way, without regard to sizes.
pub proof fn law_handler_passes_output(
    handler: &mut RegionHandler,
    data: &[u8],
    out: &mut Vec<u8>,
    result: EventResult,
)
    requires
        call_ensures(RegionHandler::on_pty_event, (handler, PtyEvent::Stream { data }, out), result),
        between_sequences(old(handler).filter@),
        forall|i: int| 1 <= i < data@.len() && #[trigger] data@[i] == 'c' as u8 ==> data@[i - 1] != 0x1b,
        (exists|i: int| 0 <= i < data@.len() && #[trigger] data@[i] == 0x1b) ==> forall|i: int|
            0 <= i < data@.len() ==> !ends_margins(#[trigger] data@[i]),
    ensures
        result == EventResult::Continue,
        final(out)@ + final(handler).filter@.buf == old(out)@ + data@,
{
    law_output_reaches_the_client(old(handler).filter@, data@);
    let r = filter_run(old(handler).filter@, data@);
    assert((old(out)@ + r.out) + r.next.buf =~= old(out)@ + (r.out + r.next.buf));
}

/// Law: a session in this mode begins with the margins of the server's screen, and the snapshot within
/// them. Where the screen does not fit the client's, nothing is written and another mode takes over, when
/// it begins and when the client's terminal changes its size.
pub proof fn law_region_begins(
    handler: &mut RegionHandler,
    snapshot: &[u8],
    later: &[(u64, Vec<u8>)],
    out: &mut Vec<u8>,
    result: EventResult,
)
    requires
        call_ensures(RegionHandler::init, (handler, snapshot, later, out), result),
        between_sequences(old(handler).filter@),
        later@.len() == 0,
        forall|i: int| 0 <= i < snapshot@.len() ==> #[trigger] snapshot@[i] != 0x1b,
    ensures
        ({
            let m = old(handler).filter@;
            if m.server_cols <= m.client_cols && m.server_rows <= m.client_rows {
                result == EventResult::Continue && final(out)@ == old(out)@ + (region_setup(m) + snapshot@)
            } else {
                result == EventResult::ChangeRenderMode(RenderMode::Cell) && final(out)@ == old(out)@
            }
        }),
{
    let m = old(handler).filter@;
    lemma_between_sequences(m);
    law_plain_output_passes(m.with_margins(), snapshot@);
    assert(chunk_data(later@) =~= Seq::<u8>::empty());
    assert(snapshot@ + Seq::<u8>::empty() =~= snapshot@);
    assert(old(out)@ + Seq::<u8>::empty() =~= old(out)@);
}

/// Law: when the client's terminal changes its size and the server's screen still fits, the margins are
/// set again for that size.
pub proof fn law_region_follows_client(
    handler: &mut RegionHandler,
    cols: u32,
    rows: u32,
    out: &mut Vec<u8>,
    result: EventResult,
)
    requires
        call_ensures(RegionHandler::on_sigwinch, (handler, cols, rows, out), result),
    ensures
        ({
            let m = old(handler).filter@;
            if m.server_cols <= cols && m.server_rows <= rows {
                &&& result == EventResult::Continue
                &&& final(out)@ == old(out)@ + region_setup(FilterModel { client_cols: cols, client_rows: rows, ..m })
                &&& final(handler).filter@.client_cols == cols
                &&& final(handler).filter@.client_rows == rows
                &&& final(handler).filter@.buf == m.buf
            } else {
                result == EventResult::ChangeRenderMode(RenderMode::Cell) && final(out)@ == old(out)@
            }
        }),
{
    assert(old(out)@ + Seq::<u8>::empty() =~= old(out)@);
}

/// Law: at the end all margins are gone: those of rows, and those of columns where they stood.
pub proof fn law_region_ends(handler: &mut RegionHandler, out: &mut Vec<u8>)
    requires
        call_ensures(RegionHandler::cleanup, (handler, out), ()),
    ensures
        old(handler).filter.declrmm_active ==> final(out)@ == old(out)@ + bytes_of("\x1b[r") + bytes_of("\x1b[?69l"),
        !old(handler).filter.declrmm_active ==> final(out)@ == old(out)@ + bytes_of("\x1b[r"),
{
    assert(old(out)@ + bytes_of("\x1b[r") + Seq::<u8>::empty() =~= old(out)@ + bytes_of("\x1b[r"));
}

/// Law: a filter that is told another size has that size on that side, and goes on with what it holds.
pub proof fn law_filter_sizes(filter: &mut VtFilter, rows: u32, cols: u32, client: &mut VtFilter)
    requires
        call_ensures(VtFilter::update_region, (filter, rows, cols), ()),
        call_ensures(VtFilter::update_client_size, (client, rows, cols), ()),
    ensures
        final(filter)@.server_rows == rows && final(filter)@.server_cols == cols,
        final(filter)@.client_rows == old(filter)@.client_rows && final(filter)@.client_cols == old(filter)@.client_cols,
        final(filter)@.buf == old(filter)@.buf && final(filter)@.state == old(filter)@.state,
        final(client)@.client_rows == rows && final(client)@.client_cols == cols,
        final(client)@.server_rows == old(client)@.server_rows && final(client)@.server_cols == old(client)@.server_cols,
        final(client)@.buf == old(client)@.buf && final(client)@.state == old(client)@.state,
        final(filter)@.in_alt_screen == old(filter)@.in_alt_screen,
        final(client)@.in_alt_screen == old(client)@.in_alt_screen,
{
}

} // verus!
