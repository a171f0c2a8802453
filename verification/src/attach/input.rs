//! Keystrokes on their way to the PTY: key bindings are taken out, replies of the client's own
//! terminal are dropped, everything else is forwarded.
use super::InputAction;
#[allow(unused_imports)]
use crate::text::{decimal, find_byte, is_digit, law_decimal_reads_back, lemma_ascii_is_utf8, lemma_find_byte,
    lemma_find_byte_is, lemma_split_first, split_on};
use crate::text::{find_from, parse_u32, push_bytes};
use vstd::prelude::*;
#[allow(unused_imports)]
use vstd::utf8::valid_utf8;

verus! {

/// Where the input stands within a key binding or an escape sequence.
#[derive(Clone, Copy, Debug, PartialEq, Eq, Structural)]
pub enum EscapeState {
    Normal,
    AfterNewline,
    AfterTilde,
    AfterCtrlA,
    Escape,
    InCsi,
}

/// What became of one chunk of input: the bytes for the PTY, and the binding that ended it.
pub struct InputResult {
    pub write: Vec<u8>,
    pub action: Option<InputAction>,
}

/// Reads keystrokes byte by byte and keeps what is still undecided between calls.
pub struct InputProcessor {
    state: EscapeState,
    seq_buf: Vec<u8>,
}

/// What a complete control sequence means to the input.
#[derive(Clone, Copy, Debug, PartialEq, Eq, Structural)]
pub enum CsiAction {
    CtrlA,
    Drop,
    Forward,
}

/// The state of an `InputProcessor`: where it stands, and the control sequence read so far.
pub struct InputModel {
    pub state: EscapeState,
    pub seq: Seq<u8>,
}

/// The outcome of some input: the state reached, the bytes sent, and the action if one came.
pub struct InputStep {
    pub next: InputModel,
    pub sent: Seq<u8>,
    pub action: Option<InputAction>,
}

/// The largest control sequence, without its introducer, that is held back.
pub open spec fn max_held_sequence() -> nat {
    256
}

/// The state of a fresh processor: at the start of a line, with nothing held.
pub open spec fn input_start() -> InputModel {
    InputModel { state: EscapeState::AfterNewline, seq: Seq::empty() }
}

impl InputModel {
    /// A control sequence is held only while one is being read, and never a longer one than the
    /// limit. All its bytes are parameter or intermediate bytes.
    pub open spec fn wf(self) -> bool {
        &&& self.seq.len() <= max_held_sequence()
        &&& self.state != EscapeState::InCsi ==> self.seq.len() == 0
        &&& forall|i: int| 0 <= i < self.seq.len() ==> 0x20 <= #[trigger] self.seq[i] <= 0x3f
    }

    /// The bytes that were read and are not decided yet.
    pub open spec fn held(self) -> Seq<u8> {
        match self.state {
            EscapeState::Normal | EscapeState::AfterNewline => Seq::empty(),
            EscapeState::AfterTilde => seq!['~' as u8],
            EscapeState::AfterCtrlA => seq![0x01u8],
            EscapeState::Escape => seq![0x1bu8],
            EscapeState::InCsi => seq![0x1bu8, '[' as u8] + self.seq,
        }
    }
}

/// A state outside of any control sequence.
pub open spec fn at(state: EscapeState) -> InputModel {
    InputModel { state, seq: Seq::empty() }
}

/// A step that sends `sent`, goes to `next` and triggers nothing.
pub open spec fn goes(next: InputModel, sent: Seq<u8>) -> InputStep {
    InputStep { next, sent, action: None }
}

/// The private marker of a control sequence: its first byte, where that is one of `<=>?`.
pub open spec fn private_marker(content: Seq<u8>) -> Option<u8> {
    if content.len() > 0 && 0x3c <= content[0] <= 0x3f {
        Some(content[0])
    } else {
        None
    }
}

/// True when `s` consists of parameter bytes alone.
pub open spec fn all_params(s: Seq<u8>) -> bool {
    forall|i: int| 0 <= i < s.len() ==> 0x30 <= #[trigger] s[i] <= 0x3f
}

/// True for the modifier parameter of a key report in which the control key is held: the
/// parameter is one more than a bit set, in which control is the bit of value four.
pub open spec fn has_ctrl(modifiers: u32) -> bool {
    modifiers.wrapping_sub(1) & 4 != 0
}

/// The modifier parameter of a key report: the second field up to a colon, one where it is
/// missing or no number.
pub open spec fn key_modifiers(params: Seq<u8>) -> u32 {
    let fields = crate::text::split_on(params, ';' as u8);
    if fields.len() > 1 {
        match crate::text::parsed_u32(crate::text::split_on(fields[1], ':' as u8)[0]) {
            Some(n) => n,
            None => 1,
        }
    } else {
        1
    }
}

/// True when `params` report the key `a` pressed with control.
pub open spec fn reports_ctrl_a(params: Seq<u8>) -> bool {
    &&& valid_utf8(params)
    &&& crate::text::parsed_u32(crate::text::split_on(params, ';' as u8)[0]) == Some(97u32)
    &&& has_ctrl(key_modifiers(params))
}

/// What a control sequence with these contents and this final byte means: control-A in its long
/// form, a reply of the terminal to a query (device attributes, cursor position, mode report,
/// keyboard flags), or anything else.
pub open spec fn csi_meaning(content: Seq<u8>, final_byte: u8) -> CsiAction {
    let private = private_marker(content);
    if final_byte == 'u' as u8 && private is None && all_params(content) && reports_ctrl_a(content) {
        CsiAction::CtrlA
    } else if (private == Some('?' as u8) && (final_byte == 'c' as u8 || final_byte == 'y' as u8 || final_byte == 'u' as u8))
        || (private == Some('>' as u8) && final_byte == 'c' as u8) || (private is None && final_byte == 'R' as u8) {
        CsiAction::Drop
    } else {
        CsiAction::Forward
    }
}

/// The action bound to a byte that follows control-A.
pub open spec fn bound_action(byte: u8) -> Option<InputAction> {
    if byte == 0x00 || byte == ' ' as u8 {
        Some(InputAction::SwitchNext)
    } else if byte == 0x01 {
        Some(InputAction::SwitchRecent)
    } else if byte == 'c' as u8 {
        Some(InputAction::Create)
    } else if byte == 'F' as u8 {
        Some(InputAction::ForceResize)
    } else if byte == 'R' as u8 {
        Some(InputAction::ForceRefresh)
    } else if byte == '"' as u8 {
        Some(InputAction::ShowList)
    } else if byte == 'i' as u8 {
        Some(InputAction::ShowInfo)
    } else if byte == 'k' as u8 {
        Some(InputAction::Destroy)
    } else if byte == 's' as u8 {
        Some(InputAction::ShowScrollback)
    } else if byte == '?' as u8 {
        Some(InputAction::ShowHelp)
    } else if byte == 'p' as u8 {
        Some(InputAction::SwitchPrevious)
    } else if byte == 'd' as u8 {
        Some(InputAction::Detach)
    } else if '0' as u8 <= byte <= '9' as u8 {
        Some(InputAction::SwitchIndex((byte - '0' as u8) as u8))
    } else {
        None
    }
}

/// What ordinary text outside of any sequence does: control-A and escape are held, a tilde is
/// held at the start of a line, the rest is sent.
pub open spec fn text_step(line_start: bool, byte: u8) -> InputStep {
    if byte == 0x01 {
        goes(at(EscapeState::AfterCtrlA), Seq::empty())
    } else if byte == 0x1b {
        goes(at(EscapeState::Escape), Seq::empty())
    } else if line_start && byte == '~' as u8 {
        goes(at(EscapeState::AfterTilde), Seq::empty())
    } else if byte == '\r' as u8 || byte == '\n' as u8 {
        goes(at(EscapeState::AfterNewline), seq![byte])
    } else {
        goes(at(EscapeState::Normal), seq![byte])
    }
}

/// What a byte does within a control sequence: the sequence grows until its final byte decides
/// what becomes of it; a byte that cannot belong to it, or too long a sequence, lets it go.
pub open spec fn csi_step(m: InputModel, byte: u8) -> InputStep {
    if 0x20 <= byte <= 0x3f {
        let seq = m.seq.push(byte);
        if seq.len() > max_held_sequence() {
            goes(at(EscapeState::Normal), seq![0x1bu8, '[' as u8] + seq)
        } else {
            goes(InputModel { state: EscapeState::InCsi, seq }, Seq::empty())
        }
    } else if 0x40 <= byte <= 0x7e {
        match csi_meaning(m.seq, byte) {
            CsiAction::CtrlA => goes(at(EscapeState::AfterCtrlA), Seq::empty()),
            CsiAction::Drop => goes(at(EscapeState::Normal), Seq::empty()),
            CsiAction::Forward => goes(at(EscapeState::Normal), m.held().push(byte)),
        }
    } else if byte == 0x1b {
        goes(at(EscapeState::Escape), m.held())
    } else {
        goes(at(EscapeState::Normal), m.held().push(byte))
    }
}

/// What one byte does to the input.
pub open spec fn input_step(m: InputModel, byte: u8) -> InputStep {
    match m.state {
        EscapeState::Normal => text_step(false, byte),
        EscapeState::AfterNewline => text_step(true, byte),
        EscapeState::AfterTilde => if byte == '.' as u8 {
            InputStep { next: m, sent: Seq::empty(), action: Some(InputAction::Detach) }
        } else if byte == 0x1b {
            goes(at(EscapeState::Escape), m.held())
        } else if byte == '\r' as u8 || byte == '\n' as u8 {
            goes(at(EscapeState::AfterNewline), m.held().push(byte))
        } else {
            goes(at(EscapeState::Normal), m.held().push(byte))
        },
        EscapeState::AfterCtrlA => if bound_action(byte) is Some {
            InputStep { next: m, sent: Seq::empty(), action: bound_action(byte) }
        } else if byte == 0x1b {
            goes(at(EscapeState::Escape), m.held())
        } else if byte == 'a' as u8 {
            goes(at(EscapeState::Normal), m.held())
        } else {
            goes(at(EscapeState::Normal), m.held().push(byte))
        },
        EscapeState::Escape => if byte == '[' as u8 {
            goes(at(EscapeState::InCsi), Seq::empty())
        } else if byte == 0x1b {
            goes(m, m.held())
        } else {
            goes(at(EscapeState::Normal), m.held().push(byte))
        },
        EscapeState::InCsi => csi_step(m, byte),
    }
}

/// What a whole chunk does: its bytes one after the other, up to the first action, which also
/// ends the chunk and leaves the processor as new.
pub open spec fn input_run(m: InputModel, buf: Seq<u8>) -> InputStep
    decreases buf.len(),
{
    if buf.len() == 0 {
        goes(m, Seq::empty())
    } else {
        let s = input_step(m, buf[0]);
        if s.action is Some {
            InputStep { next: input_start(), sent: s.sent, action: s.action }
        } else {
            let r = input_run(s.next, buf.skip(1));
            InputStep { next: r.next, sent: s.sent + r.sent, action: r.action }
        }
    }
}

impl View for InputProcessor {
    type V = InputModel;

    closed spec fn view(&self) -> InputModel {
        InputModel { state: self.state, seq: self.seq_buf@ }
    }
}

impl InputProcessor {
    /// A processor at the start of a line.
    pub fn new() -> (processor: Self)
        ensures
            processor@ == input_start(),
            processor@.wf(),
    {
        InputProcessor { state: EscapeState::AfterNewline, seq_buf: Vec::new() }
    }

    /// Forgets everything that is held.
    pub fn reset(&mut self)
        ensures
            final(self)@ == input_start(),
            final(self)@.wf(),
    {
        self.state = EscapeState::AfterNewline;
        self.seq_buf.clear();
        assert(self@ =~= input_start());
    }

    /// Takes a chunk of input and gives what to send and the action that it triggers, if any.
    pub fn process(&mut self, buf: &[u8]) -> (result: InputResult)
        requires
            old(self)@.wf(),
        ensures
            final(self)@.wf(),
            final(self)@ == input_run(old(self)@, buf@).next,
            result.write@ == input_run(old(self)@, buf@).sent,
            result.action == input_run(old(self)@, buf@).action,
    {
        let mut write: Vec<u8> = Vec::new();
        let mut i: usize = 0;
        let ghost whole = input_run(self@, buf@);
        assert(buf@.skip(0) =~= buf@);
        while i < buf.len()
            invariant
                i <= buf.len(),
                self@.wf(),
                whole == input_run(old(self)@, buf@),
                whole.next == input_run(self@, buf@.skip(i as int)).next,
                whole.action == input_run(self@, buf@.skip(i as int)).action,
                whole.sent == write@ + input_run(self@, buf@.skip(i as int)).sent,
            decreases buf.len() - i,
        {
            let ghost rest = buf@.skip(i as int);
            let ghost before = write@;
            assert(rest.skip(1) =~= buf@.skip(i + 1));
            if let Some(action) = self.process_byte(buf[i], &mut write) {
                self.state = EscapeState::AfterNewline;
                self.seq_buf.clear();
                assert(self@ =~= input_start());
                return InputResult { write, action: Some(action) };
            }
            assert(whole.sent =~= write@ + input_run(self@, buf@.skip(i + 1)).sent);
            i = i + 1;
        }
        assert(write@ + Seq::<u8>::empty() =~= write@);
        InputResult { write, action: None }
    }

    /// Sends the control sequence that is held, introducer first.
    pub fn flush_csi(&mut self, to_send: &mut Vec<u8>)
        ensures
            final(self)@ == (InputModel { state: old(self)@.state, seq: Seq::empty() }),
            final(to_send)@ == old(to_send)@ + seq![0x1bu8, '[' as u8] + old(self)@.seq,
    {
        let ghost before = to_send@;
        to_send.push(0x1B);
        to_send.push('[' as u8);
        push_bytes(to_send, self.seq_buf.as_slice());
        self.seq_buf.clear();
        assert(self@.seq =~= Seq::empty());
        assert(to_send@ =~= before + seq![0x1bu8, '[' as u8] + old(self)@.seq);
    }

    /// Takes one byte of input. An action leaves the state as it was.
    #[verifier::rlimit(40)]
    pub fn process_byte(&mut self, byte: u8, to_send: &mut Vec<u8>) -> (action: Option<InputAction>)
        requires
            old(self)@.wf(),
        ensures
            final(self)@.wf(),
            final(self)@ == input_step(old(self)@, byte).next,
            final(to_send)@ == old(to_send)@ + input_step(old(self)@, byte).sent,
            action == input_step(old(self)@, byte).action,
    {
        let ghost m = self@;
        let ghost before = to_send@;
        let ghost step = input_step(m, byte);
        let action = match self.state {
            EscapeState::Normal => match byte as char {
                '\x01' => { self.state = EscapeState::AfterCtrlA; None }
                '\x1b' => { self.state = EscapeState::Escape; None }
                '\r' | '\n' => {
                    to_send.push(byte);
                    self.state = EscapeState::AfterNewline;
                    None
                }
                _ => { to_send.push(byte); None }
            },
            EscapeState::AfterNewline => match byte as char {
                '\x01' => { self.state = EscapeState::AfterCtrlA; None }
                '\x1b' => { self.state = EscapeState::Escape; None }
                '~' => { self.state = EscapeState::AfterTilde; None }
                '\r' | '\n' => { to_send.push(byte); None }
                _ => { to_send.push(byte); self.state = EscapeState::Normal; None }
            },
            EscapeState::AfterTilde => match byte as char {
                '.' => Some(InputAction::Detach),
                '\x1b' => {
                    to_send.push('~' as u8);
                    self.state = EscapeState::Escape;
                    None
                }
                '\r' | '\n' => {
                    to_send.push('~' as u8);
                    to_send.push(byte);
                    self.state = EscapeState::AfterNewline;
                    None
                }
                _ => {
                    to_send.push('~' as u8);
                    to_send.push(byte);
                    self.state = EscapeState::Normal;
                    None
                }
            },
            EscapeState::AfterCtrlA => match byte as char {
                '\x00' => Some(InputAction::SwitchNext),
                '\x01' => Some(InputAction::SwitchRecent),
                '\x1b' => {
                    to_send.push(0x01);
                    self.state = EscapeState::Escape;
                    None
                }
                'a' => { to_send.push(0x01); self.state = EscapeState::Normal; None }
                'c' => Some(InputAction::Create),
                'F' => Some(InputAction::ForceResize),
                'R' => Some(InputAction::ForceRefresh),
                '"' => Some(InputAction::ShowList),
                'i' => Some(InputAction::ShowInfo),
                'k' => Some(InputAction::Destroy),
                's' => Some(InputAction::ShowScrollback),
                '?' => Some(InputAction::ShowHelp),
                ' ' => Some(InputAction::SwitchNext),
                'p' => Some(InputAction::SwitchPrevious),
                'd' => Some(InputAction::Detach),
                '0'..='9' => Some(InputAction::SwitchIndex(byte - 48)),
                _ => {
                    to_send.push(0x01);
                    to_send.push(byte);
                    self.state = EscapeState::Normal;
                    None
                }
            },
            EscapeState::Escape => match byte as char {
                '[' => {
                    self.seq_buf.clear();
                    self.state = EscapeState::InCsi;
                    None
                }
                '\x1b' => { to_send.push(0x1B); None }
                _ => {
                    to_send.push(0x1B);
                    to_send.push(byte);
                    self.state = EscapeState::Normal;
                    None
                }
            },
            EscapeState::InCsi => match byte as char {
                ' '..='?' => {
                    self.seq_buf.push(byte);
                    if self.seq_buf.len() > 256 {
                        self.flush_csi(to_send);
                        self.state = EscapeState::Normal;
                    }
                    None
                }
                '@'..='~' => match classify_csi(self.seq_buf.as_slice(), byte) {
                    CsiAction::CtrlA => {
                        self.seq_buf.clear();
                        self.state = EscapeState::AfterCtrlA;
                        None
                    }
                    CsiAction::Drop => {
                        self.seq_buf.clear();
                        self.state = EscapeState::Normal;
                        None
                    }
                    CsiAction::Forward => {
                        self.flush_csi(to_send);
                        to_send.push(byte);
                        self.state = EscapeState::Normal;
                        None
                    }
                },
                '\x1b' => {
                    self.flush_csi(to_send);
                    self.state = EscapeState::Escape;
                    None
                }
                _ => {
                    self.flush_csi(to_send);
                    to_send.push(byte);
                    self.state = EscapeState::Normal;
                    None
                }
            },
        };
        assert(self@.seq =~= step.next.seq);
        assert(to_send@ =~= before + step.sent);
        action
    }
}

/// Decides what a complete control sequence means. `content` is what stands between its
/// introducer and its final byte.
pub fn classify_csi(content: &[u8], final_byte: u8) -> (meaning: CsiAction)
    ensures
        meaning == csi_meaning(content@, final_byte),
{
    let private: Option<u8> = if content.len() > 0 && content[0] >= '<' as u8 && content[0] <= '?' as u8 {
        Some(content[0])
    } else {
        None
    };
    if final_byte == 'u' as u8 && private.is_none() {
        let mut i: usize = 0;
        while i < content.len() && content[i] >= 0x30 && content[i] <= 0x3f
            invariant
                i <= content.len(),
                forall|j: int| 0 <= j < i ==> 0x30 <= #[trigger] content@[j] <= 0x3f,
            decreases content.len() - i,
        {
            i = i + 1;
        }
        if i == content.len() && is_csi_u_ctrl_a(content) {
            return CsiAction::CtrlA;
        }
    }
    let drop = match private {
        Some(marker) => if marker == '?' as u8 {
            final_byte == 'c' as u8 || final_byte == 'y' as u8 || final_byte == 'u' as u8
        } else {
            marker == '>' as u8 && final_byte == 'c' as u8
        },
        None => final_byte == 'R' as u8,
    };
    if drop {
        CsiAction::Drop
    } else {
        CsiAction::Forward
    }
}

/// True when the parameters of a key report stand for control-A.
pub fn is_csi_u_ctrl_a(params: &[u8]) -> (is_ctrl_a: bool)
    ensures
        is_ctrl_a == reports_ctrl_a(params@),
{
    if core::str::from_utf8(params).is_err() {
        return false;
    }
    let ghost fields = crate::text::split_on(params@, ';' as u8);
    assert(params@.skip(0) =~= params@);
    let end = find_from(params, ';' as u8, 0);
    assert(fields[0] =~= params@.take(end as int));
    let codepoint = match parse_u32(&params[0..end]) {
        Some(n) => n,
        None => return false,
    };
    let mut modifiers: u32 = 1;
    if end < params.len() {
        let second = &params[end + 1..params.len()];
        let ghost rest = params@.skip(end + 1);
        assert(second@ =~= rest);
        assert(second@.skip(0) =~= second@);
        let stop = find_from(second, ';' as u8, 0);
        assert(crate::text::split_on(rest, ';' as u8)[0] =~= rest.take(stop as int));
        assert(fields[1] =~= rest.take(stop as int));
        let field = &second[0..stop];
        assert(field@.skip(0) =~= field@);
        let colon = find_from(field, ':' as u8, 0);
        assert(crate::text::split_on(field@, ':' as u8)[0] =~= field@.take(colon as int));
        if let Some(n) = parse_u32(&field[0..colon]) {
            modifiers = n;
        }
    }
    codepoint == 97 && modifiers.wrapping_sub(1) & 4 != 0
}

/// One outcome followed by another: the bytes sent add up; an action of the first ends it.
pub open spec fn followed_by(first: InputStep, second: InputStep) -> InputStep {
    if first.action is Some {
        first
    } else {
        InputStep { next: second.next, sent: first.sent + second.sent, action: second.action }
    }
}

/// Law: how input is cut into chunks makes no difference. Two chunks give together what their
/// concatenation gives, unless the first already ends in an action.
pub proof fn law_input_chunks(m: InputModel, a: Seq<u8>, b: Seq<u8>)
    ensures
        input_run(m, a + b) == followed_by(input_run(m, a), input_run(input_run(m, a).next, b)),
    decreases a.len(),
{
    if a.len() == 0 {
        assert(a + b =~= b);
        let r = input_run(m, b);
        assert(Seq::<u8>::empty() + r.sent =~= r.sent);
    } else {
        let s = input_step(m, a[0]);
        assert((a + b)[0] == a[0]);
        assert((a + b).skip(1) =~= a.skip(1) + b);
        if s.action is None {
            law_input_chunks(s.next, a.skip(1), b);
            let r = input_run(s.next, a.skip(1));
            let q = input_run(r.next, b);
            assert(s.sent + (r.sent + q.sent) =~= (s.sent + r.sent) + q.sent);
        }
    }
}

/// True for a byte that ends a line.
pub open spec fn ends_line(b: u8) -> bool {
    b == '\r' as u8 || b == '\n' as u8
}

/// True for text that holds nothing special: no control-A, no escape, and no tilde at the start
/// of a line.
pub open spec fn is_plain(line_start: bool, buf: Seq<u8>) -> bool {
    forall|i: int|
        0 <= i < buf.len() ==> {
            &&& #[trigger] buf[i] != 0x01
            &&& buf[i] != 0x1b
            &&& buf[i] == '~' as u8 ==> !(if i == 0 {
                line_start
            } else {
                ends_line(buf[i - 1])
            })
        }
}

/// Law: ordinary text reaches the PTY unchanged and at once, and triggers nothing.
pub proof fn law_plain_input_passes(m: InputModel, buf: Seq<u8>)
    requires
        m.wf(),
        m.state == EscapeState::Normal || m.state == EscapeState::AfterNewline,
        is_plain(m.state == EscapeState::AfterNewline, buf),
    ensures
        input_run(m, buf).sent == buf,
        input_run(m, buf).action is None,
        input_run(m, buf).next.held().len() == 0,
    decreases buf.len(),
{
    if buf.len() > 0 {
        let s = input_step(m, buf[0]);
        let rest = buf.skip(1);
        assert(s.sent == seq![buf[0]]);
        assert forall|i: int| 0 <= i < rest.len() implies {
            &&& #[trigger] rest[i] != 0x01
            &&& rest[i] != 0x1b
            &&& rest[i] == '~' as u8 ==> !(if i == 0 {
                s.next.state == EscapeState::AfterNewline
            } else {
                ends_line(rest[i - 1])
            })
        } by {
            assert(rest[i] == buf[i + 1]);
            if i > 0 {
                assert(rest[i - 1] == buf[i]);
            }
        }
        law_plain_input_passes(s.next, rest);
        assert(buf =~= seq![buf[0]] + rest);
    }
}

/// True when a byte is taken out of the stream without an action: the second byte of an escaped
/// control-A, or the end of a control sequence that is not forwarded.
pub open spec fn takes_out(m: InputModel, byte: u8) -> bool {
    ||| m.state == EscapeState::AfterCtrlA && byte == 'a' as u8
    ||| m.state == EscapeState::InCsi && 0x40 <= byte <= 0x7e && csi_meaning(m.seq, byte)
        != CsiAction::Forward
}

/// True when nothing of `buf` is taken out of the stream and no action comes.
pub open spec fn forwards_all(m: InputModel, buf: Seq<u8>) -> bool
    decreases buf.len(),
{
    buf.len() > 0 ==> {
        let s = input_step(m, buf[0]);
        !takes_out(m, buf[0]) && s.action is None && forwards_all(s.next, buf.skip(1))
    }
}

/// One byte that is not taken out is either sent or held, after everything before it.
proof fn lemma_step_conserves(m: InputModel, byte: u8)
    requires
        m.wf(),
        !takes_out(m, byte),
        input_step(m, byte).action is None,
    ensures
        m.held().push(byte) == input_step(m, byte).sent + input_step(m, byte).next.held(),
{
    let s = input_step(m, byte);
    if m.state == EscapeState::InCsi {
        assert(m.held().push(byte) =~= seq![0x1bu8, '[' as u8] + m.seq.push(byte));
        assert(m.held().push(byte) =~= s.sent + s.next.held());
    } else {
        assert(m.held().push(byte) =~= s.sent + s.next.held());
    }
}

/// Law: no keystroke is lost, doubled or reordered. What was held and what came in is what was
/// sent and what is held now, as long as nothing was meant for the session itself.
pub proof fn law_input_conserves(m: InputModel, buf: Seq<u8>)
    requires
        m.wf(),
        forwards_all(m, buf),
    ensures
        m.held() + buf == input_run(m, buf).sent + input_run(m, buf).next.held(),
        input_run(m, buf).action is None,
        input_run(m, buf).next.wf(),
    decreases buf.len(),
{
    if buf.len() > 0 {
        let b = buf[0];
        let s = input_step(m, b);
        lemma_step_wf(m, b);
        lemma_step_conserves(m, b);
        law_input_conserves(s.next, buf.skip(1));
        let r = input_run(s.next, buf.skip(1));
        assert(buf =~= seq![b] + buf.skip(1));
        assert(m.held() + buf =~= m.held().push(b) + buf.skip(1));
        assert((s.sent + s.next.held()) + buf.skip(1) =~= s.sent + (s.next.held() + buf.skip(1)));
        assert(s.sent + (r.sent + r.next.held()) =~= (s.sent + r.sent) + r.next.held());
    } else {
        assert(m.held() + buf =~= Seq::<u8>::empty() + m.held());
    }
}

/// A step leads from a well-formed state to a well-formed state.
proof fn lemma_step_wf(m: InputModel, byte: u8)
    requires
        m.wf(),
    ensures
        input_step(m, byte).next.wf(),
{
    if m.state == EscapeState::InCsi {
        let grown = m.seq.push(byte);
        assert forall|i: int| 0 <= i < grown.len() && 0x20 <= byte <= 0x3f implies 0x20
            <= #[trigger] grown[i] <= 0x3f by {
            if i < m.seq.len() {
                assert(grown[i] == m.seq[i]);
            }
        }
    }
}

/// Law: any input keeps the bound on what is held back.
pub proof fn law_input_bounded(m: InputModel, buf: Seq<u8>)
    requires
        m.wf(),
    ensures
        input_run(m, buf).next.wf(),
        input_run(m, buf).next.held().len() <= 2 + max_held_sequence(),
        input_run(m, buf).action is Some ==> input_run(m, buf).next == input_start(),
    decreases buf.len(),
{
    if buf.len() > 0 {
        lemma_step_wf(m, buf[0]);
        law_input_bounded(input_step(m, buf[0]).next, buf.skip(1));
    }
}

/// The bytes of a control sequence from its introducer to its final byte.
pub open spec fn csi_sequence(content: Seq<u8>, final_byte: u8) -> Seq<u8> {
    seq![0x1bu8, '[' as u8] + content + seq![final_byte]
}

/// The rest of a control sequence, from any point within it.
proof fn lemma_csi_rest(m: InputModel, rest: Seq<u8>, final_byte: u8)
    requires
        m.wf(),
        m.state == EscapeState::InCsi,
        m.seq.len() + rest.len() <= max_held_sequence(),
        forall|i: int| 0 <= i < rest.len() ==> 0x20 <= #[trigger] rest[i] <= 0x3f,
        0x40 <= final_byte <= 0x7e,
    ensures
        input_run(m, rest.push(final_byte)) == csi_step(
            InputModel { state: EscapeState::InCsi, seq: m.seq + rest },
            final_byte,
        ),
    decreases rest.len(),
{
    let all = rest.push(final_byte);
    let s = input_step(m, all[0]);
    if rest.len() == 0 {
        assert(all.skip(1) =~= Seq::<u8>::empty());
        assert(m.seq + rest =~= m.seq);
        assert(s.sent + Seq::<u8>::empty() =~= s.sent);
        assert(input_run(s.next, all.skip(1)) == goes(s.next, Seq::empty()));
    } else {
        lemma_step_wf(m, all[0]);
        assert(all.skip(1) =~= rest.skip(1).push(final_byte));
        assert(m.seq.push(rest[0]) + rest.skip(1) =~= m.seq + rest);
        lemma_csi_rest(s.next, rest.skip(1), final_byte);
        let r = input_run(s.next, all.skip(1));
        assert(Seq::<u8>::empty() + r.sent =~= r.sent);
    }
}

/// Law: a complete control sequence typed outside of any other is judged as a whole. A reply of
/// the terminal vanishes, a long-form control-A acts as the byte 0x01 does, and every other
/// sequence is sent on unchanged.
pub proof fn law_control_sequences(m: InputModel, content: Seq<u8>, final_byte: u8)
    requires
        m.wf(),
        m.state == EscapeState::Normal || m.state == EscapeState::AfterNewline,
        content.len() <= max_held_sequence(),
        forall|i: int| 0 <= i < content.len() ==> 0x20 <= #[trigger] content[i] <= 0x3f,
        0x40 <= final_byte <= 0x7e,
    ensures
        match csi_meaning(content, final_byte) {
            CsiAction::Drop => input_run(m, csi_sequence(content, final_byte)) == goes(
                at(EscapeState::Normal),
                Seq::empty(),
            ),
            CsiAction::CtrlA => input_run(m, csi_sequence(content, final_byte)) == input_run(
                m,
                seq![0x01u8],
            ),
            CsiAction::Forward => input_run(m, csi_sequence(content, final_byte)) == goes(
                at(EscapeState::Normal),
                csi_sequence(content, final_byte),
            ),
        },
{
    let all = csi_sequence(content, final_byte);
    let esc = at(EscapeState::Escape);
    let csi = at(EscapeState::InCsi);
    assert(all.skip(1).skip(1) =~= content.push(final_byte));
    assert(csi.seq + content =~= content);
    lemma_csi_rest(csi, content, final_byte);
    let r = input_run(csi, content.push(final_byte));
    assert(input_step(esc, '[' as u8) == goes(csi, Seq::empty()));
    assert(all.skip(1)[0] == '[' as u8);
    assert(Seq::<u8>::empty() + r.sent =~= r.sent);
    assert(input_run(esc, all.skip(1)) == r);
    assert(input_step(m, all[0]) == goes(esc, Seq::empty()));
    assert(input_run(m, all) == r);
    let a = at(EscapeState::AfterCtrlA);
    assert(seq![0x01u8].skip(1) =~= Seq::<u8>::empty());
    assert(input_step(m, 0x01) == goes(a, Seq::empty()));
    assert(Seq::<u8>::empty() + Seq::<u8>::empty() =~= Seq::<u8>::empty());
    assert(input_run(a, seq![0x01u8].skip(1)) == goes(a, Seq::empty()));
    assert(input_run(m, seq![0x01u8]) == goes(a, Seq::empty()));
    assert((seq![0x1bu8, '[' as u8] + content).push(final_byte) =~= all);
}

/// True for a byte between the introducer and the final byte of a control sequence.
pub open spec fn inside_csi(content: Seq<u8>) -> bool {
    forall|i: int| 0 <= i < content.len() ==> 0x20 <= #[trigger] content[i] <= 0x3f
}

/// True for a processor that is not in the middle of anything.
pub open spec fn between_keys(m: InputModel) -> bool {
    m.wf() && m.held().len() == 0
}

proof fn lemma_between_keys(m: InputModel)
    requires
        between_keys(m),
    ensures
        m.state == EscapeState::Normal || m.state == EscapeState::AfterNewline,
{
    if m.state == EscapeState::InCsi {
        assert(m.held().len() == 2 + m.seq.len());
    }
}

/// Law: a key that the terminal reports by a control sequence reaches the PTY as it is and at once,
/// whatever the sequence holds. Cursor keys, function keys, editing keys, mouse reports and the
/// marks around pasted text are such keys: only `c`, `y`, `u` and `R` end anything else.
pub proof fn law_keys_in_sequences_pass(m: InputModel, content: Seq<u8>, final_byte: u8)
    requires
        between_keys(m),
        content.len() <= 256,
        inside_csi(content),
        0x40 <= final_byte <= 0x7e,
        final_byte != 'c' as u8,
        final_byte != 'y' as u8,
        final_byte != 'u' as u8,
        final_byte != 'R' as u8,
    ensures
        ({
            let r = input_run(m, seq![0x1bu8, '[' as u8] + content + seq![final_byte]);
            &&& r.sent == seq![0x1bu8, '[' as u8] + content + seq![final_byte]
            &&& r.action is None
            &&& r.next.held().len() == 0
        }),
{
    lemma_between_keys(m);
    law_control_sequences(m, content, final_byte);
}

/// Law: of the sequences that end in `c`, `y`, `u` or `R`, only the replies of a terminal are kept
/// from the PTY: `CSI ? .. c`, `CSI > .. c`, `CSI ? .. y`, `CSI ? .. u`, and `CSI .. R` where it does not
/// begin with one of `<=>?`. All others are sent as they are, but for a key report (`CSI .. u`).
pub proof fn law_replies_are_kept_back(m: InputModel, content: Seq<u8>, final_byte: u8)
    requires
        between_keys(m),
        content.len() <= 256,
        inside_csi(content),
        final_byte == 'c' as u8 || final_byte == 'y' as u8 || final_byte == 'R' as u8 || (final_byte == 'u' as u8
            && content.len() > 0 && 0x3c <= content[0]),
    ensures
        ({
            let whole = seq![0x1bu8, '[' as u8] + content + seq![final_byte];
            let r = input_run(m, whole);
            let begins = |b: char| content.len() > 0 && content[0] == b as u8;
            let reply = if final_byte == 'c' as u8 {
                begins('?') || begins('>')
            } else if final_byte == 'R' as u8 {
                !begins('<') && !begins('=') && !begins('>') && !begins('?')
            } else {
                begins('?')
            };
            &&& r.action is None
            &&& r.next.held().len() == 0
            &&& r.sent == (if reply {
                Seq::empty()
            } else {
                whole
            })
        }),
{
    lemma_between_keys(m);
    law_control_sequences(m, content, final_byte);
}

/// A step that triggers nothing, followed by another.
proof fn lemma_run_two(m: InputModel, a: u8, b: u8)
    requires
        input_step(m, a).action is None,
    ensures
        ({
            let s = input_step(m, a);
            let t = input_step(s.next, b);
            input_run(m, seq![a, b]) == InputStep {
                next: if t.action is Some {
                    input_start()
                } else {
                    t.next
                },
                sent: s.sent + t.sent,
                action: t.action,
            }
        }),
{
    let s = input_step(m, a);
    let t = input_step(s.next, b);
    let one = seq![a, b].skip(1);
    assert(one[0] == b);
    assert(one.skip(1) =~= Seq::<u8>::empty());
    assert(input_run(t.next, one.skip(1)) == goes(t.next, Seq::empty()));
    assert(t.sent + Seq::<u8>::empty() =~= t.sent);
    let r = input_run(s.next, one);
    assert(r.sent == t.sent && r.action == t.action);
    assert(r.next == (if t.action is Some {
        input_start()
    } else {
        t.next
    }));
    assert(seq![a, b][0] == a);
}

/// Law: what a key does after control-A, wherever it is typed: next, previous and recent PTY, PTY by
/// its number, list, create, destroy, resize, refresh, history, information, help and detach. Nothing
/// of a binding is sent.
pub proof fn law_key_bindings(m: InputModel, digit: u8)
    requires
        between_keys(m),
        digit <= 9,
    ensures
        ({
            let typed = |key: u8| input_run(m, seq![0x01u8, key]);
            let does = |key: u8, action: InputAction|
                typed(key).action == Some(action) && typed(key).sent.len() == 0 && typed(key).next == input_start();
            &&& does(0x00, InputAction::SwitchNext)
            &&& does(' ' as u8, InputAction::SwitchNext)
            &&& does('p' as u8, InputAction::SwitchPrevious)
            &&& does(0x01, InputAction::SwitchRecent)
            &&& does((48 + digit) as u8, InputAction::SwitchIndex(digit))
            &&& does('"' as u8, InputAction::ShowList)
            &&& does('c' as u8, InputAction::Create)
            &&& does('k' as u8, InputAction::Destroy)
            &&& does('F' as u8, InputAction::ForceResize)
            &&& does('R' as u8, InputAction::ForceRefresh)
            &&& does('s' as u8, InputAction::ShowScrollback)
            &&& does('i' as u8, InputAction::ShowInfo)
            &&& does('?' as u8, InputAction::ShowHelp)
            &&& does('d' as u8, InputAction::Detach)
        }),
{
    lemma_between_keys(m);
    lemma_run_two(m, 0x01, 0x00);
    lemma_run_two(m, 0x01, ' ' as u8);
    lemma_run_two(m, 0x01, 'p' as u8);
    lemma_run_two(m, 0x01, 0x01);
    lemma_run_two(m, 0x01, (48 + digit) as u8);
    lemma_run_two(m, 0x01, '"' as u8);
    lemma_run_two(m, 0x01, 'c' as u8);
    lemma_run_two(m, 0x01, 'k' as u8);
    lemma_run_two(m, 0x01, 'F' as u8);
    lemma_run_two(m, 0x01, 'R' as u8);
    lemma_run_two(m, 0x01, 's' as u8);
    lemma_run_two(m, 0x01, 'i' as u8);
    lemma_run_two(m, 0x01, '?' as u8);
    lemma_run_two(m, 0x01, 'd' as u8);
}

/// True for a key that means something after control-A, `a` among them.
pub open spec fn means_something(key: u8) -> bool {
    key <= 0x01 || key == 0x1b || 48 <= key <= 57 || key == ' ' as u8 || key == 'p' as u8 || key == '"' as u8 || key == 'c' as u8 || key == 'k' as u8 || key == 'F' as u8 || key == 'R' as u8 || key == 's' as u8 || key == 'i' as u8 || key == '?' as u8 || key == 'd' as u8 || key == 'a' as u8
}

/// Law: control-A and a key that has no meaning after it are both sent, in this order; control-A and
/// `a` send a control-A. Neither triggers anything.
pub proof fn law_unbound_keys_pass(m: InputModel, key: u8)
    requires
        between_keys(m),
        key == 'a' as u8 || !means_something(key),
    ensures
        ({
            let r = input_run(m, seq![0x01u8, key]);
            &&& r.action is None
            &&& r.next.held().len() == 0
            &&& r.sent == (if key == 'a' as u8 {
                seq![0x01u8]
            } else {
                seq![0x01u8, key]
            })
        }),
{
    lemma_between_keys(m);
    lemma_run_two(m, 0x01, key);
    assert(input_run(m, seq![0x01u8, key]).sent =~= (if key == 'a' as u8 {
        seq![0x01u8]
    } else {
        seq![0x01u8, key]
    }));
}

/// Law: a tilde and a dot detach at the start of a line, and nowhere else. A line starts where the
/// session does, and after each line end.
pub proof fn law_tilde_dot(m: InputModel, text: Seq<u8>, line_end: u8, other: u8)
    requires
        between_keys(m),
        line_end == '\r' as u8 || line_end == '\n' as u8,
        is_plain(m.state == EscapeState::AfterNewline, text),
        other != 0x01,
        other != 0x1b,
        other != '~' as u8,
        !(other == '\r' as u8 || other == '\n' as u8),
    ensures
        ({
            let r = input_run(m, text + seq![line_end, '~' as u8, '.' as u8]);
            r.action == Some(InputAction::Detach) && r.sent == text + seq![line_end]
        }),
        ({
            let r = input_run(m, text + seq![other, '~' as u8, '.' as u8]);
            r.action is None && r.sent == text + seq![other, '~' as u8, '.' as u8]
        }),
        ({
            let r = input_run(input_start(), seq!['~' as u8, '.' as u8]);
            r.action == Some(InputAction::Detach) && r.sent.len() == 0
        }),
{
    lemma_between_keys(m);
    law_plain_input_passes(m, text);
    law_input_bounded(m, text);
    let n = input_run(m, text).next;
    lemma_between_keys(n);
    let dot = seq!['~' as u8, '.' as u8];
    law_input_chunks(m, text, seq![line_end, '~' as u8, '.' as u8]);
    law_input_chunks(m, text, seq![other, '~' as u8, '.' as u8]);
    let line = at(EscapeState::AfterNewline);
    let word = at(EscapeState::Normal);
    lemma_run_two(line, '~' as u8, '.' as u8);
    lemma_run_two(word, '~' as u8, '.' as u8);
    assert(n.seq =~= Seq::<u8>::empty());
    assert(input_step(n, line_end) == goes(line, seq![line_end]));
    assert(input_step(n, other) == goes(word, seq![other]));
    assert(seq![line_end, '~' as u8, '.' as u8].skip(1) =~= dot);
    assert(seq![other, '~' as u8, '.' as u8].skip(1) =~= dot);
    assert(input_run(n, seq![line_end, '~' as u8, '.' as u8]).sent =~= seq![line_end]);
    assert(input_run(word, dot).sent =~= dot);
    assert(input_run(n, seq![other, '~' as u8, '.' as u8]).sent =~= seq![other, '~' as u8, '.' as u8]);
}

/// True when nothing of `buf` can be meant for the session or be a reply of the terminal, seen from a
/// processor that holds something or nothing.
spec fn harmless(m: InputModel, buf: Seq<u8>) -> bool {
    &&& m.state != EscapeState::AfterCtrlA
    &&& m.state == EscapeState::AfterTilde && buf.len() > 0 ==> buf[0] != '.' as u8
    &&& forall|i: int| 0 <= i < buf.len() ==> #[trigger] buf[i] != 0x01
    &&& forall|i: int| 1 <= i < buf.len() && #[trigger] buf[i] == '.' as u8 ==> buf[i - 1] != '~' as u8
    &&& (m.state == EscapeState::Escape || m.state == EscapeState::InCsi || exists|i: int|
        0 <= i < buf.len() && #[trigger] buf[i] == 0x1b) ==> forall|i: int|
        0 <= i < buf.len() ==> !ends_special(#[trigger] buf[i])
}

/// True for the bytes that end replies and key reports.
pub open spec fn ends_special(b: u8) -> bool {
    b == 'c' as u8 || b == 'y' as u8 || b == 'u' as u8 || b == 'R' as u8
}

proof fn lemma_harmless_next(m: InputModel, buf: Seq<u8>)
    requires
        m.wf(),
        harmless(m, buf),
        buf.len() > 0,
    ensures
        harmless(input_step(m, buf[0]).next, buf.skip(1)),
        !takes_out(m, buf[0]),
        input_step(m, buf[0]).action is None,
{
    let s = input_step(m, buf[0]);
    let rest = buf.skip(1);
    assert(buf[0] != 0x01);
    assert forall|i: int| 0 <= i < rest.len() implies #[trigger] rest[i] != 0x01 by {
        assert(rest[i] == buf[i + 1]);
    }
    assert forall|i: int| 1 <= i < rest.len() && #[trigger] rest[i] == '.' as u8 implies rest[i - 1] != '~' as u8 by {
        assert(rest[i] == buf[i + 1]);
        assert(rest[i - 1] == buf[i]);
    }
    if s.next.state == EscapeState::AfterTilde && rest.len() > 0 {
        assert(rest[0] == buf[1]);
    }
    if s.next.state == EscapeState::Escape || s.next.state == EscapeState::InCsi || (exists|i: int|
        0 <= i < rest.len() && #[trigger] rest[i] == 0x1b) {
        assert(m.state == EscapeState::Escape || m.state == EscapeState::InCsi || (exists|i: int|
            0 <= i < buf.len() && #[trigger] buf[i] == 0x1b)) by {
            if exists|i: int| 0 <= i < rest.len() && #[trigger] rest[i] == 0x1b {
                let i = choose|i: int| 0 <= i < rest.len() && #[trigger] rest[i] == 0x1b;
                assert(buf[i + 1] == 0x1b);
            } else {
                assert(buf[0] == 0x1b || m.state == EscapeState::Escape || m.state == EscapeState::InCsi);
            }
        }
        assert forall|i: int| 0 <= i < rest.len() implies !ends_special(#[trigger] rest[i]) by {
            assert(rest[i] == buf[i + 1]);
        }
    }
}

proof fn lemma_harmless_is_forwarded(m: InputModel, buf: Seq<u8>)
    requires
        m.wf(),
        harmless(m, buf),
    ensures
        forwards_all(m, buf),
    decreases buf.len(),
{
    if buf.len() > 0 {
        lemma_step_wf(m, buf[0]);
        lemma_harmless_next(m, buf);
        lemma_harmless_is_forwarded(input_step(m, buf[0]).next, buf.skip(1));
    }
}

/// Law: every key reaches the PTY, once and in its place, as long as none can be meant for the session
/// or be a reply of the terminal: no control-A, no dot behind a tilde, and, where there is an escape,
/// none of the bytes that replies and key reports end in. What is not sent yet is held.
pub proof fn law_every_key_reaches_the_pty(m: InputModel, buf: Seq<u8>)
    requires
        between_keys(m),
        forall|i: int| 0 <= i < buf.len() ==> #[trigger] buf[i] != 0x01,
        forall|i: int| 1 <= i < buf.len() && #[trigger] buf[i] == '.' as u8 ==> buf[i - 1] != '~' as u8,
        (exists|i: int| 0 <= i < buf.len() && #[trigger] buf[i] == 0x1b) ==> forall|i: int|
            0 <= i < buf.len() ==> !ends_special(#[trigger] buf[i]),
    ensures
        input_run(m, buf).sent + input_run(m, buf).next.held() == buf,
        input_run(m, buf).action is None,
        input_run(m, buf).next.held().len() > 0 ==> {
            let first = input_run(m, buf).next.held()[0];
            first == 0x1b || first == '~' as u8
        },
{
    lemma_between_keys(m);
    lemma_harmless_is_forwarded(m, buf);
    law_input_conserves(m, buf);
    assert(m.held() + buf =~= buf);
    lemma_no_ctrl_a_held(m, buf);
}

/// Without a control-A and without the end of a key report, none is held.
proof fn lemma_no_ctrl_a_held(m: InputModel, buf: Seq<u8>)
    requires
        m.wf(),
        harmless(m, buf),
    ensures
        input_run(m, buf).next.state != EscapeState::AfterCtrlA,
    decreases buf.len(),
{
    if buf.len() > 0 {
        lemma_harmless_is_forwarded(m, buf);
        let s = input_step(m, buf[0]);
        let rest = buf.skip(1);
        lemma_step_wf(m, buf[0]);
        assert(buf[0] != 0x01);
        assert(!takes_out(m, buf[0]));
        lemma_harmless_next(m, buf);
        lemma_no_ctrl_a_held(s.next, rest);
    }
}

/// Law: a key reported in the long form (`CSI key ; modifiers u`, with an event or more fields behind
/// it) is control-A where it is the key `a` with control among its modifiers: it then acts on all that
/// follows as the byte 0x01 does. Modifiers are told as one more than a sum in which control counts
/// four. Every other key in this form reaches the PTY as it is.
pub proof fn law_key_reports(m: InputModel, key: u32, modifiers: u32, more: Seq<u8>, rest: Seq<u8>)
    requires
        between_keys(m),
        modifiers >= 1,
        all_params(more),
        more.len() > 0 ==> more[0] == ':' as u8 || more[0] == ';' as u8,
        more.len() <= 200,
    ensures
        ({
            let content = decimal(key as nat) + seq![';' as u8] + decimal(modifiers as nat) + more;
            let report = seq![0x1bu8, '[' as u8] + content + seq!['u' as u8];
            if key == 97 && ((modifiers - 1) / 4) % 2 == 1 {
                input_run(m, report + rest) == input_run(m, seq![0x01u8] + rest)
            } else {
                &&& input_run(m, report).sent == report
                &&& input_run(m, report).action is None
                &&& input_run(m, report).next.held().len() == 0
            }
        }),
        ({
            let report = seq![0x1bu8, '[' as u8] + decimal(key as nat) + seq!['u' as u8];
            input_run(m, report).sent == report && input_run(m, report).action is None
        }),
{
    lemma_between_keys(m);
    let k = decimal(key as nat);
    let d = decimal(modifiers as nat);
    law_decimal_reads_back(key);
    law_decimal_reads_back(modifiers);
    let second = d + more;
    let content = k + seq![';' as u8] + d + more;
    assert(content =~= k.push(';' as u8) + second);
    assert forall|i: int| 0 <= i < k.len() implies #[trigger] k[i] != ';' as u8 by {
        assert(is_digit(k[i]));
    }
    assert forall|i: int| 0 <= i < content.len() implies 0x30 <= #[trigger] content[i] <= 0x3f by {
        if i < k.len() {
            assert(is_digit(k[i]));
        } else if i > k.len() && i < k.len() + 1 + d.len() {
            assert(is_digit(d[i - k.len() - 1]));
            assert(content[i] == d[i - k.len() - 1]);
        } else if i > k.len() {
            assert(content[i] == more[i - k.len() - 1 - d.len()]);
        }
    }
    assert(is_digit(k[0]));
    assert(content[0] == k[0]);
    lemma_ascii_is_utf8(content);
    lemma_split_first(k, ';' as u8, second);
    let fields = split_on(content, ';' as u8);
    let tail = split_on(second, ';' as u8);
    assert(fields =~= seq![k] + tail);
    // The second field, up to a colon, is the modifiers.
    let f = find_byte(second, ';' as u8);
    lemma_find_byte(second, ';' as u8);
    assert forall|j: int| 0 <= j < d.len() implies is_digit(#[trigger] second[j]) by {
        assert(second[j] == d[j]);
        assert(is_digit(d[j]));
    }
    assert(f >= d.len()) by {
        if f < d.len() {
            assert(is_digit(second[f]));
        }
    }
    let field = second.take(f);
    assert(tail[0] =~= field);
    assert(fields[1] == field);
    assert forall|j: int| 0 <= j < d.len() implies #[trigger] field[j] != ':' as u8 by {
        assert(field[j] == second[j]);
        assert(is_digit(second[j]));
    }
    if more.len() > 0 {
        assert(second[d.len() as int] == more[0]);
        if more[0] == ';' as u8 {
            assert(f == d.len()) by {
                if f > d.len() {
                    assert(second[d.len() as int] != ';' as u8);
                }
            }
        } else {
            assert(f > d.len()) by {
                if f == d.len() {
                    assert(second[f] == ';' as u8);
                }
            }
            assert(field[d.len() as int] == ':' as u8);
        }
    } else {
        assert(second =~= d);
    }
    lemma_find_byte_is(field, ':' as u8, d.len() as int);
    assert(split_on(field, ':' as u8)[0] =~= d);
    assert(key_modifiers(content) == modifiers);
    let less = (modifiers - 1) as u32;
    assert(modifiers.wrapping_sub(1) == less);
    assert((less & 4 != 0) == ((less / 4) % 2 == 1)) by (bit_vector);
    assert(private_marker(content) is None);
    assert(all_params(content));
    assert(reports_ctrl_a(content) == (key == 97 && ((modifiers - 1) / 4) % 2 == 1));
    law_control_sequences(m, content, 'u' as u8);
    let report = csi_sequence(content, 'u' as u8);
    law_input_chunks(m, report, rest);
    law_input_chunks(m, seq![0x01u8], rest);
    // Without modifiers.
    assert forall|i: int| 0 <= i < k.len() implies 0x30 <= #[trigger] k[i] <= 0x3f by {
        assert(is_digit(k[i]));
    }
    lemma_ascii_is_utf8(k);
    assert(split_on(k, ';' as u8) =~= seq![k]);
    assert(key_modifiers(k) == 1);
    assert(1u32.wrapping_sub(1) == 0);
    assert(0u32 & 4 == 0) by (bit_vector);
    law_control_sequences(m, k, 'u' as u8);
}

/// Law: a processor that is not in the middle of anything sends a key that is reported by a control
/// sequence as it is, and triggers nothing.
pub proof fn law_process_passes_keys(
    processor: &mut InputProcessor,
    buf: &[u8],
    content: Seq<u8>,
    final_byte: u8,
    result: InputResult,
)
    requires
        call_ensures(InputProcessor::process, (processor, buf), result),
        between_keys(old(processor)@),
        content.len() <= 256,
        inside_csi(content),
        0x40 <= final_byte <= 0x7e,
        final_byte != 'c' as u8,
        final_byte != 'y' as u8,
        final_byte != 'u' as u8,
        final_byte != 'R' as u8,
        buf@ == seq![0x1bu8, '[' as u8] + content + seq![final_byte],
    ensures
        result.write@ == buf@,
        result.action is None,
{
    law_keys_in_sequences_pass(old(processor)@, content, final_byte);
}

/// Law: what a processor sends and holds after ordinary input is that input, whatever chunks it comes in.
pub proof fn law_process_loses_nothing(
    processor: &mut InputProcessor,
    buf: &[u8],
    result: InputResult,
)
    requires
        call_ensures(InputProcessor::process, (processor, buf), result),
        between_keys(old(processor)@),
        forall|i: int| 0 <= i < buf@.len() ==> #[trigger] buf@[i] != 0x01,
        forall|i: int| 1 <= i < buf@.len() && #[trigger] buf@[i] == '.' as u8 ==> buf@[i - 1] != '~' as u8,
        (exists|i: int| 0 <= i < buf@.len() && #[trigger] buf@[i] == 0x1b) ==> forall|i: int|
            0 <= i < buf@.len() ==> !ends_special(#[trigger] buf@[i]),
    ensures
        result.write@ + final(processor)@.held() == buf@,
        result.action is None,
{
    law_every_key_reaches_the_pty(old(processor)@, buf@);
}

/// Law: a fresh processor, and one that was reset, stands at the start of a line and holds nothing.
pub proof fn law_fresh_processors(fresh: InputProcessor, other: &mut InputProcessor)
    requires
        call_ensures(InputProcessor::new, (), fresh),
        call_ensures(InputProcessor::reset, (other,), ()),
    ensures
        between_keys(fresh@),
        fresh@ == final(other)@,
        input_run(fresh@, seq!['~' as u8, '.' as u8]).action == Some(InputAction::Detach),
{
    law_tilde_dot(fresh@, Seq::empty(), '\r' as u8, 'x' as u8);
}

/// Law: a line that holds a tilde alone is sent, and the next one starts behind it; a tilde with anything but a
/// dot behind it is sent as well, and the line goes on.
pub proof fn law_tilde_lines(line_end: u8, other: u8)
    requires
        line_end == '\r' as u8 || line_end == '\n' as u8,
        other != 0x1b,
        other != '.' as u8,
        !(other == '\r' as u8 || other == '\n' as u8),
    ensures
        ({
            let r = input_run(input_start(), seq!['~' as u8, line_end, '~' as u8, '.' as u8]);
            r.action == Some(InputAction::Detach) && r.sent == seq!['~' as u8, line_end]
        }),
        ({
            let r = input_run(input_start(), seq!['~' as u8, other, '~' as u8, '.' as u8]);
            r.action is None && r.sent == seq!['~' as u8, other, '~' as u8, '.' as u8]
        }),
{
    reveal_with_fuel(input_run, 5);
    let a = seq!['~' as u8, line_end, '~' as u8, '.' as u8];
    let b = seq!['~' as u8, other, '~' as u8, '.' as u8];
    assert(a.skip(1) =~= seq![line_end, '~' as u8, '.' as u8]);
    assert(a.skip(1).skip(1) =~= seq!['~' as u8, '.' as u8]);
    assert(a.skip(1).skip(1).skip(1) =~= seq!['.' as u8]);
    assert(b.skip(1) =~= seq![other, '~' as u8, '.' as u8]);
    assert(b.skip(1).skip(1) =~= seq!['~' as u8, '.' as u8]);
    assert(b.skip(1).skip(1).skip(1) =~= seq!['.' as u8]);
    assert(b.skip(1).skip(1).skip(1).skip(1) =~= Seq::<u8>::empty());
    assert(input_run(input_start(), a).sent =~= seq!['~' as u8, line_end]);
    assert(input_run(input_start(), b).sent =~= b);
}

/// Law: a control sequence that is let go is sent whole, and one byte of ordinary text is sent at once.
pub proof fn law_single_bytes(
    processor: &mut InputProcessor,
    sent: &mut Vec<u8>,
    typing: &mut InputProcessor,
    byte: u8,
    typed: &mut Vec<u8>,
    action: Option<InputAction>,
)
    requires
        call_ensures(InputProcessor::flush_csi, (processor, sent), ()),
        old(typing)@.wf(),
        call_ensures(InputProcessor::process_byte, (typing, byte, typed), action),
        old(typing)@.state == EscapeState::Normal,
        byte != 0x01,
        byte != 0x1b,
    ensures
        final(sent)@ == old(sent)@ + seq![0x1bu8, '[' as u8] + old(processor)@.seq,
        final(processor)@.seq.len() == 0,
        action is None,
        final(typed)@ == old(typed)@ + seq![byte],
{
}

} // verus!
