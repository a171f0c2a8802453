//! What the client shows around a PTY: the modes that it resets, the screen without a PTY, help,
//! notes, and the wait for a lost connection.
use super::RenderMode;
#[allow(unused_imports)]
use crate::text::{bytes_of, decimal, hex16};
use crate::text::{push_bytes, push_decimal, push_hex16, push_str};
use vstd::prelude::*;
#[allow(unused_imports)]
use vstd::utf8::*;

verus! {

broadcast use vstd::string::group_string_axioms;

/// Undoes what a PTY may have set on the client's terminal: the alternate screen, mouse reporting,
/// paste and origin modes, scroll region and margins, attributes, dynamic colours, keyboard
/// protocols, cursor, keypad and character sets.
pub const RESET_TERMINAL_MODES: &'static str =
    "\x1b[?1049l\x1b[?1000l\x1b[?1002l\x1b[?1003l\x1b[?1006l\x1b[?1016l\x1b[?1015l\x1b[?1004l\x1b[?2004l\x1b[?6l\x1b[?5l\x1b[4l\x1b[r\x1b[?69l\x1b[?7h\x1b[0m\x1b]110\x1b\\\x1b]111\x1b\\\x1b]112\x1b\\\x1b[<1u\x1b[=0;1u\x1b[>4;0m\x1b[0 q\x1b[?25h\x1b[?1l\x1b>\x1b(B\x1b)B\x1b*B\x1b+B\x0f";

/// Saves the title of the client's terminal, when a session begins.
pub const PUSH_TITLE: &'static str = "\x1b[22;0t";

/// Gives the client's terminal its title back, when a session ends.
pub const POP_TITLE: &'static str = "\x1b[23;0t";

pub const CLEAR_SCREEN: &'static str = "\x1b[2J\x1b[H";

/// The screen without a PTY.
pub const IDLE: &'static str =
    "\x1b[2J\x1b[HNot attached to a PTY.\r\n\r\n  C-a \"      show list of PTYs\r\n  C-a c      create new PTY\r\n  C-a ?      show keybindings\r\n  C-a d      detach from termd\r\n";

/// The key bindings.
pub const HELP: &'static str =
    "\x1b[2J\x1b[H\r\n  termd keybindings\r\n\r\n  C-a c      create new PTY\r\n  C-a d      detach from termd\r\n\r\n  C-a \"      show list of PTYs\r\n  C-a space  switch to next PTY\r\n  C-a p      switch to previous PTY\r\n  C-a C-a    switch to recent PTY\r\n  C-a 0-9    switch to PTY by index\r\n  C-a k      destroy current PTY\r\n\r\n  C-a s      show scrollback\r\n  C-a i      show info\r\n  C-a F      force resize\r\n  C-a R      force refresh\r\n  C-a a      send literal C-a\r\n\r\n  C-a ?      show this help\r\n\r\n  (any key to exit)\r\n";

/// A note on a line of its own.
pub fn info_note(msg: &str) -> (out: Vec<u8>)
    ensures
        out@ == bytes_of("\r\n[") + bytes_of(msg) + bytes_of("]\r\n"),
{
    let mut out: Vec<u8> = Vec::new();
    push_str(&mut out, "\r\n[");
    assert(out@ =~= bytes_of("\r\n["));
    push_str(&mut out, msg);
    push_str(&mut out, "]\r\n");
    out
}

/// A note on an error.
pub fn error_note(msg: &str) -> (out: Vec<u8>)
    ensures
        out@ == bytes_of("\r\n[Error: ") + bytes_of(msg) + bytes_of("]\r\n"),
{
    let mut out: Vec<u8> = Vec::new();
    push_str(&mut out, "\r\n[Error: ");
    assert(out@ =~= bytes_of("\r\n[Error: "));
    push_str(&mut out, msg);
    push_str(&mut out, "]\r\n");
    out
}

/// Leaves the cursor below everything, at the end of a session.
pub fn terminal_end(rows: u32) -> (out: Vec<u8>)
    ensures
        out@ == bytes_of("\x1b[") + decimal(rows as nat) + bytes_of(";1H\r\n"),
{
    let mut out: Vec<u8> = Vec::new();
    push_str(&mut out, "\x1b[");
    assert(out@ =~= bytes_of("\x1b["));
    push_decimal(&mut out, rows as u64);
    push_str(&mut out, ";1H\r\n");
    out
}

/// Has the client's terminal forget what a PTY set on it, when the client stops to paint that PTY.
pub fn reset_terminal_modes() -> (out: Vec<u8>)
    ensures
        out@ == bytes_of(RESET_TERMINAL_MODES),
{
    let mut out: Vec<u8> = Vec::new();
    push_str(&mut out, RESET_TERMINAL_MODES);
    assert(out@ =~= bytes_of(RESET_TERMINAL_MODES));
    out
}

/// What a session begins with: the terminal's title is saved.
pub fn session_start() -> (out: Vec<u8>)
    ensures
        out@ == bytes_of(PUSH_TITLE),
{
    let mut out: Vec<u8> = Vec::new();
    push_str(&mut out, PUSH_TITLE);
    assert(out@ =~= bytes_of(PUSH_TITLE));
    out
}

/// What a session ends with, on a terminal of so many rows: nothing of a PTY stays set, the title
/// is what it was before the session, and the cursor stands below everything.
pub open spec fn end_bytes(rows: u32) -> Seq<u8> {
    bytes_of(RESET_TERMINAL_MODES) + bytes_of(POP_TITLE) + (bytes_of("\x1b[") + decimal(rows as nat)
        + bytes_of(";1H\r\n"))
}

/// Ends a session.
pub fn session_end(rows: u32) -> (out: Vec<u8>)
    ensures
        out@ == end_bytes(rows),
{
    let mut out = reset_terminal_modes();
    push_str(&mut out, POP_TITLE);
    push_bytes(&mut out, terminal_end(rows).as_slice());
    out
}

/// The name of a render mode.
pub open spec fn mode_name(mode: RenderMode) -> &'static str {
    match mode {
        RenderMode::Cell => "Cell",
        RenderMode::Raw => "Raw",
        RenderMode::Region => "Region",
        RenderMode::Autowrap => "Autowrap",
    }
}

fn name_of(mode: RenderMode) -> (name: &'static str)
    ensures
        name@ == mode_name(mode)@,
{
    match mode {
        RenderMode::Cell => "Cell",
        RenderMode::Raw => "Raw",
        RenderMode::Region => "Region",
        RenderMode::Autowrap => "Autowrap",
    }
}

/// What is shown of the session: the mode that was asked for and the one in use, the PTY, and both
/// sizes.
pub open spec fn session_text(
    requested: RenderMode,
    actual: RenderMode,
    pty_id: u64,
    server: (u32, u32),
    client: (u32, u32),
) -> Seq<u8> {
    bytes_of("\r\n[requested=") + bytes_of(mode_name(requested)) + bytes_of(" actual=") + bytes_of(
        mode_name(actual),
    ) + bytes_of(" pty=") + hex16(pty_id) + bytes_of(" server=") + decimal(server.0 as nat) + bytes_of("x")
        + decimal(server.1 as nat) + bytes_of(" client=") + decimal(client.0 as nat) + bytes_of("x") + decimal(
        client.1 as nat,
    ) + bytes_of("]\r\n")
}

/// Shows what the session is.
pub fn session_note(
    requested: RenderMode,
    actual: RenderMode,
    pty_id: u64,
    server: (u32, u32),
    client: (u32, u32),
) -> (out: Vec<u8>)
    ensures
        out@ == session_text(requested, actual, pty_id, server, client),
{
    let mut out: Vec<u8> = Vec::new();
    push_str(&mut out, "\r\n[requested=");
    assert(out@ =~= bytes_of("\r\n[requested="));
    push_str(&mut out, name_of(requested));
    push_str(&mut out, " actual=");
    push_str(&mut out, name_of(actual));
    push_str(&mut out, " pty=");
    push_hex16(&mut out, pty_id);
    push_str(&mut out, " server=");
    push_decimal(&mut out, server.0 as u64);
    push_str(&mut out, "x");
    push_decimal(&mut out, server.1 as u64);
    push_str(&mut out, " client=");
    push_decimal(&mut out, client.0 as u64);
    push_str(&mut out, "x");
    push_decimal(&mut out, client.1 as u64);
    push_str(&mut out, "]\r\n");
    out
}

/// The first wait between two attempts to connect again, in milliseconds.
pub const FIRST_BACKOFF_MS: u64 = 500;

/// The longest such wait.
pub const MAX_BACKOFF_MS: u64 = 5000;

/// The wait for a lost connection.
pub struct Reconnect {
    pub attempt: u32,
    pub backoff_ms: u64,
}

/// How a wait between two attempts ended.
pub enum WaitEnd<'a> {
    Elapsed,
    Input(&'a [u8]),
    InputClosed,
}

/// True for input that gives up: control-C or `q` anywhere in it.
pub open spec fn gives_up(input: Seq<u8>) -> bool {
    exists|i: int| 0 <= i < input.len() && (#[trigger] input[i] == 0x03 || input[i] == 'q' as u8)
}

/// True when input gives up.
fn is_giving_up(input: &[u8]) -> (yes: bool)
    ensures
        yes == gives_up(input@),
{
    let mut i: usize = 0;
    while i < input.len()
        invariant
            i <= input.len(),
            forall|j: int| 0 <= j < i ==> #[trigger] input@[j] != 0x03 && input@[j] != 'q' as u8,
        decreases input.len() - i,
    {
        if input[i] == 0x03 || input[i] == 'q' as u8 {
            return true;
        }
        i = i + 1;
    }
    false
}

/// The wait after one of `ms`: twice as long, up to the longest.
pub open spec fn next_backoff(ms: u64) -> u64 {
    if ms * 2 < MAX_BACKOFF_MS {
        (ms * 2) as u64
    } else {
        MAX_BACKOFF_MS
    }
}

impl Reconnect {
    pub open spec fn wf(self) -> bool {
        FIRST_BACKOFF_MS <= self.backoff_ms <= MAX_BACKOFF_MS
    }

    pub fn new() -> (wait: Self)
        ensures
            wait.attempt == 0,
            wait.backoff_ms == FIRST_BACKOFF_MS,
            wait.wf(),
    {
        Reconnect { attempt: 0, backoff_ms: FIRST_BACKOFF_MS }
    }

    /// Begins an attempt, and gives what to show meanwhile.
    pub fn begin_attempt(&mut self) -> (out: Vec<u8>)
        requires
            old(self).attempt < u32::MAX,
        ensures
            final(self).attempt == old(self).attempt + 1,
            final(self).backoff_ms == old(self).backoff_ms,
            out@ == bytes_of("\x1b[2J\x1b[H[Connection lost — reconnecting (attempt ") + decimal(
                final(self).attempt as nat,
            ) + bytes_of(")…  Ctrl-C/q to quit]\r\n"),
    {
        self.attempt = self.attempt + 1;
        let mut out: Vec<u8> = Vec::new();
        push_str(&mut out, "\x1b[2J\x1b[H[Connection lost — reconnecting (attempt ");
        assert(out@ =~= bytes_of("\x1b[2J\x1b[H[Connection lost — reconnecting (attempt "));
        push_decimal(&mut out, self.attempt as u64);
        push_str(&mut out, ")…  Ctrl-C/q to quit]\r\n");
        out
    }

    /// What to show after an attempt failed for `reason`: the wait in seconds, with one decimal.
    pub fn failure_note(&self, reason: &str) -> (out: Vec<u8>)
        ensures
            out@ == bytes_of("\x1b[2J\x1b[H[Reconnect failed: ") + bytes_of(reason) + bytes_of(" — retrying in ")
                + decimal((self.backoff_ms / 1000) as nat) + bytes_of(".") + decimal(
                (self.backoff_ms / 100 % 10) as nat,
            ) + bytes_of("s  (Ctrl-C/q to quit)]\r\n"),
    {
        let mut out: Vec<u8> = Vec::new();
        push_str(&mut out, "\x1b[2J\x1b[H[Reconnect failed: ");
        assert(out@ =~= bytes_of("\x1b[2J\x1b[H[Reconnect failed: "));
        push_str(&mut out, reason);
        push_str(&mut out, " — retrying in ");
        push_decimal(&mut out, self.backoff_ms / 1000);
        push_str(&mut out, ".");
        push_decimal(&mut out, self.backoff_ms / 100 % 10);
        push_str(&mut out, "s  (Ctrl-C/q to quit)]\r\n");
        out
    }

    /// Goes on after a wait, unless the user gave up: the next wait is longer. Returns false where
    /// they gave up.
    pub fn after_wait(&mut self, end: WaitEnd) -> (again: bool)
        requires
            old(self).wf(),
        ensures
            final(self).wf(),
            final(self).attempt == old(self).attempt,
            again == (match end {
                WaitEnd::Elapsed => true,
                WaitEnd::Input(input) => !gives_up(input@),
                WaitEnd::InputClosed => false,
            }),
            final(self).backoff_ms == (if again {
                next_backoff(old(self).backoff_ms)
            } else {
                old(self).backoff_ms
            }),
    {
        match end {
            WaitEnd::Elapsed => {},
            WaitEnd::InputClosed => return false,
            WaitEnd::Input(input) => if is_giving_up(input) {
                return false;
            },
        }
        self.backoff_ms = if self.backoff_ms * 2 < MAX_BACKOFF_MS {
            self.backoff_ms * 2
        } else {
            MAX_BACKOFF_MS
        };
        true
    }
}

/// Law: waits never become shorter, and never longer than the longest.
pub proof fn law_backoff_grows(ms: u64)
    requires
        FIRST_BACKOFF_MS <= ms <= MAX_BACKOFF_MS,
    ensures
        ms <= next_backoff(ms) <= MAX_BACKOFF_MS,
{
}

/// True when some bytes stand somewhere in others.
pub open spec fn holds(s: Seq<u8>, part: Seq<u8>) -> bool {
    exists|at: int| 0 <= at <= s.len() - part.len() && #[trigger] s.subrange(at, at + part.len()) == part
}

/// A session ends with the terminal's own colours and with its own title: those of the text, of the
/// background and of the cursor are reset, and the title that was saved when the session began is
/// taken back.
pub proof fn law_session_end_restores(rows: u32)
    ensures
        holds(end_bytes(rows), bytes_of("\x1b]110\x1b\\")),
        holds(end_bytes(rows), bytes_of("\x1b]111\x1b\\")),
        holds(end_bytes(rows), bytes_of("\x1b]112\x1b\\")),
        holds(end_bytes(rows), bytes_of(POP_TITLE)),
{
    reveal_strlit("\x1b[?1049l\x1b[?1000l\x1b[?1002l\x1b[?1003l\x1b[?1006l\x1b[?1016l\x1b[?1015l\x1b[?1004l\x1b[?2004l\x1b[?6l\x1b[?5l\x1b[4l\x1b[r\x1b[?69l\x1b[?7h\x1b[0m\x1b]110\x1b\\\x1b]111\x1b\\\x1b]112\x1b\\\x1b[<1u\x1b[=0;1u\x1b[>4;0m\x1b[0 q\x1b[?25h\x1b[?1l\x1b>\x1b(B\x1b)B\x1b*B\x1b+B\x0f");
    reveal_strlit("\x1b]110\x1b\\");
    reveal_strlit("\x1b]111\x1b\\");
    reveal_strlit("\x1b]112\x1b\\");
    is_ascii_chars_encode_utf8(RESET_TERMINAL_MODES@);
    is_ascii_chars_encode_utf8("\x1b]110\x1b\\"@);
    is_ascii_chars_encode_utf8("\x1b]111\x1b\\"@);
    is_ascii_chars_encode_utf8("\x1b]112\x1b\\"@);
    let end = end_bytes(rows);
    let modes = bytes_of(RESET_TERMINAL_MODES);
    let title = bytes_of(POP_TITLE);
    let text = bytes_of("\x1b]110\x1b\\");
    let background = bytes_of("\x1b]111\x1b\\");
    let cursor = bytes_of("\x1b]112\x1b\\");
    assert(end.subrange(104, 104int + text.len()) =~= text);
    assert(end.subrange(111, 111int + background.len()) =~= background);
    assert(end.subrange(118, 118int + cursor.len()) =~= cursor);
    assert(end.subrange(modes.len() as int, modes.len() as int + title.len()) =~= title);
}

/// Law: after a PTY, the alternate screen is left, and every way of mouse reporting is off.
pub proof fn law_reset_ends_screen_and_mouse()
    ensures
        holds(bytes_of(RESET_TERMINAL_MODES), bytes_of("\x1b[?1049l")),
        holds(bytes_of(RESET_TERMINAL_MODES), bytes_of("\x1b[?1000l")),
        holds(bytes_of(RESET_TERMINAL_MODES), bytes_of("\x1b[?1002l")),
        holds(bytes_of(RESET_TERMINAL_MODES), bytes_of("\x1b[?1003l")),
        holds(bytes_of(RESET_TERMINAL_MODES), bytes_of("\x1b[?1006l")),
        holds(bytes_of(RESET_TERMINAL_MODES), bytes_of("\x1b[?1016l")),
        holds(bytes_of(RESET_TERMINAL_MODES), bytes_of("\x1b[?1015l")),
{
    reveal_strlit(
        "\x1b[?1049l\x1b[?1000l\x1b[?1002l\x1b[?1003l\x1b[?1006l\x1b[?1016l\x1b[?1015l\x1b[?1004l\x1b[?2004l\x1b[?6l\x1b[?5l\x1b[4l\x1b[r\x1b[?69l\x1b[?7h\x1b[0m\x1b]110\x1b\\\x1b]111\x1b\\\x1b]112\x1b\\\x1b[<1u\x1b[=0;1u\x1b[>4;0m\x1b[0 q\x1b[?25h\x1b[?1l\x1b>\x1b(B\x1b)B\x1b*B\x1b+B\x0f",
    );
    is_ascii_chars_encode_utf8(RESET_TERMINAL_MODES@);
    let all = bytes_of(RESET_TERMINAL_MODES);
    assert(holds(all, bytes_of("\x1b[?1049l"))) by {
        reveal_strlit("\x1b[?1049l");
        is_ascii_chars_encode_utf8("\x1b[?1049l"@);
        assert(all.subrange(0, 0int + bytes_of("\x1b[?1049l").len()) =~= bytes_of("\x1b[?1049l"));
    }
    assert(holds(all, bytes_of("\x1b[?1000l"))) by {
        reveal_strlit("\x1b[?1000l");
        is_ascii_chars_encode_utf8("\x1b[?1000l"@);
        assert(all.subrange(8, 8int + bytes_of("\x1b[?1000l").len()) =~= bytes_of("\x1b[?1000l"));
    }
    assert(holds(all, bytes_of("\x1b[?1002l"))) by {
        reveal_strlit("\x1b[?1002l");
        is_ascii_chars_encode_utf8("\x1b[?1002l"@);
        assert(all.subrange(16, 16int + bytes_of("\x1b[?1002l").len()) =~= bytes_of("\x1b[?1002l"));
    }
    assert(holds(all, bytes_of("\x1b[?1003l"))) by {
        reveal_strlit("\x1b[?1003l");
        is_ascii_chars_encode_utf8("\x1b[?1003l"@);
        assert(all.subrange(24, 24int + bytes_of("\x1b[?1003l").len()) =~= bytes_of("\x1b[?1003l"));
    }
    assert(holds(all, bytes_of("\x1b[?1006l"))) by {
        reveal_strlit("\x1b[?1006l");
        is_ascii_chars_encode_utf8("\x1b[?1006l"@);
        assert(all.subrange(32, 32int + bytes_of("\x1b[?1006l").len()) =~= bytes_of("\x1b[?1006l"));
    }
    assert(holds(all, bytes_of("\x1b[?1016l"))) by {
        reveal_strlit("\x1b[?1016l");
        is_ascii_chars_encode_utf8("\x1b[?1016l"@);
        assert(all.subrange(40, 40int + bytes_of("\x1b[?1016l").len()) =~= bytes_of("\x1b[?1016l"));
    }
    assert(holds(all, bytes_of("\x1b[?1015l"))) by {
        reveal_strlit("\x1b[?1015l");
        is_ascii_chars_encode_utf8("\x1b[?1015l"@);
        assert(all.subrange(48, 48int + bytes_of("\x1b[?1015l").len()) =~= bytes_of("\x1b[?1015l"));
    }
}

/// Law: after a PTY, focus and paste reports and origin, reverse and insert modes are off, scroll region, margins and attributes
/// are reset, and lines wrap.
pub proof fn law_reset_ends_modes()
    ensures
        holds(bytes_of(RESET_TERMINAL_MODES), bytes_of("\x1b[?1004l")),
        holds(bytes_of(RESET_TERMINAL_MODES), bytes_of("\x1b[?2004l")),
        holds(bytes_of(RESET_TERMINAL_MODES), bytes_of("\x1b[?6l")),
        holds(bytes_of(RESET_TERMINAL_MODES), bytes_of("\x1b[?5l")),
        holds(bytes_of(RESET_TERMINAL_MODES), bytes_of("\x1b[4l")),
        holds(bytes_of(RESET_TERMINAL_MODES), bytes_of("\x1b[r")),
        holds(bytes_of(RESET_TERMINAL_MODES), bytes_of("\x1b[?69l")),
        holds(bytes_of(RESET_TERMINAL_MODES), bytes_of("\x1b[?7h")),
        holds(bytes_of(RESET_TERMINAL_MODES), bytes_of("\x1b[0m")),
{
    reveal_strlit(
        "\x1b[?1049l\x1b[?1000l\x1b[?1002l\x1b[?1003l\x1b[?1006l\x1b[?1016l\x1b[?1015l\x1b[?1004l\x1b[?2004l\x1b[?6l\x1b[?5l\x1b[4l\x1b[r\x1b[?69l\x1b[?7h\x1b[0m\x1b]110\x1b\\\x1b]111\x1b\\\x1b]112\x1b\\\x1b[<1u\x1b[=0;1u\x1b[>4;0m\x1b[0 q\x1b[?25h\x1b[?1l\x1b>\x1b(B\x1b)B\x1b*B\x1b+B\x0f",
    );
    is_ascii_chars_encode_utf8(RESET_TERMINAL_MODES@);
    let all = bytes_of(RESET_TERMINAL_MODES);
    assert(holds(all, bytes_of("\x1b[?1004l"))) by {
        reveal_strlit("\x1b[?1004l");
        is_ascii_chars_encode_utf8("\x1b[?1004l"@);
        assert(all.subrange(56, 56int + bytes_of("\x1b[?1004l").len()) =~= bytes_of("\x1b[?1004l"));
    }
    assert(holds(all, bytes_of("\x1b[?2004l"))) by {
        reveal_strlit("\x1b[?2004l");
        is_ascii_chars_encode_utf8("\x1b[?2004l"@);
        assert(all.subrange(64, 64int + bytes_of("\x1b[?2004l").len()) =~= bytes_of("\x1b[?2004l"));
    }
    assert(holds(all, bytes_of("\x1b[?6l"))) by {
        reveal_strlit("\x1b[?6l");
        is_ascii_chars_encode_utf8("\x1b[?6l"@);
        assert(all.subrange(72, 72int + bytes_of("\x1b[?6l").len()) =~= bytes_of("\x1b[?6l"));
    }
    assert(holds(all, bytes_of("\x1b[?5l"))) by {
        reveal_strlit("\x1b[?5l");
        is_ascii_chars_encode_utf8("\x1b[?5l"@);
        assert(all.subrange(77, 77int + bytes_of("\x1b[?5l").len()) =~= bytes_of("\x1b[?5l"));
    }
    assert(holds(all, bytes_of("\x1b[4l"))) by {
        reveal_strlit("\x1b[4l");
        is_ascii_chars_encode_utf8("\x1b[4l"@);
        assert(all.subrange(82, 82int + bytes_of("\x1b[4l").len()) =~= bytes_of("\x1b[4l"));
    }
    assert(holds(all, bytes_of("\x1b[r"))) by {
        reveal_strlit("\x1b[r");
        is_ascii_chars_encode_utf8("\x1b[r"@);
        assert(all.subrange(86, 86int + bytes_of("\x1b[r").len()) =~= bytes_of("\x1b[r"));
    }
    assert(holds(all, bytes_of("\x1b[?69l"))) by {
        reveal_strlit("\x1b[?69l");
        is_ascii_chars_encode_utf8("\x1b[?69l"@);
        assert(all.subrange(89, 89int + bytes_of("\x1b[?69l").len()) =~= bytes_of("\x1b[?69l"));
    }
    assert(holds(all, bytes_of("\x1b[?7h"))) by {
        reveal_strlit("\x1b[?7h");
        is_ascii_chars_encode_utf8("\x1b[?7h"@);
        assert(all.subrange(95, 95int + bytes_of("\x1b[?7h").len()) =~= bytes_of("\x1b[?7h"));
    }
    assert(holds(all, bytes_of("\x1b[0m"))) by {
        reveal_strlit("\x1b[0m");
        is_ascii_chars_encode_utf8("\x1b[0m"@);
        assert(all.subrange(100, 100int + bytes_of("\x1b[0m").len()) =~= bytes_of("\x1b[0m"));
    }
}

/// Law: after a PTY, both keyboard protocols are off, and the cursor has its own shape and is shown.
pub proof fn law_reset_ends_keyboard_and_cursor()
    ensures
        holds(bytes_of(RESET_TERMINAL_MODES), bytes_of("\x1b[<1u")),
        holds(bytes_of(RESET_TERMINAL_MODES), bytes_of("\x1b[=0;1u")),
        holds(bytes_of(RESET_TERMINAL_MODES), bytes_of("\x1b[>4;0m")),
        holds(bytes_of(RESET_TERMINAL_MODES), bytes_of("\x1b[0 q")),
        holds(bytes_of(RESET_TERMINAL_MODES), bytes_of("\x1b[?25h")),
{
    reveal_strlit(
        "\x1b[?1049l\x1b[?1000l\x1b[?1002l\x1b[?1003l\x1b[?1006l\x1b[?1016l\x1b[?1015l\x1b[?1004l\x1b[?2004l\x1b[?6l\x1b[?5l\x1b[4l\x1b[r\x1b[?69l\x1b[?7h\x1b[0m\x1b]110\x1b\\\x1b]111\x1b\\\x1b]112\x1b\\\x1b[<1u\x1b[=0;1u\x1b[>4;0m\x1b[0 q\x1b[?25h\x1b[?1l\x1b>\x1b(B\x1b)B\x1b*B\x1b+B\x0f",
    );
    is_ascii_chars_encode_utf8(RESET_TERMINAL_MODES@);
    let all = bytes_of(RESET_TERMINAL_MODES);
    assert(holds(all, bytes_of("\x1b[<1u"))) by {
        reveal_strlit("\x1b[<1u");
        is_ascii_chars_encode_utf8("\x1b[<1u"@);
        assert(all.subrange(125, 125int + bytes_of("\x1b[<1u").len()) =~= bytes_of("\x1b[<1u"));
    }
    assert(holds(all, bytes_of("\x1b[=0;1u"))) by {
        reveal_strlit("\x1b[=0;1u");
        is_ascii_chars_encode_utf8("\x1b[=0;1u"@);
        assert(all.subrange(130, 130int + bytes_of("\x1b[=0;1u").len()) =~= bytes_of("\x1b[=0;1u"));
    }
    assert(holds(all, bytes_of("\x1b[>4;0m"))) by {
        reveal_strlit("\x1b[>4;0m");
        is_ascii_chars_encode_utf8("\x1b[>4;0m"@);
        assert(all.subrange(137, 137int + bytes_of("\x1b[>4;0m").len()) =~= bytes_of("\x1b[>4;0m"));
    }
    assert(holds(all, bytes_of("\x1b[0 q"))) by {
        reveal_strlit("\x1b[0 q");
        is_ascii_chars_encode_utf8("\x1b[0 q"@);
        assert(all.subrange(144, 144int + bytes_of("\x1b[0 q").len()) =~= bytes_of("\x1b[0 q"));
    }
    assert(holds(all, bytes_of("\x1b[?25h"))) by {
        reveal_strlit("\x1b[?25h");
        is_ascii_chars_encode_utf8("\x1b[?25h"@);
        assert(all.subrange(149, 149int + bytes_of("\x1b[?25h").len()) =~= bytes_of("\x1b[?25h"));
    }
}

/// Law: after a PTY, cursor keys and the keypad are as usual, and so are all four character sets, of which the first is in use.
pub proof fn law_reset_ends_keys_and_character_sets()
    ensures
        holds(bytes_of(RESET_TERMINAL_MODES), bytes_of("\x1b[?1l")),
        holds(bytes_of(RESET_TERMINAL_MODES), bytes_of("\x1b>")),
        holds(bytes_of(RESET_TERMINAL_MODES), bytes_of("\x1b(B")),
        holds(bytes_of(RESET_TERMINAL_MODES), bytes_of("\x1b)B")),
        holds(bytes_of(RESET_TERMINAL_MODES), bytes_of("\x1b*B")),
        holds(bytes_of(RESET_TERMINAL_MODES), bytes_of("\x1b+B")),
        holds(bytes_of(RESET_TERMINAL_MODES), bytes_of("\x0f")),
{
    reveal_strlit(
        "\x1b[?1049l\x1b[?1000l\x1b[?1002l\x1b[?1003l\x1b[?1006l\x1b[?1016l\x1b[?1015l\x1b[?1004l\x1b[?2004l\x1b[?6l\x1b[?5l\x1b[4l\x1b[r\x1b[?69l\x1b[?7h\x1b[0m\x1b]110\x1b\\\x1b]111\x1b\\\x1b]112\x1b\\\x1b[<1u\x1b[=0;1u\x1b[>4;0m\x1b[0 q\x1b[?25h\x1b[?1l\x1b>\x1b(B\x1b)B\x1b*B\x1b+B\x0f",
    );
    is_ascii_chars_encode_utf8(RESET_TERMINAL_MODES@);
    let all = bytes_of(RESET_TERMINAL_MODES);
    assert(holds(all, bytes_of("\x1b[?1l"))) by {
        reveal_strlit("\x1b[?1l");
        is_ascii_chars_encode_utf8("\x1b[?1l"@);
        assert(all.subrange(155, 155int + bytes_of("\x1b[?1l").len()) =~= bytes_of("\x1b[?1l"));
    }
    assert(holds(all, bytes_of("\x1b>"))) by {
        reveal_strlit("\x1b>");
        is_ascii_chars_encode_utf8("\x1b>"@);
        assert(all.subrange(160, 160int + bytes_of("\x1b>").len()) =~= bytes_of("\x1b>"));
    }
    assert(holds(all, bytes_of("\x1b(B"))) by {
        reveal_strlit("\x1b(B");
        is_ascii_chars_encode_utf8("\x1b(B"@);
        assert(all.subrange(162, 162int + bytes_of("\x1b(B").len()) =~= bytes_of("\x1b(B"));
    }
    assert(holds(all, bytes_of("\x1b)B"))) by {
        reveal_strlit("\x1b)B");
        is_ascii_chars_encode_utf8("\x1b)B"@);
        assert(all.subrange(165, 165int + bytes_of("\x1b)B").len()) =~= bytes_of("\x1b)B"));
    }
    assert(holds(all, bytes_of("\x1b*B"))) by {
        reveal_strlit("\x1b*B");
        is_ascii_chars_encode_utf8("\x1b*B"@);
        assert(all.subrange(168, 168int + bytes_of("\x1b*B").len()) =~= bytes_of("\x1b*B"));
    }
    assert(holds(all, bytes_of("\x1b+B"))) by {
        reveal_strlit("\x1b+B");
        is_ascii_chars_encode_utf8("\x1b+B"@);
        assert(all.subrange(171, 171int + bytes_of("\x1b+B").len()) =~= bytes_of("\x1b+B"));
    }
    assert(holds(all, bytes_of("\x0f"))) by {
        reveal_strlit("\x0f");
        is_ascii_chars_encode_utf8("\x0f"@);
        assert(all.subrange(174, 174int + bytes_of("\x0f").len()) =~= bytes_of("\x0f"));
    }
}

/// Law: the user gives up a lost connection by control-C or `q`, wherever it stands in what they typed, and by
/// the end of input; otherwise another attempt follows after a wait twice as long, up to five seconds.
pub proof fn law_giving_up(wait: &mut Reconnect, input: &[u8], again: bool, i: int)
    requires
        old(wait).wf(),
        call_ensures(Reconnect::after_wait, (wait, WaitEnd::Input(input)), again),
        0 <= i < input@.len(),
    ensures
        input@[i] == 0x03 || input@[i] == 'q' as u8 ==> !again,
        (forall|k: int| 0 <= k < input@.len() ==> #[trigger] input@[k] != 0x03 && input@[k] != 'q' as u8) ==> again,
        again && old(wait).backoff_ms <= 2500 ==> final(wait).backoff_ms == 2 * old(wait).backoff_ms,
        again && old(wait).backoff_ms > 2500 ==> final(wait).backoff_ms == 5000,
        final(wait).attempt == old(wait).attempt,
{
}

/// Law: an attempt tells its number, which counts from one, and clears the screen first; a failed one tells why
/// and how long the wait is, in seconds with one decimal.
pub proof fn law_attempts_are_told(wait: &mut Reconnect, out: Vec<u8>, reason: &str, note: Vec<u8>)
    requires
        old(wait).attempt < u32::MAX,
        call_ensures(Reconnect::begin_attempt, (wait,), out),
        call_ensures(Reconnect::failure_note, (&*final(wait), reason), note),
    ensures
        final(wait).attempt == old(wait).attempt + 1,
        final(wait).backoff_ms == old(wait).backoff_ms,
        out@ == bytes_of("\x1b[2J\x1b[H[Connection lost — reconnecting (attempt ") + decimal(
            (old(wait).attempt + 1) as nat,
        ) + bytes_of(")…  Ctrl-C/q to quit]\r\n"),
        note@ == bytes_of("\x1b[2J\x1b[H[Reconnect failed: ") + bytes_of(reason) + bytes_of(" — retrying in ") + decimal(
            (old(wait).backoff_ms / 1000) as nat,
        ) + bytes_of(".") + decimal((old(wait).backoff_ms / 100 % 10) as nat) + bytes_of("s  (Ctrl-C/q to quit)]\r\n"),
{
}

/// Law: a note stands on a line of its own, in brackets; an error says that it is one. A session begins with the
/// title saved, and a PTY that is no longer painted leaves nothing set.
pub proof fn law_notes(msg: &str, note: Vec<u8>, error: Vec<u8>, start: Vec<u8>, reset: Vec<u8>)
    requires
        call_ensures(info_note, (msg,), note),
        call_ensures(error_note, (msg,), error),
        call_ensures(session_start, (), start),
        call_ensures(reset_terminal_modes, (), reset),
    ensures
        note@ == seq![0x0du8, 0x0au8, '[' as u8] + bytes_of(msg) + seq![']' as u8, 0x0du8, 0x0au8],
        error@ == bytes_of("\r\n[Error: ") + bytes_of(msg) + seq![']' as u8, 0x0du8, 0x0au8],
        start@ == bytes_of("\x1b[22;0t"),
        reset@ == bytes_of(RESET_TERMINAL_MODES),
{
    reveal_strlit("\r\n[");
    reveal_strlit("]\r\n");
    is_ascii_chars_encode_utf8("\r\n["@);
    is_ascii_chars_encode_utf8("]\r\n"@);
    assert(bytes_of("\r\n[") =~= seq![0x0du8, 0x0au8, '[' as u8]);
    assert(bytes_of("]\r\n") =~= seq![']' as u8, 0x0du8, 0x0au8]);
}

/// Law: what a session is, is shown by its modes, the id of its PTY and the sizes on both sides, columns first.
pub proof fn law_session_is_shown(
    requested: RenderMode,
    actual: RenderMode,
    pty_id: u64,
    server: (u32, u32),
    client: (u32, u32),
    out: Vec<u8>,
)
    requires
        call_ensures(session_note, (requested, actual, pty_id, server, client), out),
    ensures
        out@ == bytes_of("\r\n[requested=") + bytes_of(mode_name(requested)) + bytes_of(" actual=") + bytes_of(
            mode_name(actual),
        ) + bytes_of(" pty=") + hex16(pty_id) + bytes_of(" server=") + decimal(server.0 as nat) + bytes_of("x")
            + decimal(server.1 as nat) + bytes_of(" client=") + decimal(client.0 as nat) + bytes_of("x") + decimal(
            client.1 as nat,
        ) + bytes_of("]\r\n"),
{
}

/// Law: the first wait is half a second, and no attempt was made before it. A wait that came to its end is
/// followed by another attempt, and the end of input by none.
pub proof fn law_waits_begin(first: Reconnect, wait: &mut Reconnect, again: bool, closed: &mut Reconnect, more: bool)
    requires
        call_ensures(Reconnect::new, (), first),
        old(wait).wf(),
        call_ensures(Reconnect::after_wait, (wait, WaitEnd::Elapsed), again),
        old(closed).wf(),
        call_ensures(Reconnect::after_wait, (closed, WaitEnd::InputClosed), more),
    ensures
        first.attempt == 0,
        first.backoff_ms == 500,
        again,
        old(wait).backoff_ms <= 2500 ==> final(wait).backoff_ms == 2 * old(wait).backoff_ms,
        old(wait).backoff_ms > 2500 ==> final(wait).backoff_ms == 5000,
        final(wait).attempt == old(wait).attempt,
        !more,
{
}

} // verus!
