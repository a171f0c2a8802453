use termd::attach::input::{classify_csi, is_csi_u_ctrl_a, CsiAction, InputProcessor, InputResult};
use termd::attach::InputAction;

fn process(bytes: &[u8]) -> InputResult {
    InputProcessor::new().process(bytes)
}

#[test]
fn ctrl_a_c_creates() {
    let r = process(&[0x01, b'c']);
    assert!(matches!(r.action, Some(InputAction::Create)));
    assert!(r.write.is_empty());
}

#[test]
fn ctrl_a_ctrl_a_switches_recent() {
    let r = process(&[0x01, 0x01]);
    assert!(matches!(r.action, Some(InputAction::SwitchRecent)));
    assert!(r.write.is_empty());
}

#[test]
fn ctrl_a_a_sends_literal() {
    let r = process(&[0x01, b'a']);
    assert!(r.action.is_none());
    assert_eq!(r.write, &[0x01]);
}

#[test]
fn ctrl_a_d_detaches() {
    let r = process(&[0x01, b'd']);
    assert!(matches!(r.action, Some(InputAction::Detach)));
}

#[test]
fn ctrl_a_space_switches_next() {
    let r = process(&[0x01, b' ']);
    assert!(matches!(r.action, Some(InputAction::SwitchNext)));
}

#[test]
fn ctrl_a_p_switches_previous() {
    let r = process(&[0x01, b'p']);
    assert!(matches!(r.action, Some(InputAction::SwitchPrevious)));
    assert!(r.write.is_empty());
}

#[test]
fn ctrl_a_digit_switches_index() {
    for n in 0u8..=9 {
        let r = process(&[0x01, b'0' + n]);
        assert!(
            matches!(r.action, Some(InputAction::SwitchIndex(i)) if i == n),
            "^A {} should produce SwitchIndex({})", n, n,
        );
    }
}

#[test]
fn ctrl_a_quote_shows_list() {
    let r = process(&[0x01, b'"']);
    assert!(matches!(r.action, Some(InputAction::ShowList)));
}

#[test]
fn ctrl_a_shift_f_force_resize() {
    let r = process(&[0x01, b'F']);
    assert!(matches!(r.action, Some(InputAction::ForceResize)));
    assert!(r.write.is_empty());
}

#[test]
fn ctrl_a_k_destroys() {
    let r = process(&[0x01, b'k']);
    assert!(matches!(r.action, Some(InputAction::Destroy)));
    assert!(r.write.is_empty());
}

#[test]
fn ctrl_a_s_shows_scrollback() {
    let r = process(&[0x01, b's']);
    assert!(matches!(r.action, Some(InputAction::ShowScrollback)));
    assert!(r.write.is_empty());
}

#[test]
fn ctrl_a_unknown_passes_through() {
    let r = process(&[0x01, b'x']);
    assert!(r.action.is_none());
    assert_eq!(r.write, &[0x01, b'x']);
}

#[test]
fn tilde_dot_detaches() {
    let r = process(&[b'\r', b'~', b'.']);
    assert!(matches!(r.action, Some(InputAction::Detach)));
    assert_eq!(r.write, &[b'\r']);
}

#[test]
fn tilde_other_passes_through() {
    let r = process(&[b'\r', b'~', b'x']);
    assert!(r.action.is_none());
    assert_eq!(r.write, &[b'\r', b'~', b'x']);
}

#[test]
fn ctrl_a_mid_stream_preserves_prior_bytes() {
    let r = process(&[b'h', b'i', 0x01, b'c']);
    assert!(matches!(r.action, Some(InputAction::Create)));
    assert_eq!(r.write, &[b'h', b'i']);
}

#[test]
fn ctrl_a_works_from_after_newline_state() {
    let r = process(&[0x01, b'c']);
    assert!(matches!(r.action, Some(InputAction::Create)));
}

#[test]
fn state_resets_after_action() {
    let mut proc = InputProcessor::new();
    let r = proc.process(&[0x01, b'"']);
    assert!(matches!(r.action, Some(InputAction::ShowList)));
    let r = proc.process(&[b'x']);
    assert!(r.action.is_none());
    assert_eq!(r.write, &[b'x']);
}

// --- CSI-u and escape sequence tests ---

#[test]
fn csi_u_ctrl_a_c_creates() {
    let r = process(b"\x1b[97;5uc");
    assert!(matches!(r.action, Some(InputAction::Create)));
    assert!(r.write.is_empty());
}

#[test]
fn csi_u_ctrl_a_with_event_type() {
    let r = process(b"\x1b[97;5:1uc");
    assert!(matches!(r.action, Some(InputAction::Create)));
    assert!(r.write.is_empty());
}

#[test]
fn csi_u_ctrl_shift_a_triggers_prefix() {
    let r = process(b"\x1b[97;6uc");
    assert!(matches!(r.action, Some(InputAction::Create)));
    assert!(r.write.is_empty());
}

#[test]
fn csi_u_plain_key_passes_through() {
    let r = process(b"\x1b[97u");
    assert!(r.action.is_none());
    assert_eq!(r.write, b"\x1b[97u");
}

#[test]
fn da1_response_dropped() {
    let r = process(b"\x1b[?64;1c");
    assert!(r.action.is_none());
    assert!(r.write.is_empty());
}

#[test]
fn da2_response_dropped() {
    let r = process(b"\x1b[>1;2;3c");
    assert!(r.action.is_none());
    assert!(r.write.is_empty());
}

#[test]
fn cpr_response_dropped() {
    let r = process(b"\x1b[24;80R");
    assert!(r.action.is_none());
    assert!(r.write.is_empty());
}

#[test]
fn decrpm_response_dropped() {
    let r = process(b"\x1b[?2026;2$y");
    assert!(r.action.is_none());
    assert!(r.write.is_empty());
}

#[test]
fn kitty_keyboard_flags_response_dropped() {
    let r = process(b"\x1b[?3u");
    assert!(r.action.is_none());
    assert!(r.write.is_empty());
}

#[test]
fn arrow_key_passes_through() {
    let r = process(b"\x1b[A");
    assert!(r.action.is_none());
    assert_eq!(r.write, b"\x1b[A");
}

#[test]
fn csi_preserves_prior_bytes() {
    let r = process(b"hi\x1b[A");
    assert!(r.action.is_none());
    assert_eq!(r.write, b"hi\x1b[A");
}

#[test]
fn response_drops_preserve_prior_bytes() {
    let r = process(b"hello\x1b[?64;1c");
    assert!(r.action.is_none());
    assert_eq!(r.write, b"hello");
}

#[test]
fn alt_key_passes_through() {
    let r = process(b"\x1bx");
    assert!(r.action.is_none());
    assert_eq!(r.write, b"\x1bx");
}

#[test]
fn csi_split_across_reads() {
    let mut proc = InputProcessor::new();
    let r1 = proc.process(b"\x1b[");
    assert!(r1.action.is_none());
    assert!(r1.write.is_empty());
    let r2 = proc.process(b"A");
    assert!(r2.action.is_none());
    assert_eq!(r2.write, b"\x1b[A");
}

#[test]
fn response_between_text_drops_only_response() {
    let mut proc = InputProcessor::new();
    let r1 = proc.process(b"hello\x1b[?64;1c");
    assert!(r1.action.is_none());
    assert_eq!(r1.write, b"hello");
    let r2 = proc.process(b"world");
    assert!(r2.action.is_none());
    assert_eq!(r2.write, b"world");
}

// --- chunking, limits and classification ---

fn feed(chunks: &[&[u8]]) -> (Vec<u8>, Option<InputAction>) {
    let mut proc = InputProcessor::new();
    let mut write = Vec::new();
    for c in chunks {
        let r = proc.process(c);
        write.extend_from_slice(&r.write);
        if r.action.is_some() {
            return (write, r.action);
        }
    }
    (write, None)
}

#[test]
fn chunking_makes_no_difference() {
    let input: &[u8] = b"ls\r~x\x1b[1;5C\x01ab\x1b[?64;1cdone\x1bO";
    let whole = feed(&[input]);
    for cut in 0..=input.len() {
        assert_eq!(feed(&[&input[..cut], &input[cut..]]), whole, "cut at {}", cut);
    }
    assert_eq!(whole.0, b"ls\r~x\x1b[1;5C\x01bdone\x1bO");
}

#[test]
fn plain_text_is_sent_as_it_is() {
    let text: &[u8] = b"cd ~/src; make\r\nok";
    let r = process(text);
    assert!(r.action.is_none());
    assert_eq!(r.write, text);
}

#[test]
fn overlong_sequence_is_let_go() {
    let mut input = b"\x1b[".to_vec();
    input.extend(std::iter::repeat(b'1').take(256));
    let mut proc = InputProcessor::new();
    assert!(proc.process(&input).write.is_empty(), "256 bytes are still held");
    let r = proc.process(b"1");
    input.push(b'1');
    assert_eq!(r.write, input);
    assert_eq!(proc.process(b"m").write, b"m", "the rest is plain text");
}

#[test]
fn escape_interrupts_a_sequence() {
    let r = process(b"\x1b[12\x1b[A");
    assert_eq!(r.write, b"\x1b[12\x1b[A");
}

#[test]
fn rest_of_the_chunk_is_dropped_after_an_action() {
    let r = process(b"a\x01cxyz");
    assert!(matches!(r.action, Some(InputAction::Create)));
    assert_eq!(r.write, b"a");
}

#[test]
fn every_binding() {
    let bindings: [(u8, InputAction); 12] = [
        (0x00, InputAction::SwitchNext),
        (b'c', InputAction::Create),
        (b'F', InputAction::ForceResize),
        (b'R', InputAction::ForceRefresh),
        (b'"', InputAction::ShowList),
        (b'i', InputAction::ShowInfo),
        (b'k', InputAction::Destroy),
        (b's', InputAction::ShowScrollback),
        (b'?', InputAction::ShowHelp),
        (b' ', InputAction::SwitchNext),
        (b'p', InputAction::SwitchPrevious),
        (b'd', InputAction::Detach),
    ];
    for (key, action) in bindings {
        assert_eq!(process(&[0x01, key]).action, Some(action));
    }
}

#[test]
fn reset_forgets_what_is_held() {
    let mut proc = InputProcessor::new();
    proc.process(b"x\x1b[12");
    proc.reset();
    assert_eq!(proc.process(b"3m").write, b"3m");
    // At the start of a line again.
    let mut proc = InputProcessor::new();
    proc.process(b"x");
    proc.reset();
    assert_eq!(proc.process(b"~.").action, Some(InputAction::Detach));
}

#[test]
fn csi_classification() {
    assert_eq!(classify_csi(b"97;5", b'u'), CsiAction::CtrlA);
    assert_eq!(classify_csi(b"97;5$", b'u'), CsiAction::Forward);
    assert_eq!(classify_csi(b"<97;5", b'u'), CsiAction::Forward);
    assert_eq!(classify_csi(b"", b'R'), CsiAction::Drop);
    assert_eq!(classify_csi(b">1", b'R'), CsiAction::Forward);
    assert_eq!(classify_csi(b"=1", b'c'), CsiAction::Forward);
    assert_eq!(classify_csi(b"?1", b'c'), CsiAction::Drop);
}

#[test]
fn ctrl_a_reports() {
    assert!(is_csi_u_ctrl_a(b"97;5"));
    assert!(is_csi_u_ctrl_a(b"+97;+5"), "a plus sign is a number's");
    assert!(is_csi_u_ctrl_a(b"97;0"), "no modifiers at all wraps around");
    assert!(!is_csi_u_ctrl_a(b"97"));
    assert!(!is_csi_u_ctrl_a(b"97;"));
    assert!(!is_csi_u_ctrl_a(b"97;4"));
    assert!(!is_csi_u_ctrl_a(b"98;5"));
    assert!(!is_csi_u_ctrl_a(b"97:1;5"));
    assert!(!is_csi_u_ctrl_a(b";5"));
    assert!(!is_csi_u_ctrl_a(b"97;99999999999"), "too large counts as no modifiers");
    assert!(!is_csi_u_ctrl_a(b"97;5;\xff"), "not text");
}
