use termd::attach::region::{RegionHandler, VtFilter};
use termd::attach::{EventResult, PtyEvent, RenderMode};

fn filter_all(f: &mut VtFilter, input: &[u8]) -> Vec<u8> {
    let mut out = Vec::new();
    f.filter(input, &mut out);
    out
}

// ── VtFilter tests ──

#[test]
fn plain_bytes_pass_through() {
    let mut f = VtFilter::new(24, 80, 40, 120);
    assert_eq!(filter_all(&mut f, b"hello world"), b"hello world");
}

#[test]
fn esc_unknown_char_passes_through() {
    let mut f = VtFilter::new(24, 80, 40, 120);
    assert_eq!(filter_all(&mut f, b"\x1bA"), b"\x1bA");
}

#[test]
fn esc_string_opener_passes_immediately() {
    let mut f = VtFilter::new(24, 80, 40, 120);
    assert_eq!(
        filter_all(&mut f, b"\x1b]0;window title\x07"),
        b"\x1b]0;window title\x07",
    );
}

#[test]
fn esc_ris_emits_region() {
    let mut f = VtFilter::new(24, 80, 40, 80);
    let out = filter_all(&mut f, b"\x1bc");
    let s = String::from_utf8(out).unwrap();
    assert!(s.starts_with("\x1bc"), "RIS must be passed through first");
    assert!(s.contains("\x1b[1;24r"), "DECSTBM region setup must follow RIS");
}

#[test]
fn csi_unknown_passes_through() {
    let mut f = VtFilter::new(24, 80, 40, 120);
    assert_eq!(filter_all(&mut f, b"\x1b[5A"), b"\x1b[5A");
}

#[test]
fn csi_safety_limit_flushes() {
    let mut f = VtFilter::new(24, 80, 40, 120);
    let long: Vec<u8> = b"\x1b[1;2;3;4;5;6;7;8;9;10;11;12;13;14".to_vec();
    let out = filter_all(&mut f, &long);
    assert!(out.starts_with(b"\x1b["), "safety flush must emit the accumulated bytes");
}

#[test]
fn nested_esc_in_csi_flushes_buf() {
    let mut f = VtFilter::new(24, 80, 40, 120);
    let out = filter_all(&mut f, b"\x1b[5\x1b[2J");
    assert!(out.starts_with(b"\x1b[5"), "incomplete CSI must be flushed");
    assert!(out.ends_with(b"\x1b[2J"), "subsequent CSI must pass through");
}

#[test]
fn csi_private_marker_detected() {
    let mut f = VtFilter::new(24, 80, 40, 120);
    assert_eq!(filter_all(&mut f, b"\x1b[?25h"), b"\x1b[?25h");
}

#[test]
fn decstbm_bare_reset_rewritten() {
    let mut f = VtFilter::new(24, 80, 40, 120);
    assert_eq!(filter_all(&mut f, b"\x1b[r"), b"\x1b[1;24r");
}

#[test]
fn decstbm_bottom_clamped_to_server_rows() {
    let mut f = VtFilter::new(24, 80, 40, 120);
    assert_eq!(filter_all(&mut f, b"\x1b[1;30r"), b"\x1b[1;24r");
}

#[test]
fn decstbm_within_bounds_unchanged() {
    let mut f = VtFilter::new(24, 80, 40, 120);
    assert_eq!(filter_all(&mut f, b"\x1b[5;20r"), b"\x1b[5;20r");
}

#[test]
fn decstbm_top_exceeds_server_rows_collapses() {
    let mut f = VtFilter::new(24, 80, 40, 120);
    assert_eq!(filter_all(&mut f, b"\x1b[25;30r"), b"\x1b[1;24r");
}

#[test]
fn decstbm_cross_buffer() {
    let mut f = VtFilter::new(24, 80, 40, 120);
    let mut out = Vec::new();
    f.filter(b"\x1b[1;30", &mut out);
    f.filter(b"r", &mut out);
    assert_eq!(out, b"\x1b[1;24r");
}

#[test]
fn decslrm_right_clamped_to_server_cols() {
    let mut f = VtFilter::new(24, 80, 40, 120);
    let mut out = Vec::new();
    f.emit_region_setup(&mut out);
    out.clear();
    f.filter(b"\x1b[1;100s", &mut out);
    assert_eq!(out, b"\x1b[1;80s");
}

#[test]
fn declrmm_enable_suppressed() {
    let mut f = VtFilter::new(24, 80, 40, 120);
    assert_eq!(filter_all(&mut f, b"\x1b[?69h"), b"");
}

#[test]
fn declrmm_disable_suppressed() {
    let mut f = VtFilter::new(24, 80, 40, 120);
    assert_eq!(filter_all(&mut f, b"\x1b[?69l"), b"");
}

#[test]
fn alt_screen_enter_passes_through() {
    let mut f = VtFilter::new(24, 80, 40, 120);
    let out = filter_all(&mut f, b"\x1b[?1049h");
    assert_eq!(out, b"\x1b[?1049h");
    assert!(f.in_alt_screen);
}

#[test]
fn alt_screen_exit_reemits_region() {
    let mut f = VtFilter::new(24, 80, 40, 80);
    filter_all(&mut f, b"\x1b[?1049h");
    let out = filter_all(&mut f, b"\x1b[?1049l");
    let s = String::from_utf8(out).unwrap();
    assert!(s.starts_with("\x1b[?1049l"), "alt-screen exit byte must pass through");
    assert!(s.contains("\x1b[1;24r"), "region setup must be re-emitted after exit");
    assert!(!f.in_alt_screen);
}

#[test]
fn other_private_mode_passes_through() {
    let mut f = VtFilter::new(24, 80, 40, 120);
    assert_eq!(filter_all(&mut f, b"\x1b[?2004h"), b"\x1b[?2004h");
}

#[test]
fn decslrm_left_exceeds_server_cols_collapses() {
    let mut f = VtFilter::new(24, 80, 40, 120);
    let mut out = Vec::new();
    f.emit_region_setup(&mut out);
    out.clear();
    f.filter(b"\x1b[90;100s", &mut out);
    assert_eq!(out, b"\x1b[1;80s");
}

#[test]
fn emit_region_setup_disables_declrmm_when_client_shrinks() {
    let mut f = VtFilter::new(24, 80, 40, 120);
    let mut out = Vec::new();
    f.emit_region_setup(&mut out);
    assert!(f.declrmm_active);
    out.clear();
    f.update_client_size(40, 80);
    f.emit_region_setup(&mut out);
    assert!(!f.declrmm_active);
    let s = String::from_utf8(out).unwrap();
    assert!(s.contains("\x1b[?69l"), "DECLRMM disable sequence must be emitted");
}

#[test]
fn decstr_re_emits_region_setup() {
    let mut f = VtFilter::new(24, 80, 40, 120);
    let mut out = Vec::new();
    f.emit_region_setup(&mut out);
    out.clear();
    f.filter(b"\x1b[!p", &mut out);
    let s = String::from_utf8(out).unwrap();
    assert!(s.starts_with("\x1b[!p"), "DECSTR must pass through first");
    assert!(s.contains("\x1b[?69h"), "DECLRMM must be re-enabled after DECSTR");
    assert!(s.contains("\x1b[1;80s"), "DECSLRM must be re-established after DECSTR");
}

#[test]
fn decstbm_rewrite_re_emits_decslrm() {
    let mut f = VtFilter::new(24, 80, 40, 120);
    let mut out = Vec::new();
    f.emit_region_setup(&mut out);
    out.clear();
    f.filter(b"\x1b[r", &mut out);
    assert_eq!(out, b"\x1b[1;24r\x1b[1;80s");
}

// ── RegionHandler tests ──

#[test]
fn region_init_emits_setup_and_data() {
    let mut h = RegionHandler::new(24, 80, 40, 120);
    let mut out = Vec::new();
    let result = h.init(b"hello", &[], &mut out);
    assert!(matches!(result, EventResult::Continue));
    let s = String::from_utf8_lossy(&out);
    assert!(s.contains("\x1b[1;24r"), "should emit DECSTBM");
    assert!(s.contains("hello"), "should include refresh data");
}

#[test]
fn region_init_too_small_returns_change_mode() {
    let mut h = RegionHandler::new(24, 80, 20, 60);
    let mut out = Vec::new();
    let result = h.init(b"hello", &[], &mut out);
    assert!(matches!(result, EventResult::ChangeRenderMode(RenderMode::Cell)));
}

#[test]
fn region_init_replays_buffered() {
    let mut h = RegionHandler::new(24, 80, 40, 120);
    let mut out = Vec::new();
    let buffered = vec![(2, b"world".to_vec())];
    h.init(b"hello", &buffered, &mut out);
    let s = String::from_utf8_lossy(&out);
    assert!(s.contains("hello"));
    assert!(s.contains("world"));
}

#[test]
fn region_stream_filters_data() {
    let mut h = RegionHandler::new(24, 80, 40, 120);
    let mut out = Vec::new();
    h.init(b"", &[], &mut out);
    out.clear();

    let result = h.on_pty_event(PtyEvent::Stream { data: b"test" }, &mut out);
    assert!(matches!(result, EventResult::Continue));
    assert_eq!(out, b"test");
}

#[test]
fn region_refresh_updates_filter_and_re_emits_setup() {
    let mut h = RegionHandler::new(24, 80, 40, 120);
    let mut out = Vec::new();
    h.init(b"", &[], &mut out);
    out.clear();

    let result = h.on_pty_event(
        PtyEvent::Refresh { cols: 80, rows: 30, data: b"new" },
        &mut out,
    );
    assert!(matches!(result, EventResult::Continue));
    let s = String::from_utf8_lossy(&out);
    assert!(s.contains("\x1b[1;30r"), "should emit updated DECSTBM");
    assert!(s.contains("new"));
}

#[test]
fn region_refresh_too_large_switches_to_cell() {
    let mut h = RegionHandler::new(24, 80, 40, 120);
    let mut out = Vec::new();
    h.init(b"", &[], &mut out);
    out.clear();

    let result = h.on_pty_event(
        PtyEvent::Refresh { cols: 200, rows: 50, data: b"big" },
        &mut out,
    );
    assert!(matches!(result, EventResult::ChangeRenderMode(RenderMode::Cell)));
}

#[test]
fn region_resize_too_large_switches_to_cell() {
    let mut h = RegionHandler::new(24, 80, 40, 120);
    let mut out = Vec::new();
    h.init(b"", &[], &mut out);
    out.clear();

    let result = h.on_pty_event(
        PtyEvent::Resize { cols: 200, rows: 50 },
        &mut out,
    );
    assert!(matches!(result, EventResult::ChangeRenderMode(RenderMode::Cell)));
}

#[test]
fn region_sigwinch_too_small_switches_to_cell() {
    let mut h = RegionHandler::new(24, 80, 40, 120);
    let mut out = Vec::new();
    h.init(b"", &[], &mut out);
    out.clear();

    let result = h.on_sigwinch(60, 20, &mut out);
    assert!(matches!(result, EventResult::ChangeRenderMode(RenderMode::Cell)));
}

#[test]
fn region_sigwinch_ok_updates_client_size() {
    let mut h = RegionHandler::new(24, 80, 40, 120);
    let mut out = Vec::new();
    h.init(b"", &[], &mut out);
    out.clear();

    let result = h.on_sigwinch(200, 50, &mut out);
    assert!(matches!(result, EventResult::Continue));
    let s = String::from_utf8_lossy(&out);
    assert!(s.contains("\x1b[1;24r"), "should re-emit DECSTBM on resize");
}

#[test]
fn region_cleanup_resets_margins() {
    let mut h = RegionHandler::new(24, 80, 40, 120);
    let mut out = Vec::new();
    h.init(b"", &[], &mut out);
    out.clear();

    h.cleanup(&mut out);
    let s = String::from_utf8_lossy(&out);
    assert!(s.contains("\x1b[r"), "should reset DECSTBM");
}

#[test]
fn region_cleanup_disables_declrmm_when_active() {
    let mut h = RegionHandler::new(24, 80, 40, 120);
    let mut out = Vec::new();
    h.init(b"", &[], &mut out);
    out.clear();

    h.cleanup(&mut out);
    let s = String::from_utf8_lossy(&out);
    assert!(s.contains("\x1b[?69l"), "should disable DECLRMM");
}

// ── chunking and limits ──

#[test]
fn filter_chunking_makes_no_difference() {
    let input: &[u8] = b"a\x1b[2;99r\x1b[?69h\x1b[?1049h\x1b[!p\x1b]0;t\x07\x1bc\x1b[31mz";
    let mut whole = VtFilter::new(24, 80, 40, 120);
    let expected = filter_all(&mut whole, input);
    for cut in 0..=input.len() {
        let mut f = VtFilter::new(24, 80, 40, 120);
        let mut out = Vec::new();
        f.filter(&input[..cut], &mut out);
        f.filter(&input[cut..], &mut out);
        assert_eq!(out, expected, "cut at {}", cut);
    }
    assert_eq!(
        expected,
        b"a\x1b[2;24r\x1b[?1049h\x1b[!p\x1b[1;24r\x1b[?69h\x1b[1;80s\x1b]0;t\x07\x1bc\x1b[1;24r\x1b[?69h\x1b[1;80s\x1b[31mz"
            .to_vec()
    );
}

#[test]
fn overlong_csi_is_passed_unread() {
    // 33 bytes are held; the next one lets them go, and is not taken as the end of the sequence.
    let mut f = VtFilter::new(24, 80, 40, 120);
    let mut seq = b"\x1b[".to_vec();
    seq.extend(std::iter::repeat(b'1').take(31));
    let mut out = Vec::new();
    f.filter(&seq, &mut out);
    assert!(out.is_empty());
    f.filter(b"r", &mut out);
    seq.push(b'r');
    assert_eq!(out, seq);
}

#[test]
fn margins_take_numbers_loosely() {
    let mut f = VtFilter::new(24, 80, 40, 120);
    assert_eq!(filter_all(&mut f, b"\x1b[;r"), b"\x1b[1;24r");
    assert_eq!(filter_all(&mut f, b"\x1b[+3;+9r"), b"\x1b[3;9r");
    assert_eq!(filter_all(&mut f, b"\x1b[3:4;9r"), b"\x1b[1;9r");
    assert_eq!(filter_all(&mut f, b"\x1b[3;99999999999r"), b"\x1b[3;24r");
    assert_eq!(filter_all(&mut f, b"\x1b[9;9r"), b"\x1b[1;9r");
}

#[test]
fn csi_params_of_a_held_sequence() {
    let mut f = VtFilter::new(24, 80, 40, 120);
    f.buf = b"\x1b[?1049;2;h".to_vec();
    assert_eq!(f.parse_csi_params(), vec![1049, 2, 0]);
    f.buf = b"\x1b[h".to_vec();
    assert_eq!(f.parse_csi_params(), Vec::<u32>::new());
    f.buf = b"\x1b[1;\xff;3r".to_vec();
    assert_eq!(f.parse_csi_params(), vec![1, 3], "what is not text is left out");
}

#[test]
fn only_the_first_private_parameter_counts() {
    let mut f = VtFilter::new(24, 80, 40, 120);
    assert_eq!(filter_all(&mut f, b"\x1b[?69;25h"), b"");
    assert_eq!(filter_all(&mut f, b"\x1b[?25;69h"), b"\x1b[?25;69h");
}

#[test]
fn cursor_save_passes_without_column_margins() {
    let mut f = VtFilter::new(24, 80, 40, 80);
    assert_eq!(filter_all(&mut f, b"\x1b[s"), b"\x1b[s");
}

#[test]
fn effective_size_is_the_smaller() {
    let mut f = VtFilter::new(24, 80, 20, 120);
    assert_eq!((f.effective_rows(), f.effective_cols()), (20, 80));
    f.update_region(10, 200);
    assert_eq!((f.effective_rows(), f.effective_cols()), (10, 120));
}

#[test]
fn region_closed_writes_nothing() {
    let mut h = RegionHandler::new(24, 80, 40, 120);
    let mut out = Vec::new();
    assert!(matches!(h.on_pty_event(PtyEvent::Closed, &mut out), EventResult::Continue));
    assert!(out.is_empty());
}

#[test]
fn region_resize_sets_margins() {
    let mut h = RegionHandler::new(24, 80, 40, 120);
    let mut out = Vec::new();
    let r = h.on_pty_event(PtyEvent::Resize { cols: 120, rows: 30 }, &mut out);
    assert!(matches!(r, EventResult::Continue));
    assert_eq!(out, b"\x1b[1;30r");
}
