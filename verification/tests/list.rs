use termd::attach::list::{
    draw_list, find_last_used, find_pty, item_size, next_pty, pick_best_pty, prev_pty, recent_pty,
    sorted_list, ListScreen, ListStep,
};
use termd::cli::{
    candidates, dump_output, dump_rows, list_output, resolve_pty_item, socket_base, ConnectionArgs, Destination,
    Resolved,
};
use termd::order::sort_by_key;
use termd::proto::{PtyItem, Size, SubscriberInfo, Timestamp};
use termd::text::{hex16_string, parse_u32, push_decimal};

fn item(pty_id: u64, sort_order: u32) -> PtyItem {
    PtyItem {
        pty_id,
        hostname: "box".to_string(),
        pts_name: format!("/dev/pts/{sort_order}"),
        size: Some(Size { cols: 80, rows: 24 }),
        title: String::new(),
        created_at: None,
        last_subscribed_at: None,
        subscribers: Vec::new(),
        sort_order,
    }
}

fn used(pty_id: u64, seconds: i64, nanos: i32) -> PtyItem {
    let mut i = item(pty_id, 0);
    i.last_subscribed_at = Some(Timestamp { seconds, nanos });
    i
}

fn ids(list: &[PtyItem]) -> Vec<u64> {
    list.iter().map(|i| i.pty_id).collect()
}

#[test]
fn lists_are_kept_by_place() {
    assert_eq!(ids(&sorted_list(vec![item(1, 5), item(2, 0), item(3, 5), item(4, 2)])), [2, 4, 1, 3]);
    assert_eq!(ids(&sort_by_key(Vec::<PtyItem>::new())), Vec::<u64>::new());
}

#[test]
fn round_and_round() {
    let list = [item(1, 0), item(2, 1), item(3, 2)];
    assert_eq!(next_pty(&list, 1).unwrap().pty_id, 2);
    assert_eq!(next_pty(&list, 3).unwrap().pty_id, 1);
    assert_eq!(prev_pty(&list, 1).unwrap().pty_id, 3);
    assert_eq!(prev_pty(&list, 3).unwrap().pty_id, 2);
    assert_eq!(next_pty(&list, 99).unwrap().pty_id, 2, "an unknown one counts as the first");
    assert!(next_pty(&[], 1).is_none() && prev_pty(&[], 1).is_none());
    for id in 1..=3 {
        let there = next_pty(&list, id).unwrap().pty_id;
        assert_eq!(prev_pty(&list, there).unwrap().pty_id, id);
    }
    assert_eq!((find_pty(&list, 2), find_pty(&list, 9)), (1, 3));
}

#[test]
fn the_last_used() {
    let list = [used(1, 5, 0), used(2, 7, 1), used(3, 7, 2), used(4, 6, 9)];
    assert_eq!(pick_best_pty(&list).unwrap().pty_id, 3);
    assert_eq!(find_last_used(&list, Some(3)), Some(1));
    assert_eq!(find_last_used(&[used(1, 5, 0), used(2, 5, 0)], None), Some(1), "of equals the last");
    assert!(pick_best_pty(&[]).is_none());
    let mut created = item(9, 0);
    created.created_at = Some(Timestamp { seconds: 9, nanos: 0 });
    assert_eq!(pick_best_pty(&[list[0].clone(), created]).unwrap().pty_id, 9);
}

#[test]
fn where_to_go_back_to() {
    let list = [used(1, 5, 0), used(2, 7, 0), used(3, 6, 0)];
    let r = recent_pty(&list, None, 1);
    assert_eq!((r.at, r.alone), (None, false));
    let r = recent_pty(&list, Some(3), 1);
    assert_eq!((r.at, r.alone), (Some(2), false));
    let r = recent_pty(&list, Some(99), 2);
    assert_eq!((r.at, r.alone), (Some(2), false), "the last used of the others");
    let r = recent_pty(&list[..1], Some(99), 1);
    assert_eq!((r.at, r.alone), (Some(0), true));
    let r = recent_pty(&[], Some(99), 1);
    assert_eq!((r.at, r.alone), (None, true));
}

#[test]
fn the_list_on_the_screen() {
    let mut long = item(0xabc, 12);
    long.title = "é".repeat(40);
    let mut short = item(1, 0);
    short.size = None;
    assert_eq!(item_size(&short), (0, 0));
    let shown = String::from_utf8(draw_list(&[short, long], 1)).unwrap();
    let expected = format!(
        "\x1b[2J\x1b[H   0  0000000000000001  {:<32}  0x0\r\n\x1b[7m  12  0000000000000abc  {}  80x24\r\n\x1b[0m",
        "/dev/pts/0",
        "é".repeat(32)
    );
    assert_eq!(shown, expected);
}

#[test]
fn keys_on_the_list() {
    let list = [item(1, 0), item(2, 1), item(3, 2)];
    let mut s = ListScreen::open(&list, 2).unwrap();
    assert_eq!(s.selected, 1);
    assert_eq!((s.on_input(&list, Some(b"\x1b[B")), s.selected), (ListStep::Redraw, 2));
    assert_eq!((s.on_input(&list, Some(b"\x1b[B")), s.selected), (ListStep::Redraw, 2));
    assert_eq!((s.on_input(&list, Some(b"\x1b[A...")), s.selected), (ListStep::Redraw, 1));
    assert_eq!(s.on_input(&list, Some(b"\x1b")), ListStep::AwaitEscape);
    assert_eq!((s.on_escape(3, Some(b"[A")), s.selected), (ListStep::Redraw, 0));
    assert_eq!((s.on_escape(3, Some(b"[A")), s.selected), (ListStep::Redraw, 0));
    assert_eq!((s.on_escape(3, Some(b"[B")), s.selected), (ListStep::Redraw, 1));
    assert_eq!(s.on_escape(3, None), ListStep::Cancel);
    assert_eq!(s.on_escape(3, Some(b"x")), ListStep::Cancel);
    assert_eq!(s.on_input(&list, Some(b"\r")), ListStep::Choose(2));
    assert_eq!(s.on_input(&list, Some(b"\n")), ListStep::Choose(2));
    assert_eq!(s.on_input(&list, Some(b"x")), ListStep::Ignore);
    assert_eq!(s.on_input(&list, None), ListStep::Cancel, "nothing is chosen at the end of input");
    let others = [used(1, 5, 0), used(2, 7, 0), used(3, 6, 0)];
    assert_eq!(ListScreen::open(&others, 99).unwrap().selected, 1);
    assert!(ListScreen::open(&[], 1).is_none());
}

#[test]
fn ids_by_their_beginning() {
    let list = [item(0xab00_0000_0000_0000, 0), item(0xab10_0000_0000_0000, 1), item(0x1, 2)];
    assert!(matches!(resolve_pty_item(&list, "AB1"), Resolved::One(1)));
    assert!(matches!(resolve_pty_item(&list, "0000000000000001"), Resolved::One(2)));
    assert!(matches!(resolve_pty_item(&list, "c"), Resolved::NoMatch));
    assert!(matches!(resolve_pty_item(&list, "00000000000000010"), Resolved::NoMatch), "too long");
    match resolve_pty_item(&list, "ab") {
        Resolved::Ambiguous(places) => assert_eq!(places, [0, 1]),
        _ => panic!("expected two"),
    }
    match resolve_pty_item(&list, "") {
        Resolved::Ambiguous(places) => assert_eq!(places, [0, 1, 2], "everything begins with nothing"),
        _ => panic!("expected all"),
    }
}

#[test]
fn printed_lists() {
    assert_eq!(list_output(Vec::new(), true), b"No active PTYs.\n");
    let mut a = item(0xab, 1);
    a.title = "vim".to_string();
    a.subscribers = vec![SubscriberInfo {
        subscriber_id: "s1".to_string(),
        hostname: "laptop".to_string(),
        size: Some(Size { cols: 100, rows: 30 }),
        created_at: None,
    }];
    let b = item(0xcd, 0);
    let plain = "  # ID                COLS  ROWS  TITLE\n  0 00000000000000cd    80    24  \n  1 00000000000000ab    80    24  vim\n";
    assert_eq!(String::from_utf8(list_output(vec![a.clone(), b.clone()], false)).unwrap(), plain);
    let verbose = format!("{plain}    ( {:<36} laptop 100x30 )\n", "s1");
    assert_eq!(String::from_utf8(list_output(vec![a, b], true)).unwrap(), verbose);
}

#[test]
fn dumps() {
    assert_eq!(dump_rows(Some(5), 24), 5);
    assert_eq!(dump_rows(None, 24), 24);
    assert_eq!(dump_rows(Some(0), 24), 1);
    assert_eq!(dump_rows(None, 0), 1);
    assert_eq!(dump_output(b"a\n".to_vec()), b"a\n");
    assert_eq!(dump_output(b"a".to_vec()), b"a\n");
    assert_eq!(dump_output(Vec::new()), b"\n");
}

#[test]
fn where_to_connect() {
    let socket = ConnectionArgs { socket: "/s", endpoint: None };
    assert!(matches!(socket.destination(), Destination::Socket("/s")));
    let both = ConnectionArgs { socket: "/s", endpoint: Some("h:1".to_string()) };
    assert!(matches!(both.destination(), Destination::Tcp(a) if a == "h:1"));
    assert_eq!(socket_base(Some("r"), Some("t"), "f"), "r");
    assert_eq!(socket_base(None, Some("t"), "f"), "t");
    assert_eq!(socket_base(None, None, "f"), "f");
}

#[test]
fn numbers_as_text() {
    let mut out = Vec::new();
    push_decimal(&mut out, 0);
    push_decimal(&mut out, 18446744073709551615);
    assert_eq!(out, b"018446744073709551615");
    assert_eq!(parse_u32(b"4294967295"), Some(4294967295));
    assert_eq!(parse_u32(b"4294967296"), None);
    assert_eq!(parse_u32(b"+7"), Some(7));
    assert_eq!(parse_u32(b"+"), None);
    assert_eq!(parse_u32(b""), None);
    assert_eq!(parse_u32(b"1x"), None);
    for n in [0u32, 9, 10, 4294967295] {
        assert_eq!(parse_u32(n.to_string().as_bytes()), Some(n));
    }
    assert_eq!(hex16_string(0x1f), "000000000000001f");
}

#[test]
fn candidates_by_their_short_ids() {
    let list = [item(0xab00_0000_0000_0000, 0), item(0x1, 1), item(0x1_2345_6789, 2)];
    assert_eq!(candidates(&list, &[0, 1, 2]), b"ab00000000000000, 00000001, 123456789");
    assert_eq!(candidates(&list, &[1]), b"00000001");
    assert_eq!(candidates(&list, &[]), b"");
}
