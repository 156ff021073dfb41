use xmux::proxy::control_proto::{classify, parse_notif, refresh_size_line, Line, Notif};
use xmux::proxy::decode::KeyDecoder;
use xmux::proxy::dispatch::Action;
use xmux::proxy::input::TermInput;
use xmux::proxy::key::KeyCode;
use xmux::proxy::mouse::{encode_sgr_mouse, parse_sgr_mouse, MouseEvent};
use xmux::proxy::term::parse_prefix;

#[test]
fn classify_frames_and_output() {
    assert!(matches!(
        classify("%begin 1363006971 2 1"),
        Line::Begin { num: 2, control: true }
    ));
    assert!(matches!(
        classify("%begin 1363006971 3 0"),
        Line::Begin { num: 3, control: false }
    ));
    assert!(matches!(classify("%end 1363006971 2 1"), Line::End { num: 2 }));
    assert!(matches!(classify("%error 1363006971 5 0"), Line::Error { num: 5 }));
    match classify("%output %0 hi\\012") {
        Line::Output { pane, data } => {
            assert_eq!(pane, "%0");
            assert_eq!(data, "hi\\012");
        }
        _ => panic!("expected Output"),
    }
    match classify("%extended-output %3 512 : \\033[2J") {
        Line::ExtendedOutput { pane, rest } => {
            assert_eq!(pane, "%3");
            assert_eq!(rest, "512 : \\033[2J");
        }
        _ => panic!("expected ExtendedOutput"),
    }
    assert!(matches!(
        classify("0: ksh* (1 panes)"),
        Line::Body("0: ksh* (1 panes)")
    ));
}

#[test]
fn classify_begin_num_is_the_correlator() {
    assert!(matches!(
        classify("%begin 999 17 0"),
        Line::Begin { num: 17, control: false }
    ));
    assert!(matches!(classify("%begin x y z"), Line::Notification(_)));
}

#[test]
fn parse_notif_full_table() {
    assert!(matches!(
        parse_notif("%session-changed $1 work"),
        Notif::SessionChanged { id: "$1", name: "work" }
    ));
    assert!(matches!(parse_notif("%sessions-changed"), Notif::SessionsChanged));
    assert!(matches!(
        parse_notif("%window-add @4"),
        Notif::WindowAdd { window: "@4" }
    ));
    assert!(matches!(
        parse_notif("%window-close @4"),
        Notif::WindowClose { window: "@4" }
    ));
    assert!(matches!(
        parse_notif("%window-renamed @4 logs"),
        Notif::WindowRenamed { window: "@4", name: "logs" }
    ));
    assert!(matches!(
        parse_notif("%window-pane-changed @4 %9"),
        Notif::WindowPaneChanged { window: "@4", pane: "%9" }
    ));
    assert!(matches!(
        parse_notif("%session-window-changed $1 @4"),
        Notif::SessionWindowChanged { session: "$1", window: "@4" }
    ));
    assert!(matches!(parse_notif("%pause %9"), Notif::Pause { pane: "%9" }));
    assert!(matches!(
        parse_notif("%continue %9"),
        Notif::Continue { pane: "%9" }
    ));
    assert!(matches!(
        parse_notif("%client-detached client0"),
        Notif::ClientDetached
    ));
    assert!(matches!(parse_notif("%unlinked-window-add @9"), Notif::Other));
}

#[test]
fn parse_notif_exit_reason_optional() {
    assert!(matches!(parse_notif("%exit"), Notif::Exit { reason: None }));
    assert!(matches!(
        parse_notif("%exit too far behind"),
        Notif::Exit { reason: Some("too far behind") }
    ));
}

#[test]
fn size_line_uses_x_form() {
    assert_eq!(refresh_size_line(80, 24), "refresh-client -C 80x24\n");
}

#[test]
fn control_proto_size_line_uses_x_form() {
    assert_eq!(refresh_size_line(0, 65535), "refresh-client -C 0x65535\n");
}

fn codes(bytes: &[u8]) -> Vec<KeyCode> {
    KeyDecoder::new().feed(bytes).into_iter().map(|k| k.code).collect()
}

#[test]
fn printable_ascii() {
    assert_eq!(
        codes(b"dev"),
        vec![KeyCode::Char('d'), KeyCode::Char('e'), KeyCode::Char('v')]
    );
}

#[test]
fn enter_esc_backspace() {
    assert_eq!(codes(b"\r"), vec![KeyCode::Enter]);
    assert_eq!(codes(b"\x1b"), vec![KeyCode::Esc]);
    assert_eq!(codes(b"\x7f"), vec![KeyCode::Backspace]);
}

#[test]
fn csi_arrows() {
    assert_eq!(codes(b"\x1b[A"), vec![KeyCode::Up]);
    assert_eq!(codes(b"\x1b[B"), vec![KeyCode::Down]);
    assert_eq!(codes(b"\x1b[C"), vec![KeyCode::Right]);
    assert_eq!(codes(b"\x1b[D"), vec![KeyCode::Left]);
}

#[test]
fn csi_arrows_with_ctrl_modifier() {
    let ev = KeyDecoder::new().feed(b"\x1b[1;5A");
    assert_eq!(ev.len(), 1);
    assert_eq!(ev[0].code, KeyCode::Up);
    assert!(ev[0].modifiers.control);
    let down = KeyDecoder::new().feed(b"\x1b[1;5B");
    assert_eq!(down[0].code, KeyCode::Down);
    assert!(down[0].modifiers.control);
    assert!(KeyDecoder::new().feed(b"\x1b[A")[0].modifiers.is_empty());
}

#[test]
fn utf8_multibyte_char() {
    assert_eq!(codes(&[0xc3, 0xa9]), vec![KeyCode::Char('é')]);
}

#[test]
fn lone_esc_then_char_is_esc_and_char() {
    assert_eq!(codes(b"\x1bx"), vec![KeyCode::Esc, KeyCode::Char('x')]);
}

#[test]
fn unrecognized_csi_consumed_silently() {
    assert_eq!(codes(b"\x1b[3~"), Vec::<KeyCode>::new(), "Delete should be silent");
    assert_eq!(codes(b"\x1b[6~"), Vec::<KeyCode>::new(), "PgDn should be silent");
    assert_eq!(
        codes(b"\x1b[H"),
        Vec::<KeyCode>::new(),
        "Home (ESC[H) should be silent"
    );
}

fn m() -> TermInput {
    TermInput::new(0x07)
}

fn fwd(a: &[Action]) -> Vec<u8> {
    a.iter()
        .flat_map(|x| match x {
            Action::Forward(b) => b.clone(),
            _ => vec![],
        })
        .collect()
}

#[test]
fn plain_bytes_forward() {
    let mut t = m();
    assert_eq!(fwd(&t.feed(b"ab")), b"ab");
}

#[test]
fn prefix_then_tab_focuses_tree() {
    let mut t = m();
    assert!(t.feed(&[0x07]).is_empty(), "prefix alone is held");
    assert!(t.is_armed());
    assert_eq!(t.feed(b"\t"), vec![Action::FocusTree(vec![])]);
    assert!(!t.is_armed());
}

#[test]
fn prefix_then_left_or_esc_focuses_tree() {
    for seq in [&b"\x1b[D"[..], &b"\x1b"[..]] {
        let mut t = m();
        t.feed(&[0x07]);
        assert_eq!(t.feed(seq), vec![Action::FocusTree(vec![])], "seq {seq:?} → tree");
    }
}

#[test]
fn prefix_then_right_stays_in_terminal() {
    let mut t = m();
    t.feed(&[0x07]);
    assert!(t.feed(b"\x1b[C").is_empty(), "prefix → produces no action (stays in mux)");
    let mut t2 = m();
    t2.feed(&[0x07]);
    assert_eq!(
        fwd(&t2.feed(b"\x1b[Cabc")),
        b"abc",
        "trailing input after prefix → forwards"
    );
}

#[test]
fn prefix_then_arrow_in_one_read_consumes_the_whole_arrow() {
    let mut t = m();
    assert_eq!(t.feed(b"\x07\x1b[D"), vec![Action::FocusTree(vec![])]);
    let mut t2 = m();
    assert_eq!(t2.feed(b"\x07\x1b[Dabc"), vec![Action::FocusTree(b"abc".to_vec())]);
}

#[test]
fn prefix_then_tab_then_trailing_goes_to_tree() {
    let mut t = m();
    assert_eq!(t.feed(b"\x07\tabc"), vec![Action::FocusTree(b"abc".to_vec())]);
}

#[test]
fn prefix_then_q_quits() {
    let mut t = m();
    t.feed(&[0x07]);
    assert_eq!(t.feed(b"q"), vec![Action::Quit]);
}

#[test]
fn prefix_then_question_toggles_help() {
    let mut t = m();
    t.feed(&[0x07]);
    assert_eq!(t.feed(b"?"), vec![Action::ShowHelp]);
}

#[test]
fn prefix_then_t_toggles_auto_hide() {
    let mut t = m();
    assert_eq!(
        t.feed(b"\x07tabc"),
        vec![Action::ToggleAutoHide, Action::Forward(b"abc".to_vec())]
    );
}

#[test]
fn prefix_then_h_or_l_resizes() {
    let mut t = m();
    t.feed(&[0x07]);
    assert_eq!(t.feed(b"h"), vec![Action::Width(-1)], "h narrows");
    let mut t2 = m();
    t2.feed(&[0x07]);
    assert_eq!(t2.feed(b"l"), vec![Action::Width(1)], "l widens");
}

#[test]
fn prefix_then_ctrl_arrow_resizes() {
    let mut t = m();
    t.feed(&[0x07]);
    assert_eq!(t.feed(b"\x1b[1;5C"), vec![Action::Width(1)], "Ctrl-Right widens");
    let mut t2 = m();
    t2.feed(&[0x07]);
    assert_eq!(t2.feed(b"\x1b[1;5D"), vec![Action::Width(-1)], "Ctrl-Left narrows");
}

#[test]
fn prefix_command_keeps_focus_and_forwards_rest() {
    let mut t = m();
    assert_eq!(
        t.feed(b"\x07?abc"),
        vec![Action::ShowHelp, Action::Forward(b"abc".to_vec())]
    );
    let mut t2 = m();
    assert_eq!(
        t2.feed(b"ab\x07lcd"),
        vec![
            Action::Forward(b"ab".to_vec()),
            Action::Width(1),
            Action::Forward(b"cd".to_vec()),
        ]
    );
}

#[test]
fn double_prefix_sends_one_literal() {
    let mut t = m();
    t.feed(&[0x07]);
    assert_eq!(fwd(&t.feed(&[0x07])), vec![0x07]);
}

#[test]
fn prefix_then_other_key_is_swallowed() {
    let mut t = m();
    t.feed(&[0x07]);
    let out = t.feed(b"x");
    assert!(out.is_empty(), "unrecognised follow-up is swallowed: {out:?}");
}

#[test]
fn double_prefix_then_trailing_forwards_literal_and_rest() {
    let mut t = m();
    assert_eq!(fwd(&t.feed(b"\x07\x07abc")), vec![0x07, b'a', b'b', b'c']);
}

#[test]
fn prefix_then_unknown_then_trailing_forwards_rest() {
    let mut t = m();
    assert_eq!(fwd(&t.feed(b"\x07xabc")), b"abc");
}

#[test]
fn bytes_before_prefix_forward_then_intercept() {
    let mut t = m();
    let out = t.feed(b"hi\x07\t");
    assert_eq!(out, vec![Action::Forward(b"hi".to_vec()), Action::FocusTree(vec![])]);
}

#[test]
fn prefix_inside_bracketed_paste_is_literal() {
    let mut t = m();
    for b in b"\x1b[200~" {
        let _ = t.feed(&[*b]);
    }
    assert_eq!(fwd(&t.feed(&[0x07])), vec![0x07]);
    for b in b"\x1b[201~" {
        let _ = t.feed(&[*b]);
    }
    assert!(t.feed(&[0x07]).is_empty());
    assert_eq!(t.feed(b"\t"), vec![Action::FocusTree(vec![])]);
}

#[test]
fn parse_press_roundtrip() {
    let input = b"\x1b[<0;10;5M";
    let (ev, len) = parse_sgr_mouse(input).expect("must parse");
    assert_eq!(ev, MouseEvent { cb: 0, col: 10, row: 5, pressed: true });
    assert_eq!(len, input.len());
    assert_eq!(encode_sgr_mouse(&ev, 10, 5), input);
}

#[test]
fn parse_release_form() {
    let input = b"\x1b[<0;10;5m";
    let (ev, len) = parse_sgr_mouse(input).expect("must parse release");
    assert!(!ev.pressed);
    assert_eq!(len, input.len());
}

#[test]
fn encode_at_new_coords() {
    let ev = MouseEvent { cb: 0, col: 10, row: 5, pressed: true };
    let encoded = encode_sgr_mouse(&ev, 3, 2);
    assert_eq!(encoded, b"\x1b[<0;3;2M");
}

#[test]
fn parse_partial_returns_none() {
    assert!(parse_sgr_mouse(b"\x1b[<0;10").is_none());
}

#[test]
fn a_cut_report_is_none_and_a_whole_one_encodes_back() {
    let whole = b"\x1b[<35;120;7m";
    for n in 0..whole.len() {
        assert!(parse_sgr_mouse(&whole[..n]).is_none(), "cut at {n}");
    }
    let (ev, len) = parse_sgr_mouse(whole).unwrap();
    assert_eq!(len, whole.len());
    assert_eq!(encode_sgr_mouse(&ev, ev.col, ev.row), whole);
    let (padded, _) = parse_sgr_mouse(b"\x1b[<035;0120;07m").unwrap();
    assert_eq!(padded, ev);
    assert_eq!(encode_sgr_mouse(&padded, padded.col, padded.row), whole);
    assert!(parse_sgr_mouse(b"\x1b[<65536;1;1M").is_none());
    assert!(parse_sgr_mouse(b"\x1b[<1;1;65536M").is_none());
    let moved = MouseEvent { col: 1, row: 2, ..ev.clone() };
    assert_eq!(encode_sgr_mouse(&moved, 9, 9), encode_sgr_mouse(&ev, 9, 9));
}

#[test]
fn parse_non_mouse_returns_none() {
    assert!(parse_sgr_mouse(b"\x1b[A").is_none());
}

#[test]
fn parse_multi_digit_coords() {
    let input = b"\x1b[<32;120;48M";
    let (ev, len) = parse_sgr_mouse(input).expect("multi-digit coords");
    assert_eq!(ev, MouseEvent { cb: 32, col: 120, row: 48, pressed: true });
    assert_eq!(len, input.len());
}

#[test]
fn parse_overflow_coord_returns_none() {
    assert!(
        parse_sgr_mouse(b"\x1b[<0;65536;5M").is_none(),
        "coordinate >= 65536 must parse as None"
    );
}

#[test]
fn encode_release() {
    let ev = MouseEvent { cb: 0, col: 5, row: 3, pressed: false };
    let encoded = encode_sgr_mouse(&ev, 5, 3);
    assert_eq!(encoded, b"\x1b[<0;5;3m");
}

#[test]
fn parse_prefix_recognises_specs_and_defaults() {
    assert_eq!(parse_prefix(Some("C-g")), 0x07);
    assert_eq!(parse_prefix(Some("C-Space")), 0x00);
    assert_eq!(parse_prefix(Some("c-a")), 0x01);
    assert_eq!(parse_prefix(None), 0x07);
    assert_eq!(parse_prefix(Some("garbage")), 0x07);
}
