use xmux::proxy::registry::{AttachRegistry, Ensured};
use xmux::proxy::run::{
    query_responses, scan_marker_once, spawn_plan, trailing_partial_query, Attachment, PtyCmd,
    PtyEvent,
};
use xmux::proxy::screen::{vt_color_to_ratatui, Color, Draw, Grid, Rect, VtColor};

fn fake_attachment(id: u64) -> Attachment {
    Attachment::new(80, 24, id)
}

fn empty_registry() -> AttachRegistry {
    AttachRegistry::new()
}

fn insert_fake(reg: &mut AttachRegistry, addr: &str, id: u64) {
    reg.insert(addr, fake_attachment(id));
}

#[test]
fn contains_and_remove() {
    let mut reg = empty_registry();
    insert_fake(&mut reg, "jupiter06/api", 1);
    assert!(reg.contains("jupiter06/api"));
    assert_eq!(reg.len(), 1);
    reg.remove("jupiter06/api");
    assert!(!reg.contains("jupiter06/api"), "remove tears down + drops the entry");
    assert!(reg.is_empty());
}

#[test]
fn reap_removes_by_id() {
    let mut reg = empty_registry();
    insert_fake(&mut reg, "jupiter06/b", 2);
    assert!(reg.contains("jupiter06/b"));
    reg.reap(2);
    assert!(!reg.contains("jupiter06/b"), "reap removes the EOF'd attachment");
}

#[test]
fn reap_unknown_id_is_noop() {
    let mut reg = empty_registry();
    insert_fake(&mut reg, "local/work", 1);
    reg.reap(999);
    assert!(reg.contains("local/work"), "reaping an unknown id leaves the map intact");
}

#[test]
fn addresses_lists_every_attachment() {
    let mut reg = empty_registry();
    insert_fake(&mut reg, "local/a", 1);
    insert_fake(&mut reg, "jupiter06/b", 2);
    let mut got = reg.addresses();
    got.sort();
    assert_eq!(got, vec!["jupiter06/b".to_string(), "local/a".to_string()]);
}

#[test]
fn connecting_true_for_absent_and_fresh() {
    let mut reg = empty_registry();
    assert!(reg.connecting("nope"), "an absent address is still 'connecting'");
    insert_fake(&mut reg, "local/a", 1);
    assert!(reg.connecting("local/a"), "a fresh fake attachment starts connecting");
}

#[test]
fn grid_returns_arc_for_attached() {
    let mut reg = empty_registry();
    insert_fake(&mut reg, "local/a", 1);
    assert!(reg.grid("local/a").is_some());
    assert!(reg.grid("absent").is_none());
}

#[test]
fn input_to_absent_is_noop() {
    let mut reg = empty_registry();
    reg.input("absent", b"x".to_vec());
    assert!(reg.is_empty());
}

#[test]
fn clear_grid_blanks_then_noop_for_absent() {
    let mut reg = empty_registry();
    insert_fake(&mut reg, "local/a", 1);
    reg.output(1, b"stale residue");
    assert!(!reg.grid("local/a").unwrap().is_blank());
    reg.clear_grid("local/a");
    assert!(reg.grid("local/a").unwrap().is_blank(), "clear_grid wipes the grid");
    reg.clear_grid("absent");
}

#[test]
fn registry_ensure_uses_injected_spawner() {
    let mut registry = empty_registry();
    let mut calls = 0;
    for _ in 0..2 {
        let id = match registry.ensure("local/a") {
            Ensured::Attached(id) => id,
            Ensured::Spawn(id) => {
                calls += 1;
                registry.insert("local/a", fake_attachment(id));
                id
            }
        };
        assert_eq!(id, 1);
    }
    assert_eq!(calls, 1);
}

#[test]
fn alloc_id_increments_and_insert_registers_attachment() {
    let mut reg = empty_registry();
    let id0 = reg.alloc_id();
    let id1 = reg.alloc_id();
    assert_eq!((id0, id1), (1, 2), "ids are issued sequentially from 1");
    reg.insert("local/a", fake_attachment(id0));
    assert!(reg.contains("local/a"));
    assert!(reg.grid("local/a").is_some(), "inserted attachment exposes its grid");
}

#[test]
fn resize_all_reaches_every_attachment() {
    let mut reg = empty_registry();
    insert_fake(&mut reg, "local/a", 1);
    insert_fake(&mut reg, "jupiter06/b", 2);
    reg.resize_all(100, 40);
    for addr in ["local/a", "jupiter06/b"] {
        let att = reg.get(addr).unwrap();
        assert_eq!(att.size, (100, 40));
        assert_eq!(att.outbox, vec![PtyCmd::Resize { cols: 100, rows: 40 }]);
    }
    assert_eq!(reg.teardown_all(), vec![1, 2]);
}

#[test]
fn output_is_reported_once_per_redraw() {
    let mut reg = empty_registry();
    insert_fake(&mut reg, "local/a", 7);
    assert_eq!(reg.output(7, b"x"), vec![PtyEvent::Output { id: 7 }]);
    assert!(!reg.connecting("local/a"), "the first output ends the connecting");
    assert!(reg.output(7, b"y").is_empty(), "the redraw is still owed");
    reg.clear_all_pending();
    assert_eq!(reg.output(7, b"z"), vec![PtyEvent::Output { id: 7 }]);
    assert!(reg.output(8, b"z").is_empty(), "nothing has this id");
    assert_eq!(reg.grid("local/a").unwrap().contents(), "xyz");
}

#[test]
fn query_responses_answers_dsr_and_da() {
    assert_eq!(query_responses(b"\x1b[6n", (4, 2)), b"\x1b[3;5R");
    assert_eq!(query_responses(b"\x1b[c", (0, 0)), b"\x1b[?1;2c");
    assert_eq!(query_responses(b"\x1b[0c", (0, 0)), b"\x1b[?1;2c");
    assert!(query_responses(b"hello world\r\n", (1, 1)).is_empty());
    let r = query_responses(b"abc\x1b[6ndef", (0, 0));
    assert_eq!(r, b"\x1b[1;1R");
}

#[test]
fn trailing_partial_query_carries_only_incomplete_prefixes() {
    assert_eq!(trailing_partial_query(b"out\x1b[c"), b"");
    assert_eq!(trailing_partial_query(b"out\x1b[6n"), b"");
    assert_eq!(trailing_partial_query(b"out\x1b[0c"), b"");
    assert_eq!(trailing_partial_query(b"out\x1b"), b"\x1b");
    assert_eq!(trailing_partial_query(b"out\x1b["), b"\x1b[");
    assert_eq!(trailing_partial_query(b"out\x1b[6"), b"\x1b[6");
    assert_eq!(trailing_partial_query(b"out\x1b[0"), b"\x1b[0");
    assert_eq!(trailing_partial_query(b"plain"), b"");
}

#[test]
fn split_query_answered_once_across_reads() {
    let mut qtail: Vec<u8> = Vec::new();
    let mut all: Vec<u8> = Vec::new();
    for chunk in [&b"prompt\x1b[6"[..], &b"n more\x1b[c"[..], &b" tail"[..]] {
        qtail.extend_from_slice(chunk);
        all.extend_from_slice(&query_responses(&qtail, (0, 0)));
        let keep = trailing_partial_query(&qtail).len();
        let cut = qtail.len() - keep;
        qtail.drain(0..cut);
    }
    let dsr = all.windows(3).filter(|w| *w == b"1;1").count();
    let da = all.windows(7).filter(|w| *w == b"\x1b[?1;2c").count();
    assert_eq!(dsr, 1, "DSR answered exactly once (split across reads)");
    assert_eq!(da, 1, "DA answered exactly once (no duplicate at the read boundary)");
}

#[test]
fn an_attachment_answers_a_split_query_once() {
    let mut att = fake_attachment(1);
    att.output(b"\x1b[6");
    assert!(att.take_commands().is_empty());
    att.output(b"n");
    assert_eq!(att.take_commands(), vec![PtyCmd::Input(b"\x1b[1;1R".to_vec())]);
    att.output(b"x");
    assert!(att.take_commands().is_empty());
}

#[test]
fn commands_wait_in_the_order_they_were_given() {
    let mut att = fake_attachment(1);
    att.input(b"ab".to_vec());
    att.resize(80, 24);
    att.input(b"cd".to_vec());
    assert_eq!(
        att.take_commands(),
        vec![
            PtyCmd::Input(b"ab".to_vec()),
            PtyCmd::Resize { cols: 80, rows: 24 },
            PtyCmd::Input(b"cd".to_vec()),
        ]
    );
    assert!(att.take_commands().is_empty());
}

#[test]
fn fake_attachment_input_and_resize_do_not_panic() {
    let mut att = fake_attachment(1);
    att.input(b"hello".to_vec());
    att.resize(100, 40);
    assert_eq!(att.size, (100, 40));
    assert_eq!(att.id(), 1);
    assert_eq!(att.ended(), PtyEvent::Exited { id: 1 });
    att.teardown();
}

#[test]
fn scan_marker_once_emits_our_tty_then_stops() {
    let mut acc: Vec<u8> = Vec::new();
    let mut captured: Option<String> = None;
    scan_marker_once(
        &mut acc,
        &mut captured,
        b"boot \x1b]XMUX-DISPLAY-TTY:/dev/pts/3\x07ok",
    );
    assert_eq!(captured.as_deref(), Some("/dev/pts/3"), "captured on the completing read");
    let len_after = acc.len();
    scan_marker_once(&mut acc, &mut captured, b"\x1b]XMUX-DISPLAY-TTY:/dev/pts/9\x07");
    assert_eq!(
        captured.as_deref(),
        Some("/dev/pts/3"),
        "a later marker does not override our capture"
    );
    assert_eq!(acc.len(), len_after, "scanning stops once captured (no unbounded growth)");
}

#[test]
fn scan_marker_once_accumulates_across_reads_until_whole() {
    let mut acc: Vec<u8> = Vec::new();
    let mut captured: Option<String> = None;
    scan_marker_once(&mut acc, &mut captured, b"x \x1b]XMUX-DISPLAY-TTY:/dev/p");
    assert!(captured.is_none(), "partial marker is not yet captured");
    scan_marker_once(&mut acc, &mut captured, b"ts/12\x07 rest");
    assert_eq!(
        captured.as_deref(),
        Some("/dev/pts/12"),
        "captured once the marker completes"
    );
}

#[test]
fn a_spawn_needs_a_program_and_clears_the_mux_variables() {
    let words = |w: &[&str]| w.iter().map(|s| s.to_string()).collect::<Vec<String>>();
    let plan = spawn_plan(
        &words(&["tmux", "attach", "-t", "api"]),
        words(&["PATH", "TMUX", "PSMUX_SESSION"]),
        80,
        24,
    )
    .unwrap();
    assert_eq!(plan.program, "tmux");
    assert_eq!(plan.args, words(&["attach", "-t", "api"]));
    assert_eq!(plan.cleared, words(&["TMUX", "PSMUX_SESSION"]));
    assert_eq!((plan.cols, plan.rows), (80, 24));
    assert_eq!(
        spawn_plan(&[], Vec::new(), 80, 24).unwrap_err(),
        "spawn_attachment: argv must not be empty"
    );
}

// the grid

#[test]
fn color_mapping_covers_default_idx_rgb() {
    assert_eq!(vt_color_to_ratatui(VtColor::Default), Color::Reset);
    assert_eq!(vt_color_to_ratatui(VtColor::Idx(4)), Color::Indexed(4));
    assert_eq!(vt_color_to_ratatui(VtColor::Rgb(10, 20, 30)), Color::Rgb(10, 20, 30));
}

fn area(width: u16, height: u16) -> Rect {
    Rect { x: 0, y: 0, width, height }
}

/// What stands at a place after the drawing, a blank where nothing was drawn.
fn symbol_at(drawn: &[Draw], x: u16, y: u16) -> String {
    drawn
        .iter()
        .find(|d| d.x == x && d.y == y)
        .map(|d| d.symbol.clone())
        .unwrap_or_else(|| " ".to_string())
}

#[test]
fn render_into_writes_cell_symbols_into_buffer() {
    let mut g = Grid::new(24, 80);
    g.feed(b"AB");
    let drawn = g.render_into(area(80, 24));
    assert_eq!(symbol_at(&drawn, 0, 0), "A");
    assert_eq!(symbol_at(&drawn, 1, 0), "B");
}

#[test]
fn render_into_clips_to_area_top_left() {
    let mut g = Grid::new(24, 80);
    g.feed(b"HELLO");
    let drawn = g.render_into(area(3, 1));
    assert_eq!(symbol_at(&drawn, 0, 0), "H");
    assert_eq!(symbol_at(&drawn, 2, 0), "L");
    assert_eq!(symbol_at(&drawn, 3, 0), " ");
}

#[test]
fn render_into_blanks_wide_char_straddling_right_edge() {
    let mut g = Grid::new(1, 10);
    g.feed("한국어".as_bytes());
    let drawn = g.render_into(area(5, 1));
    assert_eq!(symbol_at(&drawn, 0, 0), "한");
    assert_eq!(symbol_at(&drawn, 2, 0), "국");
    assert_eq!(
        symbol_at(&drawn, 4, 0),
        " ",
        "straddling wide char blanked, no overflow"
    );
}

#[test]
fn render_into_keeps_wide_char_fully_inside_area() {
    let mut g = Grid::new(1, 10);
    g.feed("한국".as_bytes());
    let drawn = g.render_into(area(4, 1));
    assert_eq!(symbol_at(&drawn, 0, 0), "한");
    assert_eq!(symbol_at(&drawn, 2, 0), "국", "fully-inside wide char is kept");
}

#[test]
fn a_drawn_cell_has_its_place_colours_and_attributes() {
    let mut g = Grid::new(2, 10);
    g.feed(b"\x1b[1;3;4;7;31;48;2;1;2;3mX");
    let drawn = g.render_into(Rect { x: 5, y: 6, width: 1, height: 1 });
    assert_eq!(drawn.len(), 1);
    assert_eq!((drawn[0].x, drawn[0].y, drawn[0].symbol.as_str()), (5, 6, "X"));
    let style = drawn[0].style;
    assert_eq!(style.fg, Color::Indexed(1));
    assert_eq!(style.bg, Color::Rgb(1, 2, 3));
    assert!(style.bold && style.italic && style.underlined && style.reversed);
}

#[test]
fn cursor_reports_position_in_xy_order() {
    let mut g = Grid::new(24, 80);
    g.feed(b"abc");
    assert_eq!(g.cursor(), (3, 0), "cursor is (col, row)");
}

#[test]
fn a_hidden_cursor_is_reported() {
    let mut g = Grid::new(24, 80);
    assert!(!g.hide_cursor());
    g.feed(b"\x1b[?25l");
    assert!(g.hide_cursor());
}

#[test]
fn reconstructs_plain_content() {
    let mut g = Grid::new(24, 80);
    g.feed(b"hello-VT100-grid");
    let bytes = g.restore_bytes();
    assert!(!bytes.is_empty());
    assert!(String::from_utf8_lossy(&bytes).contains("hello-VT100-grid"));
}

#[test]
fn a_restored_grid_shows_the_same() {
    let mut g = Grid::new(4, 20);
    g.feed(b"one\r\ntwo");
    let mut again = Grid::new(4, 20);
    again.feed(&g.restore_bytes());
    assert_eq!(again.contents(), g.contents());
    assert_eq!(again.cursor(), g.cursor());
}

#[test]
fn tracks_alternate_screen() {
    let mut g = Grid::new(10, 40);
    g.feed(b"\x1b[?1049h\x1b[Halt-text");
    assert!(g.contents().contains("alt-text"));
}

#[test]
fn restore_reemits_bracketed_paste_mode() {
    let mut g = Grid::new(10, 40);
    g.feed(b"\x1b[?2004h");
    let bytes = g.restore_bytes();
    assert!(
        bytes.windows(8).any(|w| w == b"\x1b[?2004h"),
        "restore must re-emit bracketed-paste enable"
    );
}

#[test]
fn a_resized_or_cleared_grid_keeps_its_bounds() {
    let mut g = Grid::new(24, 80);
    g.feed(b"\x1b[20;70Hx");
    g.resize(10, 40);
    let (col, row) = g.cursor();
    assert!(col < 40 && row < 10);
    g.clear();
    assert!(g.is_blank());
    assert_eq!(g.cursor(), (0, 0));
}

#[test]
fn a_selector_at_the_end_of_a_row_moves_the_character_down() {
    for sent in [
        "\u{1b}[1;10H\u{2764}\u{fe0f}x",
        "\u{1b}[3;10H\u{2764}\u{fe0f}\u{1b}[3;10Hx",
        "\u{1b}[1;2r\u{1b}[4;10H\u{2764}\u{fe0f}x",
        "\u{1b}[4;10Ha\u{fe0f}b",
        "\u{1b}[2;9H\u{d55c}\u{fe0f}b",
    ] {
        let mut plain = vt100::Parser::new(4, 10, 0);
        plain.process(sent.as_bytes());
        for cut in 0..sent.len() {
            let mut g = Grid::new(4, 10);
            g.feed(&sent.as_bytes()[..cut]);
            g.feed(&sent.as_bytes()[cut..]);
            assert_eq!(g.contents(), plain.screen().contents(), "{sent:?} cut at {cut}");
            let (row, col) = plain.screen().cursor_position();
            assert_eq!(g.cursor(), (col.min(9), row), "{sent:?} cut at {cut}");
        }
    }
}

#[test]
fn half_a_character_that_scrolls_up_is_erased() {
    let sent = "top\u{1b}[24;80H\u{2764}\u{fe0f}";
    let mut plain = vt100::Parser::new(24, 80, 0);
    plain.process(sent.as_bytes());
    let mut g = Grid::new(24, 80);
    g.feed(sent.as_bytes());
    // The rest is as it would be without: the screen has scrolled, the cursor has moved.
    assert_eq!(plain.screen().cursor_position(), (23, 2));
    assert_eq!(g.cursor(), (2, 23));
    assert!(plain.screen().cell(22, 79).unwrap().is_wide());
    let drawn = g.render_into(area(80, 24));
    assert_eq!(symbol_at(&drawn, 79, 22), " ");
    assert!(g.is_blank(), "the top row is gone");
    // The cell can be written to.
    g.feed(b"\x1b[23;80Hx\x1b[24;80Hy");
    let drawn = g.render_into(area(80, 24));
    assert_eq!(symbol_at(&drawn, 79, 22), "x");
    assert_eq!(symbol_at(&drawn, 79, 23), "y");
}

#[test]
fn a_selector_widens_the_character_before_it() {
    let sent = "a\u{2764}\u{fe0f}b";
    let mut g = Grid::new(2, 10);
    g.feed(sent.as_bytes());
    assert_eq!(g.contents(), sent);
    assert_eq!(g.cursor(), (4, 0));
    for byte in sent.as_bytes() {
        g.feed(&[*byte]);
    }
    assert_eq!(g.contents(), format!("{sent}{sent}"));
    // A beginning that comes to nothing is read as what it is.
    let mut h = Grid::new(2, 10);
    h.feed(b"a\xef");
    h.feed(b"\xef\xb8");
    h.feed("\u{fe0f}b".as_bytes());
    assert_eq!(h.contents(), "a\u{fe0f}b");
}

#[test]
fn a_grid_may_be_one_column_wide() {
    let mut g = Grid::new(2, 1);
    g.feed("a\u{2764}\u{fe0f}b\u{fe0f}c\tx".as_bytes());
    assert_eq!(g.cursor(), (0, 1));
    g.resize(1, 1);
    g.feed(b"\x1b[K\x1b[2@\x1b[3Py");
    assert_eq!(g.contents(), "y");
    // A selector that changes no width is read.
    let mut plain = vt100::Parser::new(2, 1, 0);
    plain.process("a\u{fe0f}".as_bytes());
    let mut h = Grid::new(2, 1);
    h.feed("a\u{fe0f}".as_bytes());
    assert_eq!(h.contents(), plain.screen().contents());
    assert_eq!(h.contents(), "a\u{fe0f}");
}

#[test]
fn a_grid_may_be_as_wide_as_its_tab_stops_can_be_counted() {
    let mut g = Grid::new(1, 0xfff7);
    g.feed(b"\x1b[65535Gx\t\ty");
    assert_eq!(g.cursor(), (0xfff6, 0));
}
