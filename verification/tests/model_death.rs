use xmux::model::death::{
    display_tty_marker_prefix, matches_display_tty, parse_display_tty_marker, psmux_port_path,
    psmux_registry_dir,
};
use xmux::model::plan::{DeathSignal, DisplayTty};

#[test]
fn matches_only_for_control_notice_and_only_our_tty() {
    let ours = DisplayTty(Some("/dev/pts/3".into()));
    assert!(matches_display_tty(&DeathSignal::ControlNotice, "/dev/pts/3", &ours));
    assert!(!matches_display_tty(&DeathSignal::ControlNotice, "/dev/pts/9", &ours));
    assert!(!matches_display_tty(
        &DeathSignal::ControlNotice,
        "/dev/pts/3",
        &DisplayTty(None)
    ));
}

#[test]
fn an_empty_tty_is_no_ones() {
    let none = DisplayTty(Some(String::new()));
    assert!(!matches_display_tty(&DeathSignal::ControlNotice, "", &none));
    assert!(!matches_display_tty(&DeathSignal::ControlNotice, "/dev/pts/3", &none));
    let ours = DisplayTty(Some("/dev/pts/3".into()));
    assert!(!matches_display_tty(&DeathSignal::ControlNotice, "", &ours));
}

#[test]
fn non_control_notice_signals_never_match_a_detach() {
    let ours = DisplayTty(Some("/dev/pts/3".into()));
    assert!(!matches_display_tty(&DeathSignal::Eof, "/dev/pts/3", &ours));
    assert!(!matches_display_tty(
        &DeathSignal::PathStat { dir_is_psmux_registry: true },
        "/dev/pts/3",
        &ours
    ));
}

#[test]
fn marker_prefix_self_reports_the_attach_shells_own_tty_before_exec() {
    let p = display_tty_marker_prefix();
    assert!(p.contains("$(tty"), "self-reports its own tty: {p}");
    assert!(p.contains("XMUX-DISPLAY-TTY:"), "inside the unique marker: {p}");
    assert!(p.trim_end().ends_with(';'), "a prefix the attach argv appends exec to: {p}");
}

#[test]
fn parse_picks_our_marked_tty_not_the_first_tty_in_a_multiclient_dump() {
    let stream = b"\
/dev/pts/0 user-shell\r\n\
/dev/pts/7 control-client\r\n\
\x1b]XMUX-DISPLAY-TTY:/dev/pts/3\x07\
some-banner /dev/pts/5\r\n";
    assert_eq!(parse_display_tty_marker(stream).as_deref(), Some("/dev/pts/3"));
}

#[test]
fn parse_returns_none_without_the_marker() {
    assert_eq!(parse_display_tty_marker(b"/dev/pts/0 just some output\r\n"), None);
}

#[test]
fn parse_finds_a_whole_marker_anywhere_in_the_buffer() {
    let stream = b"prompt$ \x1b]XMUX-DISPLAY-TTY:/dev/pts/12\x07rest";
    assert_eq!(parse_display_tty_marker(stream).as_deref(), Some("/dev/pts/12"));
}

#[test]
fn an_unfinished_or_empty_marker_names_no_tty() {
    assert_eq!(parse_display_tty_marker(b"\x1b]XMUX-DISPLAY-TTY:/dev/pts/12"), None);
    assert_eq!(parse_display_tty_marker(b"\x1b]XMUX-DISPLAY-TTY:\x07"), None);
}

#[test]
fn psmux_port_path_is_under_registry_dir() {
    let p = psmux_port_path(Some("/home/u"), "editor");
    assert!(p.ends_with(".psmux/editor.port"), "{p:?}");
    assert_eq!(p, "/home/u/.psmux/editor.port");
    assert_eq!(psmux_registry_dir(Some("/home/u")), "/home/u/.psmux");
}
