use xmux::model::death::psmux_port_path;
use xmux::model::host::{Host, HostDisplay, Liveness, ReadyOutcome};
use xmux::model::plan::DisplayTty;
use xmux::model::server_model::ServerModel;
use xmux::model::source::RunError;
use xmux::model::transport::Transport;
use xmux::mux::{for_binary, AnyMux, Mux};

fn local() -> Transport {
    Transport::Local { socket: None }
}

fn ssh(alias: &str) -> Transport {
    Transport::Ssh { alias: alias.into(), control_path: String::new(), os: "linux".into() }
}

fn mux(bin: &str) -> AnyMux {
    for_binary(bin).unwrap()
}

fn ok(out: &str) -> Result<Vec<u8>, RunError> {
    Ok(out.as_bytes().to_vec())
}

fn down() -> Result<Vec<u8>, RunError> {
    Err(RunError::Other("down".into()))
}

#[test]
fn host_id_is_the_transport_host_id() {
    let h = Host::new(local(), mux("tmux"));
    assert_eq!(h.id(), "local");
    let r = Host::new(ssh("jup"), mux("tmux"));
    assert_eq!(r.id(), "jup");
}

#[test]
fn new_host_starts_connecting_with_empty_inventory_and_tty() {
    let h = Host::new(local(), mux("psmux"));
    assert_eq!(h.liveness, Liveness::Connecting);
    assert!(h.inventory.sessions.is_empty());
    assert!(h.display_tty.0.is_none());
}

#[test]
fn host_display_tracks_current_session_per_key() {
    let mut d = HostDisplay::default();
    assert_eq!(d.shows("jup"), None, "nothing shown until set");
    d.set_shows("jup", "api");
    assert_eq!(d.shows("jup"), Some("api"));
    d.set_shows("jup", "build");
    assert_eq!(d.shows("jup"), Some("build"), "set overwrites the shown session");
}

#[test]
fn host_display_clear_forgets_current_in_flight_and_pending() {
    let mut d = HostDisplay::default();
    d.set_shows("local/work", "work");
    d.mark_in_flight("local/work", 7);
    d.mark_pending(7, "local/work");
    assert_eq!(d.in_flight_seq("local/work"), Some(7));
    d.clear("local/work");
    assert_eq!(d.shows("local/work"), None, "clear forgets the shown session");
    assert_eq!(d.in_flight_seq("local/work"), None, "clear forgets the in-flight seq");
    assert!(
        d.pending_is_empty(),
        "clear forgets the key's pending id so a dead attach cannot leak it forever"
    );
}

#[test]
fn host_display_tracks_reaped_and_pending() {
    let mut d = HostDisplay::default();
    assert!(!d.is_reaped(7), "reaped ids default empty");
    assert!(d.pending_is_empty(), "pending defaults empty");
    d.mark_pending(7, "jup");
    assert!(d.mark_reaped_if_pending(7));
    assert_eq!(d.pending_key(7), Some("jup"), "pending maps id -> key");
    assert!(d.is_reaped(7), "the dead id is held");
    assert_eq!(d.resolve_ready("jup", 0, 7), ReadyOutcome::TearDownReaped);
    assert!(!d.is_reaped(7) && d.pending_is_empty(), "round-trips back to empty");
}

#[test]
fn host_display_reply_is_current_only_for_latest_seq() {
    let mut d = HostDisplay::default();
    d.mark_in_flight("k", 5);
    assert!(d.reply_is_current("k", 5));
    assert!(!d.reply_is_current("k", 4), "older seq is stale");
    assert!(!d.reply_is_current("absent", 5), "no in-flight request → stale");
}

#[test]
fn host_display_resolve_ready_reaped_race_tears_down() {
    let mut d = HostDisplay::default();
    d.mark_in_flight("local/w", 3);
    d.mark_pending(42, "local/w");
    d.mark_reaped_if_pending(42);
    assert_eq!(d.resolve_ready("local/w", 3, 42), ReadyOutcome::TearDownReaped);
    assert!(!d.in_flight_contains("local/w"), "in-flight cleared");
    assert!(d.pending_key(42).is_none(), "pending id cleared");
    assert!(!d.is_reaped(42), "reaped id consumed");
}

#[test]
fn host_display_resolve_ready_current_seq_installs() {
    let mut d = HostDisplay::default();
    d.set_shows("local/w", "work");
    d.mark_in_flight("local/w", 3);
    d.mark_pending(42, "local/w");
    assert_eq!(
        d.resolve_ready("local/w", 3, 42),
        ReadyOutcome::Install { shown: "work".into() }
    );
    assert!(!d.in_flight_contains("local/w"), "in-flight cleared on install");
    assert!(d.pending_key(42).is_none(), "pending id cleared on install");
}

#[test]
fn host_display_resolve_ready_stale_seq_tears_down() {
    let mut d = HostDisplay::default();
    d.mark_in_flight("local/w", 9);
    d.mark_pending(42, "local/w");
    assert_eq!(d.resolve_ready("local/w", 3, 42), ReadyOutcome::TearDownStale);
    assert!(
        d.in_flight_contains("local/w"),
        "stale reply must not clear the newer in-flight seq"
    );
    assert!(d.pending_key(42).is_none(), "stale reply forgets its pending id");
}

#[test]
fn host_display_resolve_failed_clears_when_current() {
    let mut d = HostDisplay::default();
    d.mark_in_flight("local/w", 3);
    d.mark_pending(42, "local/w");
    assert!(d.resolve_failed("local/w", 3), "current reply clears state");
    assert!(!d.in_flight_contains("local/w"));
    assert!(d.pending_is_empty());
    d.mark_in_flight("local/w", 9);
    assert!(!d.resolve_failed("local/w", 3));
    assert!(d.in_flight_contains("local/w"));
}

#[test]
fn host_display_mark_reaped_only_when_pending() {
    let mut d = HostDisplay::default();
    d.mark_pending(7, "jup");
    assert!(d.mark_reaped_if_pending(7), "an id we spawned is recorded");
    assert!(d.is_reaped(7));
    assert!(!d.mark_reaped_if_pending(99), "an id we never spawned is not ours");
}

#[test]
fn host_display_starts_with_nothing_in_flight() {
    let mut d = HostDisplay::default();
    assert!(d.in_flight_is_empty());
    d.mark_in_flight("a", 1);
    assert!(!d.in_flight_is_empty());
    d.clear("b");
    assert_eq!(d.in_flight_seq("a"), Some(1), "another key is left as it is");
}

#[test]
fn liveness_is_copy_and_comparable() {
    let l = Liveness::Connecting;
    assert_eq!(l, Liveness::Connecting);
    assert_ne!(Liveness::Live, Liveness::Unreachable);
    assert_eq!(Liveness::from_scan_err(&None), Liveness::Live);
    assert_eq!(Liveness::from_scan_err(&Some("down".into())), Liveness::Unreachable);
}

#[test]
fn enumerate_ok_fills_inventory_and_goes_live() {
    let mut h = Host::new(local(), mux("tmux"));
    h.enumerate_with(Vec::new(), ok("1\t0\twork\n1\t0\tbuild\n")).unwrap();
    assert_eq!(h.liveness, Liveness::Live);
    let names: Vec<&str> = h.inventory.sessions.iter().map(|s| s.name.as_str()).collect();
    assert_eq!(names, vec!["work", "build"]);
}

#[test]
fn enumerate_empty_is_live_not_unreachable() {
    let mut h = Host::new(local(), mux("tmux"));
    h.enumerate_with(Vec::new(), ok("")).unwrap();
    assert_eq!(h.liveness, Liveness::Live);
    assert!(h.inventory.sessions.is_empty());
}

#[test]
fn enumerate_err_marks_unreachable_and_propagates() {
    let mut h = Host::new(local(), mux("tmux"));
    assert_eq!(h.enumerate_with(Vec::new(), down()), Err(RunError::Other("down".into())));
    assert_eq!(h.liveness, Liveness::Unreachable);
}

#[test]
fn a_listing_is_read_into_the_inventory() {
    let mut h = Host::new(local(), mux("tmux"));
    h.enumerate_with(Vec::new(), ok("3\t1\teditor\n1\t0\tbuild\n")).unwrap();
    assert_eq!(h.inventory.sessions[0].windows, 3);
    assert!(h.inventory.sessions[0].attached);
    assert_eq!(h.inventory.sessions[0].source, "local");
    assert_eq!(h.inventory.sessions[0].mux, "tmux");
}

#[test]
fn enumerate_with_benign_no_server_is_empty_not_error() {
    let mut h = Host::new(ssh("prod"), mux("tmux"));
    let r = Err(RunError::Exit {
        stderr: "no server running on /tmp/tmux-1000/default".into(),
        code: 1,
    });
    h.enumerate_with(Vec::new(), r).unwrap();
    assert!(h.inventory.sessions.is_empty());
    assert_eq!(h.liveness, Liveness::Live);
}

#[test]
fn enumerate_with_unreachable_is_error() {
    let mut h = Host::new(ssh("prod"), mux("tmux"));
    let r = Err(RunError::Other(
        "ssh: connect to host prod port 22: Connection timed out".into(),
    ));
    assert!(h.enumerate_with(Vec::new(), r).is_err());
    assert_eq!(h.liveness, Liveness::Unreachable);
}

fn attach_host(binary: &str, remote: bool) -> Host {
    let transport = if remote { ssh("prod") } else { local() };
    Host::new(transport, mux(binary))
}

#[test]
fn interactive_attach_local_psmux_routes_to_the_per_session_server() {
    let loc = attach_host("psmux", false);
    assert_eq!(
        loc.interactive_attach_command("dev", None),
        vec!["psmux", "new-session", "-A", "-s", "dev"]
    );
    assert_eq!(
        loc.interactive_attach_command("dev", Some(3)),
        vec!["psmux", "new-session", "-A", "-s", "dev"]
    );
}

#[test]
fn interactive_attach_local_tmux_is_a_plain_attach() {
    let loc = attach_host("tmux", false);
    assert_eq!(
        loc.interactive_attach_command("dev", None),
        vec!["tmux", "attach", "-t", "dev"]
    );
}

#[test]
fn interactive_attach_remote_tmux_without_window() {
    let rem = attach_host("tmux", true);
    let got = rem.interactive_attach_command("api", None);
    assert_eq!(got[0], "ssh");
    assert!(got.iter().any(|s| s == "-t"), "{got:?}");
    assert_eq!(got.last().unwrap(), "exec tmux attach -t api");
}

#[test]
fn interactive_attach_remote_tmux_folds_window_into_one_connection() {
    let rem = attach_host("tmux", true);
    let got = rem.interactive_attach_command("api", Some(2));
    assert_eq!(got[0], "ssh");
    assert!(got.iter().any(|s| s == "-t"), "{got:?}");
    assert_eq!(
        got.last().unwrap(),
        "tmux select-window -t 'api:2' ; exec tmux attach -t api"
    );
}

#[test]
fn interactive_attach_remote_psmux_uses_attach_plan_over_ssh() {
    let rem = attach_host("psmux", true);
    let got = rem.interactive_attach_command("api", None);
    assert_eq!(got[0], "ssh");
    assert!(got.iter().any(|s| s == "-t"), "{got:?}");
    assert_eq!(got.last().unwrap(), "exec psmux new-session -A -s api");
}

#[test]
fn record_and_clear_display_tty_round_trips() {
    let mut h = Host::new(ssh("jup"), mux("tmux"));
    assert!(h.display_tty.0.is_none(), "starts with no tty");
    h.record_display_tty(Some("/dev/pts/3".into()));
    assert_eq!(h.display_tty.0.as_deref(), Some("/dev/pts/3"));
    h.clear_display_tty();
    assert!(h.display_tty.0.is_none(), "clear forgets the dead client's tty");
}

#[test]
fn matches_display_tty_only_for_our_own_client_under_control_notice() {
    let mut h = Host::new(ssh("jup"), mux("tmux"));
    assert!(!h.matches_display_tty("/dev/pts/3"), "no captured tty → inert");
    h.display_tty = DisplayTty(Some("/dev/pts/3".into()));
    assert!(h.matches_display_tty("/dev/pts/3"), "our own client's tty matches");
    assert!(!h.matches_display_tty("/dev/pts/9"), "an unrelated client never matches");
}

#[test]
fn psmux_host_session_liveness_uses_the_port_stat() {
    let h = Host::new(local(), mux("psmux"));
    assert_eq!(psmux_port_path(Some("/home/u"), "work"), "/home/u/.psmux/work.port");
    assert!(h.session_is_live(true), "a present .port ⇒ live");
    assert!(!h.session_is_live(false), "a vanished .port ⇒ not live");
}

#[test]
fn tmux_host_session_is_always_live_by_port_stat() {
    let h = Host::new(ssh("jup"), mux("tmux"));
    assert!(h.session_is_live(false));
    assert!(h.session_is_live(true));
}

#[test]
fn detect_and_correct_replaces_behavior_and_preserves_bin() {
    let mut h = Host::new(local(), mux("tmux"));
    h.detect_and_correct(&vec![ok("psmux command help"), ok("psmux command help")]);
    assert_eq!(h.mux.kind(), "psmux");
    assert_eq!(h.mux.server_model(), ServerModel::PerSession);
    assert_eq!(h.mux.attach_plan("api"), vec!["tmux", "new-session", "-A", "-s", "api"]);
    assert!(h.detected);

    h.detect_and_correct(&vec![down(), ok("tmux 3.5a")]);
    assert_eq!(h.mux.kind(), "psmux", "what it is stays settled");
}

#[test]
fn detect_and_correct_retries_after_inconclusive_probe() {
    let mut h = Host::new(local(), mux("tmux"));
    h.detect_and_correct(&vec![down(), down()]);
    assert_eq!(h.mux.kind(), "tmux");
    assert_eq!(h.mux.server_model(), ServerModel::Shared);
    assert!(!h.detected);
}
