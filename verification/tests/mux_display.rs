use xmux::driver::{DisplayAction, DriverCtx, MuxDriver};
use xmux::model::host::Host;
use xmux::model::hosts::Hosts;
use xmux::model::selection::Selection;
use xmux::model::transport::Transport;
use xmux::mux::psmux::display::{holds_the_live_client, PsmuxDriver};
use xmux::mux::tmux::display::{with_display_tty_record, TmuxDriver};
use xmux::mux::zellij::display::ZellijDriver;
use xmux::mux::{for_binary, Mux};
use xmux::proxy::registry::AttachRegistry;
use xmux::proxy::run::{Attachment, PtyCmd};
use xmux::session::Session;

fn local() -> Transport {
    Transport::Local { socket: None }
}

fn ssh(alias: &str) -> Transport {
    Transport::Ssh { alias: alias.into(), control_path: String::new(), os: "linux".into() }
}

fn words(w: &[&str]) -> Vec<String> {
    w.iter().map(|s| s.to_string()).collect()
}

fn ctx(transport: Transport, bin: &str) -> DriverCtx {
    let mut hosts = Hosts::default();
    hosts.insert(Host::new(transport, for_binary(bin).unwrap()));
    DriverCtx {
        registry: AttachRegistry::new(),
        hosts,
        attach_seq: 0,
        cols: 80,
        rows: 24,
        reported: None,
        actions: Vec::new(),
    }
}

/// A host with a display attachment under its key that shows a session.
fn showing(bin: &str, session: &str, id: u64) -> DriverCtx {
    let mut c = ctx(local(), bin);
    c.hosts.get_mut("local").unwrap().display.set_shows("local", session);
    c.registry.insert("local", Attachment::new(80, 24, id));
    c
}

fn sel(source: &str, session: &str) -> Selection {
    Selection { source: source.into(), session: session.into(), window: None }
}

fn sess(source: &str, name: &str) -> Session {
    Session {
        source: source.into(),
        name: name.into(),
        mux: String::new(),
        windows: 1,
        attached: false,
    }
}

fn shown_on(c: &DriverCtx, key: &str) -> Option<String> {
    c.hosts.get(key).unwrap().display.shows(key).map(|s| s.to_string())
}

fn in_flight(c: &DriverCtx, key: &str) -> bool {
    c.hosts.get(key).unwrap().display.in_flight_contains(key)
}

#[test]
fn the_reattach_guard_holds_only_on_the_live_client_s_own_report() {
    let table = [
        (None, "vfy-ps-b", false),
        (Some("vfy-ps-a"), "vfy-ps-b", false),
        (Some(""), "vfy-ps-b", false),
        (Some("vfy-ps-b"), "vfy-ps-b", true),
        (Some("vfy-ps-B"), "vfy-ps-b", false),
    ];
    for (reported, selected, holds) in table {
        assert_eq!(
            holds_the_live_client(reported, selected),
            holds,
            "reported={reported:?} selected={selected}"
        );
    }
}

#[test]
fn the_reattach_guard_compares_the_session_name_exactly() {
    assert!(!holds_the_live_client(Some("Work"), "work"));
    assert!(holds_the_live_client(Some("work"), "work"));
}

#[test]
fn psmux_driver_show_replaces_the_display_attachment() {
    let mut c = showing("psmux", "old", 99);
    assert!(
        PsmuxDriver.show(&sel("local", "target"), &mut c),
        "a selection with a session has something to show"
    );
    assert_eq!(
        shown_on(&c, "local").as_deref(),
        Some("target"),
        "show records the newly-selected session on the host key"
    );
    assert!(in_flight(&c, "local"), "show requests a fresh per-session reattach");
    assert!(c.registry.contains("local"), "the stale attachment is held meanwhile");
    assert_eq!(
        c.take_actions(),
        vec![DisplayAction::Attach {
            seq: 1,
            id: 1,
            key: "local".into(),
            argv: words(&["psmux", "new-session", "-A", "-s", "target"]),
            cols: 80,
            rows: 24,
        }]
    );
}

#[test]
fn psmux_driver_sync_does_not_warm_and_reaps_only_when_empty() {
    let mut c = showing("psmux", "work", 7);
    PsmuxDriver.sync("local", &[sess("local", "work")], &mut c);
    assert!(
        c.registry.contains("local"),
        "a non-empty psmux inventory does not reap or re-warm the on-demand attach"
    );
    assert!(
        c.hosts.get("local").unwrap().display.in_flight_is_empty(),
        "psmux sync never requests a warm spawn"
    );
    PsmuxDriver.sync("local", &[], &mut c);
    assert!(!c.registry.contains("local"), "an empty psmux inventory reaps the host PTY");
}

#[test]
fn psmux_driver_show_reattaches_even_when_a_client_tty_is_known() {
    let mut c = showing("psmux", "old", 42);
    c.hosts.get_mut("local").unwrap().record_display_tty(Some("/dev/pts/3".into()));
    assert!(PsmuxDriver.show(&sel("local", "target"), &mut c));
    assert!(c.registry.contains("local"), "the stale attachment is held on screen");
    assert!(
        in_flight(&c, "local"),
        "a recorded tty grants no in-place switch: the session change reattaches"
    );
    assert_eq!(
        shown_on(&c, "local").as_deref(),
        Some("target"),
        "the shown session updates to the newly-attached session"
    );
}

#[test]
fn psmux_driver_show_reattaches_when_tty_unknown() {
    let mut c = showing("psmux", "old", 42);
    assert!(PsmuxDriver.show(&sel("local", "target"), &mut c));
    assert!(c.registry.contains("local"), "the stale attachment is held on screen");
    assert!(in_flight(&c, "local"), "no tty: a fresh reattach is requested");
    assert_eq!(shown_on(&c, "local").as_deref(), Some("target"));
}

#[test]
fn psmux_keeps_the_client_that_reports_the_selected_session() {
    let mut c = showing("psmux", "old", 42);
    c.reported = Some("target".into());
    assert!(PsmuxDriver.show(&sel("local", "target"), &mut c));
    assert!(!in_flight(&c, "local"), "the client is already there");
    assert_eq!(shown_on(&c, "local").as_deref(), Some("target"));
}

#[test]
fn remote_shared_attach_records_its_display_tty() {
    let host = Host::new(ssh("jup"), for_binary("tmux").unwrap());
    let argv = words(&["ssh", "jup", "tmux attach -t api"]);
    let out = with_display_tty_record(argv, &host, "jup");
    let last = out.last().unwrap();
    assert!(last.starts_with("tty >"), "records its tty first: {out:?}");
    assert!(last.contains("tmux attach -t api"), "then runs the attach: {out:?}");
}

#[test]
fn local_shared_attach_is_not_prefixed() {
    let host = Host::new(local(), for_binary("tmux").unwrap());
    let argv = words(&["tmux", "attach", "-t", "api"]);
    let out = with_display_tty_record(argv.clone(), &host, "local");
    assert_eq!(out, argv, "local attach is untouched");
}

#[test]
fn tmux_driver_show_warms_the_shared_host_pty_on_first_attach() {
    let mut c = ctx(ssh("jup"), "tmux");
    assert!(TmuxDriver.show(&sel("jup", "api"), &mut c));
    assert_eq!(
        shown_on(&c, "jup").as_deref(),
        Some("api"),
        "the shared host PTY is keyed by host id and shows the first session"
    );
    assert!(in_flight(&c, "jup"), "the first shared attach is requested off-loop");
}

#[test]
fn tmux_driver_sync_warms_the_host_pty_on_the_first_session() {
    let mut c = ctx(local(), "tmux");
    TmuxDriver.sync("local", &[sess("local", "api"), sess("local", "build")], &mut c);
    assert_eq!(
        shown_on(&c, "local").as_deref(),
        Some("api"),
        "shared sync warms the host PTY on the first session"
    );
    assert!(in_flight(&c, "local"), "the warm is requested off-loop");
}

#[test]
fn tmux_driver_sync_reaps_the_host_pty_when_empty() {
    let mut c = showing("tmux", "api", 5);
    TmuxDriver.sync("local", &[], &mut c);
    assert!(!c.registry.contains("local"), "no sessions: the host PTY is reaped");
    assert_eq!(
        shown_on(&c, "local"),
        None,
        "the reaped PTY's bookkeeping is forgotten"
    );
}

#[test]
fn tmux_moves_a_remote_client_in_place() {
    let mut c = ctx(ssh("jup"), "tmux");
    c.hosts.get_mut("jup").unwrap().display.set_shows("jup", "api");
    c.registry.insert("jup", Attachment::new(80, 24, 3));
    assert!(TmuxDriver.show(&sel("jup", "build"), &mut c));
    assert!(!in_flight(&c, "jup"), "the client is moved, not attached anew");
    assert_eq!(shown_on(&c, "jup").as_deref(), Some("build"));
    let actions = c.take_actions();
    assert!(
        matches!(&actions[..], [DisplayAction::Run { argv }]
            if argv.last().unwrap().contains("switch-client -c")),
        "{actions:?}"
    );
    assert!(TmuxDriver.show(&sel("jup", "build"), &mut c));
    assert!(c.take_actions().is_empty(), "what is shown is not shown again");
}

#[test]
fn nothing_is_shown_without_a_session_or_a_host() {
    let mut c = ctx(local(), "tmux");
    assert!(!TmuxDriver.show(&sel("local", ""), &mut c));
    assert!(!TmuxDriver.show(&sel("nowhere", "api"), &mut c));
    assert!(c.take_actions().is_empty());
}

#[test]
fn a_followed_switch_warms_the_client_the_mux_already_moved() {
    let mut c = showing("zellij", "vfy-ze-b", 42);
    assert!(
        ZellijDriver.show(&sel("local", "vfy-ze-b"), &mut c),
        "a selection with a session has something to show"
    );
    assert!(
        !in_flight(&c, "local"),
        "the client is already there, so nothing is reattached"
    );
    assert_eq!(
        c.registry.get("local").map(|a| a.id()),
        Some(42),
        "the same client stays on screen: it was never respawned"
    );
    assert_eq!(shown_on(&c, "local").as_deref(), Some("vfy-ze-b"));
}

#[test]
fn a_nav_driven_switch_away_still_reattaches() {
    let mut c = showing("zellij", "vfy-ze-b", 42);
    assert!(ZellijDriver.show(&sel("local", "vfy-ze-a"), &mut c));
    assert!(
        in_flight(&c, "local"),
        "another session is reached by a fresh attach and nothing else"
    );
    assert_eq!(
        shown_on(&c, "local").as_deref(),
        Some("vfy-ze-a"),
        "the newly-selected session is what the host key now shows"
    );
    assert_eq!(
        c.registry.get("local").map(|a| a.id()),
        Some(42),
        "the stale attachment is held until the fresh one is ready"
    );
}

#[test]
fn a_driver_drives_its_own_kind_and_reaches_its_display() {
    for bin in ["tmux", "psmux", "zellij"] {
        let mux = for_binary(bin).unwrap();
        assert_eq!(mux.driver().unwrap().kind(), mux.kind());
    }
    assert!(for_binary("abduco").unwrap().driver().is_none());
    let mut c = showing("tmux", "api", 5);
    TmuxDriver.input(&sel("local", "api"), b"ls".to_vec(), &mut c);
    assert_eq!(
        c.registry.get("local").unwrap().outbox,
        vec![PtyCmd::Input(b"ls".to_vec())]
    );
    assert!(TmuxDriver.grid(&sel("local", "api"), &c).is_some());
    assert!(TmuxDriver.grid(&sel("elsewhere", "api"), &c).is_none());
}
