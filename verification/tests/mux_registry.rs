use xmux::link::HostEvent;
use xmux::model::plan::DeathSignal;
use xmux::model::server_model::ServerModel;
use xmux::model::source::RunError;
use xmux::mux::control::TmuxControl;
use xmux::mux::psmux::Psmux;
use xmux::mux::tmux::Tmux;
use xmux::mux::vocab;
use xmux::mux::{
    detect_backend, detect_from, for_binary, for_kind, installed_muxes, is_locked, is_no_sessions,
    is_recognized, probe_answers, probe_plan, reason_is_no_sessions, server_socket_for,
    supported_muxes, AnyMux, EventSource, Listed, Mux,
};
use xmux::model::transport::Transport;

fn argv(parts: &[&str]) -> Vec<String> {
    parts.iter().map(|s| s.to_string()).collect()
}

fn tmux() -> Tmux {
    Tmux { bin: "tmux".into() }
}

fn psmux() -> Psmux {
    Psmux { bin: "psmux".into() }
}

#[test]
fn mod_tmux_is_shared_and_named() {
    let m = tmux();
    assert_eq!(m.kind(), "tmux");
    assert_eq!(m.server_model(), ServerModel::Shared);
}

#[test]
fn mod_tmux_is_object_safe() {
    let m: Box<dyn Mux> = Box::new(tmux());
    assert_eq!(m.bin(), "tmux");
}

#[test]
fn mod_tmux_attach_plan_is_plain_attach() {
    let m = tmux();
    assert_eq!(m.attach_plan("api"), argv(&["tmux", "attach", "-t", "api"]));
}

#[test]
fn mod_tmux_control_attach_and_event_and_death() {
    let m = tmux();
    assert_eq!(m.control_argv(), Some(argv(&["tmux", "-CC", "attach"])));
    assert_eq!(m.event_source(), EventSource::Control);
    assert_eq!(m.death_signal(), DeathSignal::ControlNotice);
}

#[test]
fn tmux_session_plans_match_mux_builders() {
    let m = tmux();
    assert_eq!(m.new_session_plan("dev"), vocab::new_session("tmux", "dev"));
    assert_eq!(m.new_session_plan(""), vocab::new_session("tmux", ""));
    assert!(
        m.assigns_new_session_name(),
        "new-session auto-names an empty request and -P -F prints the result"
    );
}

#[test]
fn bare_tmux_compatible_mux_gets_command_plans_for_free() {
    let m = Psmux { bin: "tmux".into() };
    assert_eq!(m.new_session_plan("dev"), vocab::new_session("tmux", "dev"));
    assert_eq!(m.list_sessions_plan(), vocab::list_sessions("tmux"));
    assert!(m.switch_in_place("h", "s", None).is_none());
    assert!(m.control_protocol().is_none());
}

#[test]
fn mux_clone_box_preserves_identity_and_binary() {
    let p: AnyMux = for_binary("psmux").unwrap().clone_box();
    assert_eq!(p.kind(), "psmux");
    assert_eq!(p.bin(), "psmux");
    let t: AnyMux = for_kind("tmux", "custom").unwrap().clone_box();
    assert_eq!(t.kind(), "tmux");
    assert_eq!(t.bin(), "custom");
}

#[test]
fn mod_psmux_is_per_session_and_named() {
    let m = psmux();
    assert_eq!(m.kind(), "psmux");
    assert_eq!(m.server_model(), ServerModel::PerSession);
}

#[test]
fn mod_psmux_is_object_safe() {
    let m: Box<dyn Mux> = Box::new(psmux());
    assert_eq!(m.bin(), "psmux");
}

#[test]
fn mod_psmux_polls_and_dies_on_registry_stat() {
    let m = psmux();
    assert_eq!(m.control_argv(), None);
    assert_eq!(m.event_source(), EventSource::Poll { interval_ms: 1500 });
    assert_eq!(m.death_signal(), DeathSignal::PathStat { dir_is_psmux_registry: true });
}

#[test]
fn psmux_attach_plan_routes_to_the_per_session_server() {
    assert_eq!(
        psmux().attach_plan("work"),
        argv(&["psmux", "new-session", "-A", "-s", "work"])
    );
}

#[test]
fn psmux_session_plans_use_the_psmux_binary() {
    let m = psmux();
    assert_eq!(m.new_session_plan("dev"), vocab::new_session("psmux", "dev"));
    assert_eq!(m.new_session_plan(""), vocab::new_session("psmux", ""));
    assert!(
        m.assigns_new_session_name(),
        "psmux runs tmux's new-session plan, prints included"
    );
}

#[test]
fn mod_psmux_behavior_is_decoupled_from_invoked_binary() {
    let m = Psmux { bin: "tmux".into() };
    assert_eq!(m.attach_plan("api"), argv(&["tmux", "new-session", "-A", "-s", "api"]));
    assert_eq!(m.server_model(), ServerModel::PerSession);
    assert_eq!(m.kind(), "psmux");
}

#[test]
fn mod_tmux_behavior_is_decoupled_from_invoked_binary() {
    let m = Tmux { bin: "psmux".into() };
    assert_eq!(m.attach_plan("api"), argv(&["psmux", "attach", "-t", "api"]));
    assert_eq!(m.server_model(), ServerModel::Shared);
    assert_eq!(m.kind(), "tmux");
}

/// What a machine answers that has exactly `present`, with `help_marker` in the place of
/// what a present binary names itself as.
struct MachineWith {
    present: Vec<&'static str>,
    help_marker: Option<&'static str>,
}

impl MachineWith {
    fn new(present: &[&'static str]) -> Self {
        MachineWith { present: present.to_vec(), help_marker: None }
    }

    fn run(&self, name: &str, args: &[String]) -> Result<Vec<u8>, RunError> {
        if !self.present.contains(&name) {
            return Err(RunError::Other("no such binary".into()));
        }
        if args.iter().any(|a| a == "-V") {
            return Ok(format!("{name} 1.2.3").into_bytes());
        }
        let says = self.help_marker.unwrap_or(name);
        if says == "tmux" {
            return Err(RunError::Other("usage: tmux [command]".into()));
        }
        Ok(format!("{says} - a terminal workspace").into_bytes())
    }

    fn installed(&self) -> Vec<String> {
        let t = Transport::Local { socket: None };
        let mut replies = Vec::new();
        for name in supported_muxes() {
            let mux = for_binary(name).unwrap();
            let outs: Vec<Result<Vec<u8>, RunError>> = probe_plan(&t, &mux)
                .iter()
                .map(|(bin, args)| self.run(bin, args))
                .collect();
            replies.push(probe_answers(&outs));
        }
        installed_muxes(&replies)
    }
}

#[test]
fn discovery_only_looks_for_muxes_xmux_can_drive() {
    let names = supported_muxes();
    assert_eq!(names, vec!["tmux", "abduco", "psmux", "zellij", "screen"]);
    for name in names {
        assert_eq!(for_binary(name).unwrap().kind(), name, "{name} must be drivable");
    }
}

#[test]
fn a_machine_offers_every_supported_mux_it_actually_has() {
    assert_eq!(MachineWith::new(&["tmux", "zellij"]).installed(), vec!["tmux", "zellij"]);
}

#[test]
fn where_psmux_answers_a_tmux_alias_is_never_tmux() {
    let alias = MachineWith { present: vec!["tmux", "psmux"], help_marker: Some("psmux") };
    assert_eq!(alias.installed(), vec!["psmux"]);
    assert_eq!(MachineWith::new(&["tmux", "zellij"]).installed(), vec!["tmux", "zellij"]);
}

#[test]
fn a_machine_serving_tmux_and_psmux_is_offered_both() {
    assert_eq!(MachineWith::new(&["tmux", "psmux"]).installed(), vec!["tmux", "psmux"]);
}

#[test]
fn a_machine_with_no_mux_installed_discovers_none() {
    assert!(MachineWith::new(&[]).installed().is_empty());
}

#[test]
fn a_binary_that_answers_as_another_mux_is_not_that_mux() {
    let runner = MachineWith { present: vec!["tmux"], help_marker: Some("psmux") };
    assert!(runner.installed().is_empty());
}

#[test]
fn a_psmux_whose_help_mentions_tmux_is_still_discovered() {
    let runner = MachineWith {
        present: vec!["psmux"],
        help_marker: Some("psmux v3.3.8 - terminal multiplexer for windows (tmux alternative)"),
    };
    assert_eq!(runner.installed(), vec!["psmux"]);
}

fn listed(source: &str, remote: bool) -> Listed {
    Listed { source: source.into(), remote, registry: Vec::new() }
}

#[test]
fn a_hung_listing_ends_the_sweep_as_an_error_not_a_freeze() {
    let m = for_binary("tmux").unwrap();
    let reply = Err(RunError::timed_out("list-sessions", 7));
    match m.poll_once("local", &listed("local", false), reply) {
        HostEvent::Sessions { sessions, err, .. } => {
            assert!(sessions.is_empty());
            let err = err.unwrap_or_default();
            assert!(
                err.contains("list-sessions") && err.contains("did not answer"),
                "the error names what went quiet: {err:?}"
            );
        }
        _ => panic!("want Sessions"),
    }
}

/// The answers of a binary to its probes, `None` where one fails.
struct Probes {
    help: Option<&'static str>,
    version: Option<&'static str>,
    low_version: Option<&'static str>,
}

fn probes(help: Option<&'static str>, version: Option<&'static str>) -> Probes {
    Probes { help, version, low_version: None }
}

fn detect(bin: &str, p: Probes) -> Option<AnyMux> {
    let mux = for_binary(bin).unwrap();
    let replies: Vec<Result<Vec<u8>, RunError>> = mux
        .identity_probes()
        .iter()
        .map(|words| {
            let said = if words.iter().any(|a| a.contains("-V")) {
                p.version
            } else if words.iter().any(|a| a.contains("-v")) {
                p.low_version
            } else {
                p.help
            };
            said.map(|s| s.as_bytes().to_vec()).ok_or_else(|| RunError::Other("down".into()))
        })
        .collect();
    detect_backend(bin, &replies)
}

#[test]
fn mod_detect_backend_classifies_psmux_by_help_marker() {
    let got = detect("tmux", probes(Some("usage: PsMuX help"), Some("tmux 3.3.6"))).unwrap();
    assert_eq!(got.kind(), "psmux");
    assert_eq!(got.server_model(), ServerModel::PerSession);
    assert_eq!(got.attach_plan("api"), argv(&["tmux", "new-session", "-A", "-s", "api"]));
}

#[test]
fn detect_backend_classifies_a_psmux_binary_as_psmux_despite_tmux_mentions() {
    let got = detect(
        "psmux",
        probes(
            Some("psmux v3.3.8 - Terminal multiplexer for Windows (tmux alternative)"),
            Some("tmux 3.3.8"),
        ),
    )
    .unwrap();
    assert_eq!(got.kind(), "psmux");
    assert_eq!(got.server_model(), ServerModel::PerSession);
    assert_eq!(got.attach_plan("api"), argv(&["psmux", "new-session", "-A", "-s", "api"]));
}

#[test]
fn detect_backend_classifies_zellij_by_help_marker() {
    let got = detect(
        "zellij",
        probes(
            Some("A terminal workspace with batteries included\nUsage: zellij [OPTIONS]"),
            Some("tmux 3.5a"),
        ),
    )
    .unwrap();
    assert_eq!(got.kind(), "zellij");
    assert_eq!(got.server_model(), ServerModel::PerSession);
    assert_eq!(got.attach_plan("api"), argv(&["zellij", "attach", "api"]));
}

#[test]
fn mod_detect_backend_classifies_real_tmux_via_version_when_help_errors() {
    let got = detect("tmux", probes(None, Some("tmux 3.5a"))).unwrap();
    assert_eq!(got.kind(), "tmux");
    assert_eq!(got.server_model(), ServerModel::Shared);
}

#[test]
fn mod_detect_backend_classifies_tmux_when_help_lacks_marker() {
    let got = detect("tmux", probes(Some("usage: tmux commands"), Some("tmux 3.5a"))).unwrap();
    assert_eq!(got.kind(), "tmux");
    assert_eq!(got.server_model(), ServerModel::Shared);
}

#[test]
fn detect_backend_classifies_abduco_by_low_version_marker() {
    let p = Probes { help: None, version: None, low_version: Some("abduco-0.6 © 2013-2018") };
    let got = detect("abduco", p).unwrap();
    assert_eq!(got.kind(), "abduco");
    assert_eq!(got.server_model(), ServerModel::PerSession);
    assert_eq!(got.attach_plan("api"), argv(&["abduco", "-a", "api"]));
}

#[test]
fn detect_backend_does_not_classify_tmux_as_abduco() {
    let got = detect("tmux", probes(None, Some("tmux 3.5a"))).unwrap();
    assert_eq!(got.kind(), "tmux");
}

#[test]
fn mod_detect_backend_both_probes_fail_is_inconclusive() {
    assert!(detect("tmux", probes(None, None)).is_none());
}

#[test]
fn detect_backend_classifies_screen_via_dash_v() {
    let p = Probes {
        help: Some("Must be connected to a terminal."),
        version: None,
        low_version: Some("Screen version 4.09.00 (GNU) 30-Jan-22"),
    };
    let got = detect("screen", p).unwrap();
    assert_eq!(got.kind(), "screen");
    assert_eq!(got.server_model(), ServerModel::PerSession);
}

#[test]
fn answers_in_lower_case_decide() {
    let got = detect_from("tmux", &[Some("usage: psmux help".into()), None]).unwrap();
    assert_eq!(got.kind(), "psmux");
    assert_eq!(got.bin(), "tmux");
    assert!(detect_from("tmux", &[None, None]).is_none());
}

#[test]
fn for_binary_resolves_registry_names_and_refuses_others() {
    assert_eq!(for_binary("psmux").unwrap().kind(), "psmux");
    assert_eq!(for_binary("psmux").unwrap().server_model(), ServerModel::PerSession);
    assert_eq!(for_binary("tmux").unwrap().kind(), "tmux");
    assert_eq!(for_binary("tmux").unwrap().server_model(), ServerModel::Shared);
    assert!(for_binary("").is_none());
    assert!(for_binary("some-fork-of-tmux").is_none());
}

#[test]
fn mod_for_kind_preserves_identity_and_invoked_binary() {
    let p = for_kind("psmux", "tmux").unwrap();
    assert_eq!(p.kind(), "psmux");
    assert_eq!(p.bin(), "tmux");
    assert_eq!(p.event_source(), EventSource::Poll { interval_ms: 1500 });

    let t = for_kind("tmux", "psmux").unwrap();
    assert_eq!(t.kind(), "tmux");
    assert_eq!(t.bin(), "psmux");
    assert_eq!(t.event_source(), EventSource::Control);
}

#[test]
fn an_unknown_name_or_kind_decodes_to_nothing() {
    assert!(for_binary("some-fork").is_none());
    assert!(for_kind("nope", "tcustom").is_none());
}

#[test]
fn zellij_resolves_by_binary_name_and_by_kind() {
    assert_eq!(for_binary("zellij").unwrap().kind(), "zellij");
    assert_eq!(for_kind("zellij", "zellij-nightly").unwrap().kind(), "zellij");
    assert_eq!(for_kind("zellij", "zellij-nightly").unwrap().bin(), "zellij-nightly");
}

#[test]
fn is_recognized_covers_tmux_and_known_muxes() {
    assert!(is_recognized("tmux"));
    assert!(is_recognized("abduco"));
    assert!(is_recognized("psmux"));
    assert!(is_recognized("zellij"));
    assert!(is_recognized("screen"));
    assert!(!is_recognized("byobu"));
    assert!(!is_recognized(""));
}

#[test]
fn screen_resolves_by_binary_name_and_by_kind() {
    assert_eq!(for_binary("screen").unwrap().kind(), "screen");
    assert_eq!(for_kind("screen", "screen-custom").unwrap().kind(), "screen");
    assert_eq!(for_kind("screen", "screen-custom").unwrap().bin(), "screen-custom");
}

#[test]
fn is_locked_matches_only_the_ssh_auth_failure_signature() {
    assert!(is_locked("pwtest@127.0.0.1: Permission denied (publickey,password)."));
    assert!(is_locked(
        "command failed (exit 255): pwtest@127.0.0.1: Permission denied (publickey)."
    ));
    assert!(is_locked("Permission denied (publickey,password,keyboard-interactive)."));
    assert!(!is_locked("ssh: connect to host 192.0.2.1 port 22: Connection timed out"));
    assert!(!is_locked("Host key verification failed."));
    assert!(!is_locked("tmux: open /tmp/tmux-0/default: Permission denied"));
    assert!(!is_locked("no server running on /tmp/tmux-1000/default"));
}

#[test]
fn reason_is_no_sessions_matches_line_prefix_markers() {
    assert!(reason_is_no_sessions("no sessions"));
    assert!(reason_is_no_sessions("no server running on /tmp/tmux-1000/default"));
    assert!(!reason_is_no_sessions("connection timed out"));
    assert!(!reason_is_no_sessions("you have no sessions pending"));
}

#[test]
fn a_reason_is_read_without_case() {
    assert!(reason_is_no_sessions("NO SESSIONS"));
}

#[test]
fn is_no_sessions_classification() {
    assert!(is_no_sessions(&RunError::Exit {
        code: 1,
        stderr: "no server running on /tmp/tmux-1000/default".into(),
    }));
    assert!(is_no_sessions(&RunError::Exit { code: 1, stderr: "no sessions".into() }));
    assert!(!is_no_sessions(&RunError::Exit { code: 1, stderr: "permission denied".into() }));
    assert!(!is_no_sessions(&RunError::Exit {
        code: 1,
        stderr: "Last login...\nYou have no sessions pending.\n".into(),
    }));
    assert!(!is_no_sessions(&RunError::Exit {
        code: 127,
        stderr: "tmux: command not found\nno sessions\n".into(),
    }));
    assert!(!is_no_sessions(&RunError::Exit {
        code: 255,
        stderr: "ssh: connect failed\n".into(),
    }));
    assert!(!is_no_sessions(&RunError::Other(
        "exec: \"tmux\": executable file not found".into()
    )));
}

#[test]
fn poll_once_surfaces_enumeration_error_on_sessions_event() {
    let m = for_binary("psmux").unwrap();
    let reply = Err(RunError::Other("ssh: connect to host down".into()));
    let ev = m.poll_once("down-host", &listed("down-host", true), reply);
    let HostEvent::Sessions { source, sessions, err } = ev else { unreachable!() };
    assert_eq!(source, "down-host");
    assert!(sessions.is_empty(), "a failed enumeration yields no sessions");
    assert!(err.is_some(), "the error must surface on the Sessions event");
}

#[test]
fn poll_once_emits_sessions_on_success() {
    let m = for_binary("psmux").unwrap();
    let reply = Ok(b"1\t1\t1700000000\twork\n".to_vec());
    match m.poll_once("host", &listed("host", true), reply) {
        HostEvent::Sessions { source, sessions, err } => {
            assert_eq!(source, "host");
            assert_eq!(sessions.len(), 1);
            assert!(err.is_none());
        }
        _ => panic!("first event must be Sessions"),
    }
}

#[test]
fn a_socket_reaches_only_a_mux_that_takes_one() {
    let sock = || Some("/tmp/psmux/default".to_string());
    assert_eq!(server_socket_for("tmux", sock()), sock());
    assert_eq!(server_socket_for("psmux", sock()), sock());
    assert_eq!(server_socket_for("zellij", sock()), None);
    assert_eq!(server_socket_for("abduco", sock()), None);
    assert_eq!(server_socket_for("mux-of-the-future", sock()), None);
    assert_eq!(server_socket_for("tmux", None), None);
    assert_eq!(server_socket_for("zellij", None), None);
}

#[test]
fn only_tmux_speaks_the_control_protocol() {
    assert!(tmux().control_protocol().is_some());
    assert!(psmux().control_protocol().is_none());
    let _c: TmuxControl = tmux().control_protocol().unwrap();
}
