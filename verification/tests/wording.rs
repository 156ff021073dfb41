use xmux::link::HostEvent;
use xmux::model::action::EventEffect;
use xmux::mux::control::{ControlProtocol, TmuxControl};
use xmux::mux::for_binary;
use xmux::mux::vocab::{parse_sessions, window_target};
use xmux::provision::env::Roster;
use xmux::proxy::control_proto::Notif;
use xmux::proxy::decode::KeyDecoder;
use xmux::proxy::dispatch::Action;
use xmux::proxy::input::TermInput;
use xmux::session::{
    address_of, is_local_source, machine_of, source_id, wsl_distro_of, Session,
};
use xmux::shell::{quote, remote_command};

fn sess(name: &str) -> Session {
    Session {
        source: "prod".into(),
        name: name.into(),
        mux: "tmux".into(),
        windows: 2,
        attached: true,
    }
}

#[test]
fn an_effect_reads_as_its_name_and_fields() {
    assert_eq!(
        EventEffect::Refetch { host: "a\"b".into() }.describe(),
        r#"Refetch { host: "a\"b" }"#
    );
    assert_eq!(
        EventEffect::ApplyInventory { host: "prod".into(), sessions: vec![sess("api")] }.describe(),
        r#"ApplyInventory { host: "prod", sessions: [Session { source: "prod", name: "api", mux: "tmux", windows: 2, attached: true }] }"#
    );
    assert_eq!(
        EventEffect::AddDiscoveredSources {
            machine: "prod".into(),
            muxes: vec!["tmux".into(), "zellij".into()],
        }
        .describe(),
        r#"AddDiscoveredSources { machine: "prod", muxes: ["tmux", "zellij"] }"#
    );
    assert_eq!(
        EventEffect::ApplyRoster { roster: Box::new(Roster::default()) }.describe(),
        "ApplyRoster { sources: 0 }"
    );
    assert_eq!(
        EventEffect::DispatchScanned { source: "prod".into(), detected: for_binary("tmux") }
            .describe(),
        r#"DispatchScanned { source: "prod", detected_some: true }"#
    );
    assert_eq!(
        EventEffect::RecordDisplayTty { host: "prod".into(), tty: Some("/dev/pts/3".into()) }
            .describe(),
        r#"RecordDisplayTty { host: "prod", tty: Some("/dev/pts/3") }"#
    );
    assert_eq!(
        EventEffect::RecordDisplayTty { host: "prod".into(), tty: None }.describe(),
        r#"RecordDisplayTty { host: "prod", tty: None }"#
    );
    assert_eq!(
        EventEffect::MachineConnected { machine: "prod".into(), rescan: false }.describe(),
        r#"MachineConnected { machine: "prod", rescan: false }"#
    );
}

#[test]
fn an_effect_reads_as_its_derived_words_would() {
    let s = sess("a b");
    let text = EventEffect::SyncPollSessions { source: "p".into(), sessions: vec![s.clone()] }
        .describe();
    assert_eq!(text, format!("SyncPollSessions {{ source: \"p\", sessions: {:?} }}", [s]));
}

#[test]
fn control_lines_are_these() {
    let c = TmuxControl;
    assert_eq!(c.connect_lines(), vec!["refresh-client -f no-output\n"]);
    assert_eq!(
        c.list_sessions_line(),
        "list-sessions -F '#{session_windows}\t#{session_attached}\t#{session_name}'\n"
    );
    assert_eq!(c.select_window_line("my proj:1"), "select-window -t 'my proj:1'\n");
    assert_eq!(
        c.switch_client_line("/dev/pts/3", "api"),
        "switch-client -c /dev/pts/3 -t api\n"
    );
    assert_eq!(c.refresh_client_line("/dev/pts/3"), "refresh-client -t /dev/pts/3\n");
    assert_eq!(
        c.active_window_line("$1"),
        "display-message -p -t '$1' '#{session_name}\t#{window_index}'\n"
    );
    assert_eq!(
        c.display_clients_line(),
        "list-clients -F '#{client_tty} #{client_flags}'\n"
    );
    assert!(c.list_panes_line("api").starts_with("list-panes -s -t api -F '"));
}

#[test]
fn a_notification_becomes_an_event_of_its_host() {
    let c = TmuxControl;
    let event = |n| c.notif_event("prod", n, "/dev/pts/3", &Some("no server".into()));
    assert_eq!(
        event(Notif::WindowAdd { window: "@4" }),
        Some(HostEvent::Changed { host: "prod".into() })
    );
    assert_eq!(
        event(Notif::SessionWindowChanged { session: "$1", window: "@4" }),
        Some(HostEvent::ActiveWindowChanged {
            host: "prod".into(),
            session_id: "$1".into(),
            window_id: "@4".into(),
        })
    );
    assert_eq!(
        event(Notif::ClientDetached),
        Some(HostEvent::ClientDetached { host: "prod".into(), client: "/dev/pts/3".into() })
    );
    assert_eq!(event(Notif::Pause { pane: "%1" }), None);
}

#[test]
fn an_end_names_its_reason_or_the_last_error() {
    let c = TmuxControl;
    let end = |reason, last: Option<&str>| {
        match c.notif_event("prod", Notif::Exit { reason }, "", &last.map(|s| s.to_string())) {
            Some(HostEvent::Exited { reason, .. }) => reason,
            other => panic!("{other:?}"),
        }
    };
    assert_eq!(end(Some("too far behind"), Some("x")).as_deref(), Some("too far behind"));
    assert_eq!(end(None, Some("no sessions")).as_deref(), Some("no sessions"));
    assert_eq!(end(None, None), None);
}

#[test]
fn an_id_leads_back_to_its_machine() {
    assert_eq!(source_id("prod", "zellij", true), "prod:zellij");
    assert_eq!(source_id("prod", "zellij", false), "prod");
    assert_eq!(machine_of("prod:zellij"), "prod");
    assert_eq!(machine_of("prod"), "prod");
    assert!(is_local_source("local:psmux") && !is_local_source("localhost"));
    assert_eq!(wsl_distro_of("wsl.Ubuntu"), Some("Ubuntu"));
    assert_eq!(wsl_distro_of("Ubuntu"), None);
    assert_eq!(address_of("prod:tmux", "api"), "prod:tmux/api");
}

#[test]
fn a_row_is_read_back_with_its_tabs() {
    let got = parse_sessions("prod", "tmux", "2\t1\ta\tb\n");
    assert_eq!(got, vec![sess("a\tb")]);
    assert_eq!(window_target("a:b", 3), "a:b:3");
    assert_eq!(window_target("a", -1), "a:-1");
}

#[test]
fn a_remote_command_is_quoted_word_by_word() {
    let words: Vec<String> =
        ["tmux", "attach", "-t", "it's $HOME"].iter().map(|s| s.to_string()).collect();
    assert_eq!(remote_command(&words), r"tmux attach -t 'it'\''s $HOME'");
    assert_eq!(quote(""), "''");
    assert_eq!(quote("a-b_c.d/e"), "a-b_c.d/e");
}

#[test]
fn keys_do_not_depend_on_how_bytes_are_cut() {
    let bytes = "aé\x1b[1;5Bz".as_bytes();
    let whole = KeyDecoder::new().feed(bytes);
    for cut in 0..=bytes.len() {
        if cut > 0 && bytes[cut - 1] == 0x1b {
            continue;
        }
        let mut d = KeyDecoder::new();
        let mut parts = d.feed(&bytes[..cut]);
        parts.extend(d.feed(&bytes[cut..]));
        assert_eq!(parts, whole, "cut at {cut}");
    }
}

#[test]
fn input_does_not_depend_on_how_it_is_cut() {
    fn sent(actions: Vec<Action>) -> Vec<u8> {
        actions
            .into_iter()
            .flat_map(|a| match a {
                Action::Forward(b) => b,
                Action::Width(d) => format!("<{d}>").into_bytes(),
                Action::ShowHelp => b"<?>".to_vec(),
                other => panic!("{other:?}"),
            })
            .collect()
    }
    let bytes = b"ab\x07lcd\x07?\x07\x07e";
    let whole = sent(TermInput::new(0x07).feed(bytes));
    assert_eq!(whole, b"ab<1>cd<?>\x07e");
    for cut in 0..=bytes.len() {
        let mut t = TermInput::new(0x07);
        let mut parts = sent(t.feed(&bytes[..cut]));
        parts.extend(sent(t.feed(&bytes[cut..])));
        assert_eq!(parts, whole, "cut at {cut}");
    }
}
