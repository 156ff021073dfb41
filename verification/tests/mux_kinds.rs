use xmux::link::HostEvent;
use xmux::model::plan::DeathSignal;
use xmux::model::server_model::ServerModel;
use xmux::model::source::RunError;
use xmux::mux::abduco::{Abduco, ABDUCO_POLL_MS};
use xmux::mux::control::{ControlProtocol, TmuxControl};
use xmux::mux::psmux::registry::{merge_psmux_sessions, psmux_session_names};
use xmux::mux::screen::vocab as screen_vocab;
use xmux::mux::screen::{Screen, SCREEN_POLL_MS};
use xmux::mux::tmux::{record_prefix, Tmux};
use xmux::mux::vocab::{
    attach, is_mux_var, list_sessions, mux_env_keys_to_clear, new_session, parse_sessions,
    quote_target, window_target, SESSION_FORMAT,
};
use xmux::mux::zellij::parse as zellij_parse;
use xmux::mux::zellij::{Zellij, ZELLIJ_POLL_MS};
use xmux::mux::{for_binary, EventSource, Listed, Mux, SwitchPlan};
use xmux::session::Session;

fn argv(parts: &[&str]) -> Vec<String> {
    parts.iter().map(|s| s.to_string()).collect()
}

fn jup() -> Listed {
    Listed { source: "jup".into(), remote: true, registry: Vec::new() }
}

fn enumerate(bin: &str, reply: Result<&str, RunError>) -> Result<Vec<Session>, RunError> {
    for_binary(bin).unwrap().enumerate(&jup(), reply.map(|s| s.as_bytes().to_vec()))
}

fn names(v: &[Session]) -> Vec<&str> {
    v.iter().map(|s| s.name.as_str()).collect()
}

// abduco

fn abduco() -> Abduco {
    Abduco { bin: "abduco".into() }
}

#[test]
fn abduco_is_per_session_polled_and_dies_by_eof() {
    let m = abduco();
    assert_eq!(m.kind(), "abduco");
    assert_eq!(m.server_model(), ServerModel::PerSession);
    assert_eq!(m.death_signal(), DeathSignal::Eof);
    assert!(!m.takes_server_socket(), "abduco has no -S flag");
    assert_eq!(m.event_source(), EventSource::Poll { interval_ms: ABDUCO_POLL_MS });
    assert!(
        m.control_argv().is_none() && m.control_protocol().is_none(),
        "abduco has no control-mode channel"
    );
    assert!(
        m.switch_in_place("jup", "api", Some("/dev/pts/3")).is_none(),
        "no client can be named from outside its session, so no in-place switch"
    );
    let _object_safe: Box<dyn Mux> = Box::new(abduco());
}

#[test]
fn attach_is_plain_attach() {
    assert_eq!(abduco().attach_plan("api"), argv(&["abduco", "-a", "api"]));
}

#[test]
fn creating_a_session_is_a_detached_create() {
    assert!(!abduco().assigns_new_session_name());
    assert_eq!(abduco().new_session_plan("dev"), argv(&["abduco", "-n", "dev"]));
    assert_eq!(abduco().new_session_plan(""), argv(&["abduco", "-n", ""]));
}

#[test]
fn the_listed_plan_is_the_bare_binary() {
    assert_eq!(abduco().list_sessions_plan(), vec!["abduco"]);
}

const ABDUCO_LISTING: &str = "Active sessions (on host localhost)\n\
* Tue\t2026-08-25 23:04:28\t168265\tsess1\n\
\u{20} Tue\t2026-08-25 23:03:45\t168097\tbuild\n";

#[test]
fn enumerate_reads_the_listing() {
    let got = enumerate("abduco", Ok(ABDUCO_LISTING)).unwrap();
    assert_eq!(names(&got), vec!["sess1", "build"]);
    assert!(got[0].attached, "the * marker means a client is attached");
    assert!(!got[1].attached, "the space marker means unattached");
    assert!(got.iter().all(|s| s.source == "jup" && s.mux == "abduco"));
    assert_eq!(got[0].windows, 1);
}

#[test]
fn enumerate_skips_banners_and_short_lines() {
    let out = "some login banner without tabs\n\n  Tue\t2026-08-25 23:03:45\t168097\tbuild\nbad line\n";
    let got = enumerate("abduco", Ok(out)).unwrap();
    assert_eq!(names(&got), vec!["build"]);
}

#[test]
fn enumerate_rejoins_a_name_with_a_tab() {
    let out = "  Tue\t2026-08-25 23:03:45\t168097\tproj\tname\n";
    let got = enumerate("abduco", Ok(out)).unwrap();
    assert_eq!(got.len(), 1);
    assert_eq!(got[0].name, "proj\tname");
}

#[test]
fn an_idle_abduco_is_empty_and_an_unreachable_host_is_an_error() {
    assert!(enumerate("abduco", Ok("Active sessions (on host localhost)\n")).unwrap().is_empty());
    let down = RunError::Other("ssh: connect to host jup port 22: Connection timed out".into());
    assert!(enumerate("abduco", Err(down)).is_err());
    let missing = RunError::Exit { stderr: "abduco: command not found".into(), code: 127 };
    assert!(enumerate("abduco", Err(missing)).is_err());
}

#[test]
fn poll_once_resolves_each_session_without_a_per_session_query() {
    let m = for_binary("abduco").unwrap();
    let known = Listed { source: "local".into(), remote: false, registry: Vec::new() };
    match m.poll_once("local", &known, Ok(ABDUCO_LISTING.as_bytes().to_vec())) {
        HostEvent::Sessions { sessions, err, .. } => {
            assert_eq!(sessions.len(), 2);
            assert!(err.is_none());
        }
        _ => panic!("want Sessions first"),
    }
}

// screen

fn screen() -> Screen {
    Screen { bin: "screen".into() }
}

#[test]
fn screen_is_polled_dies_by_eof_and_takes_no_socket() {
    let m = screen();
    assert_eq!(m.kind(), "screen");
    assert_eq!(m.server_model(), ServerModel::PerSession);
    assert_eq!(m.death_signal(), DeathSignal::Eof);
    assert_eq!(m.event_source(), EventSource::Poll { interval_ms: SCREEN_POLL_MS });
    assert!(!m.takes_server_socket(), "screen's -S is a session name, not a socket");
    assert!(m.control_argv().is_none() && m.control_protocol().is_none());
    assert!(m.switch_in_place("jup", "api", Some("/dev/pts/3")).is_none());
    let _object_safe: Box<dyn Mux> = Box::new(screen());
}

#[test]
fn mod_attach_is_multi_display_dash_x() {
    assert_eq!(screen().attach_plan("api"), argv(&["screen", "-x", "api"]));
}

#[test]
fn new_session_is_a_silent_detached_creation() {
    assert_eq!(screen().new_session_plan("dev"), argv(&["screen", "-dmS", "dev"]));
}

#[test]
fn selecting_a_window_uses_s_select() {
    assert_eq!(
        screen().select_window_plan(&window_target("dev", 2)),
        argv(&["screen", "-S", "dev", "-X", "select", "2"])
    );
}

#[test]
fn the_window_query_is_s_q_windows() {
    assert_eq!(
        screen().list_panes_plan("api"),
        argv(&["screen", "-S", "api", "-Q", "windows"])
    );
}

#[test]
fn enumerate_reads_the_ls_listing() {
    let out = "There are screens on:\n\t123.work\t(08/25/2026 10:00:00 PM)\t(Detached)\n\t124.dev\t(08/25/2026 10:00:01 PM)\t(Attached)\n";
    let got = enumerate("screen", Ok(out)).unwrap();
    assert_eq!(names(&got), vec!["work", "dev"]);
    assert!(got.iter().all(|s| s.source == "jup" && s.mux == "screen"));
}

#[test]
fn an_idle_screen_is_empty_and_an_unreachable_host_is_an_error() {
    let idle = RunError::Exit { stderr: String::new(), code: 1 };
    assert!(enumerate("screen", Err(idle)).unwrap().is_empty());
    let down = RunError::Other("ssh: connect to host jup port 22: Connection timed out".into());
    assert!(enumerate("screen", Err(down)).is_err());
    let missing = RunError::Exit { stderr: "screen: command not found".into(), code: 127 };
    assert!(enumerate("screen", Err(missing)).is_err());
}

#[test]
fn list_sessions_is_dash_ls() {
    assert_eq!(screen_vocab::list_sessions("screen"), argv(&["screen", "-ls"]));
}

#[test]
fn vocab_attach_is_multi_display_dash_x() {
    assert_eq!(screen_vocab::attach("screen", "api"), argv(&["screen", "-x", "api"]));
}

#[test]
fn new_session_is_detached_creation() {
    assert_eq!(screen_vocab::new_session("screen", "dev"), argv(&["screen", "-dmS", "dev"]));
}

#[test]
fn new_session_empty_is_bare_creation() {
    assert_eq!(screen_vocab::new_session("screen", ""), argv(&["screen", "-dmS"]));
}

#[test]
fn select_window_sends_select_via_dash_x() {
    assert_eq!(
        screen_vocab::select_window("screen", "dev", 2),
        argv(&["screen", "-S", "dev", "-X", "select", "2"])
    );
}

#[test]
fn parse_sessions_reads_the_ls_listing() {
    let out = "There are screens on:\r\n\
\t2589.parsetest\t(08/25/2026 11:05:05 PM)\t(Detached)\r\n\
\t4190.alpha\t(08/25/2026 11:00:07 PM)\t(Attached)\r\n\
3 Sockets in /run/screen/S-hrlee.\r\n";
    let got = screen_vocab::parse_sessions("jup", "screen", out);
    assert_eq!(got.len(), 2);
    assert_eq!(got[0].name, "parsetest");
    assert!(!got[0].attached);
    assert_eq!(got[1].name, "alpha");
    assert!(got[1].attached);
    assert!(got.iter().all(|s| s.source == "jup" && s.mux == "screen"));
}

#[test]
fn parse_sessions_skips_banners_and_footers() {
    let out = "There is a screen on:\n\
\t1.work\t(08/25/2026 11:00:00 AM)\t(Detached)\n\
1 Socket in /run/screen/S-hrlee.\n";
    let got = screen_vocab::parse_sessions("local", "screen", out);
    assert_eq!(got.len(), 1);
    assert_eq!(got[0].name, "work");
}

#[test]
fn parse_sessions_name_keeps_dots_and_spaces() {
    let out = "There are screens on:\n\t1.foo.bar\t(08/25/2026 11:00:00 AM)\t(Detached)\n\t2.my sess\t(08/25/2026 11:00:00 AM)\t(Detached)\n";
    let got = screen_vocab::parse_sessions("local", "screen", out);
    assert_eq!(got[0].name, "foo.bar");
    assert_eq!(got[1].name, "my sess");
}

#[test]
fn parse_sessions_empty() {
    assert!(screen_vocab::parse_sessions("local", "screen", "").is_empty());
}

// tmux

#[test]
fn mod_size_line_uses_x_form() {
    assert_eq!(TmuxControl.size_line(80, 24), "refresh-client -C 80x24\n");
}

#[test]
fn tmux_switch_in_place_returns_a_remote_shell_plan_reading_its_recorded_tty() {
    let SwitchPlan::Shell(cmd) = Tmux { bin: "tmux".into() }
        .switch_in_place("jup", "test2", None)
        .expect("a shared mux switches in place via its recorded tty")
    else {
        panic!("tmux switches through the host shell, not an exec plan");
    };
    assert!(
        cmd.contains("cat ") && cmd.contains("jup"),
        "the switch READS the same per-host file: {cmd}"
    );
    assert!(
        cmd.contains("switch-client -c") && cmd.contains("test2"),
        "and moves that client to the session: {cmd}"
    );
    assert!(
        cmd.contains("[ -n"),
        "guarded so an empty file never runs switch-client -c \"\": {cmd}"
    );
}

#[test]
fn record_prefix_records_the_per_host_tty_file_and_sanitizes_the_key() {
    let prefix = record_prefix("jup");
    assert!(prefix.contains("tty >"), "writes $(tty) to a file: {prefix}");
    assert!(prefix.contains("jup"), "the file is keyed per host: {prefix}");
    assert!(
        prefix.trim_end().ends_with(';'),
        "a prefix the attach argv appends `exec …` to: {prefix}"
    );
    let danger = record_prefix("a; rm -rf /");
    assert!(!danger.contains("rm -rf /"), "the key is sanitized, not injected: {danger}");
    assert_eq!(prefix, "tty >/tmp/.xmux-cli-jup 2>/dev/null; ");
}

// the shared vocabulary

#[test]
fn session_format_template() {
    assert_eq!(
        SESSION_FORMAT,
        "#{session_windows}\t#{session_attached}\t#{session_name}"
    );
}

#[test]
fn list_sessions_argv() {
    assert_eq!(
        list_sessions("tmux"),
        argv(&["tmux", "list-sessions", "-F", SESSION_FORMAT])
    );
}

#[test]
fn is_mux_var_matches_exactly_tmux_and_psmux_markers() {
    assert!(is_mux_var("TMUX"));
    assert!(is_mux_var("TMUX_PANE"));
    assert!(is_mux_var("PSMUX_SESSION"));
    assert!(!is_mux_var("TMUXP_LAYOUT"));
    assert!(!is_mux_var("TMUX_TMPDIR"));
    assert!(!is_mux_var("PATH"));
}

#[test]
fn mux_env_keys_to_clear_selects_only_mux_vars() {
    let out = mux_env_keys_to_clear(argv(&[
        "TMUX",
        "PATH",
        "PSMUX_SESSION",
        "TMUX_PANE",
        "TMUX_TMPDIR",
    ]));
    assert_eq!(out, vec!["TMUX", "PSMUX_SESSION", "TMUX_PANE"]);
}

#[test]
fn quote_target_bare_and_quoted() {
    assert_eq!(quote_target("0"), "0");
    assert_eq!(quote_target("editor:1"), "editor:1");
    assert_eq!(quote_target("api-2"), "api-2");
    assert_eq!(quote_target("my proj"), "'my proj'");
    assert_eq!(quote_target("a'b"), "'a'\\''b'");
    assert_eq!(quote_target(""), "''");
}

#[test]
fn attach_argv() {
    assert_eq!(attach("tmux", "main"), argv(&["tmux", "attach", "-t", "main"]));
}

#[test]
fn new_session_named_argv() {
    assert_eq!(
        new_session("tmux", "dev"),
        argv(&[
            "tmux",
            "new-session",
            "-A",
            "-d",
            "-P",
            "-F",
            "#{session_name}",
            "-s",
            "dev"
        ])
    );
}

#[test]
fn new_session_auto_argv() {
    assert_eq!(
        new_session("tmux", ""),
        argv(&["tmux", "new-session", "-A", "-d", "-P", "-F", "#{session_name}"])
    );
}

fn row(source: &str, name: &str, windows: i64, attached: bool) -> Session {
    Session {
        source: source.into(),
        name: name.into(),
        mux: "tmux".into(),
        windows,
        attached,
    }
}

#[test]
fn parse_sessions_basic() {
    let got = parse_sessions("local", "tmux", "3\t1\tmain\n2\t0\tother\n");
    assert_eq!(got, vec![row("local", "main", 3, true), row("local", "other", 2, false)]);
}

#[test]
fn parse_sessions_crlf() {
    let got = parse_sessions("local", "tmux", "1\t1\ta\r\n1\t0\tb\r\n");
    assert_eq!(got.len(), 2);
    assert_eq!(got[0].name, "a");
    assert_eq!(got[1].name, "b");
}

#[test]
fn parse_sessions_name_with_tab_and_slash() {
    let got = parse_sessions("ssh-host", "tmux", "4\t1\tproj/a\tb\n");
    assert_eq!(got, vec![row("ssh-host", "proj/a\tb", 4, true)]);
}

#[test]
fn parse_sessions_skips_garbage() {
    let out = "some random banner text\n\nx\t1\tbadwin\n1\tnope\tbadattach\n1\t1\t\n2\t1\tgood\n";
    let got = parse_sessions("local", "tmux", out);
    assert_eq!(got, vec![row("local", "good", 2, true)]);
}

#[test]
fn parse_sessions_empty_output() {
    assert!(parse_sessions("local", "tmux", "").is_empty());
}

#[test]
fn parse_sessions_order_preserved() {
    let got = parse_sessions("local", "tmux", "1\t0\tz\n1\t0\ta\n1\t0\tm\n");
    assert_eq!(names(&got), vec!["z", "a", "m"]);
}

// zellij

fn zellij() -> Zellij {
    Zellij { bin: "zellij".into() }
}

#[test]
fn zellij_is_per_session_polled_and_dies_by_eof() {
    let m = zellij();
    assert_eq!(m.kind(), "zellij");
    assert_eq!(m.server_model(), ServerModel::PerSession);
    assert_eq!(m.death_signal(), DeathSignal::Eof);
    assert_eq!(m.event_source(), EventSource::Poll { interval_ms: ZELLIJ_POLL_MS });
    assert!(
        m.control_argv().is_none() && m.control_protocol().is_none(),
        "zellij has no control-mode channel"
    );
    assert!(
        m.switch_in_place("jup", "api", Some("/dev/pts/3")).is_none(),
        "no client can be named from outside its session, so no in-place switch"
    );
    let _object_safe: Box<dyn Mux> = Box::new(zellij());
}

#[test]
fn attach_is_plain_so_showing_a_session_never_creates_one() {
    assert_eq!(zellij().attach_plan("api"), argv(&["zellij", "attach", "api"]));
}

#[test]
fn selecting_a_window_shifts_to_zellij_one_based_tabs() {
    let m = zellij();
    assert_eq!(
        m.select_window_plan(&window_target("api", 0)),
        argv(&["zellij", "--session", "api", "action", "go-to-tab", "1"])
    );
    assert_eq!(
        m.select_window_plan(&window_target("api", 2)),
        argv(&["zellij", "--session", "api", "action", "go-to-tab", "3"])
    );
    assert_eq!(
        m.select_window_plan(&window_target("a:b", 1)),
        argv(&["zellij", "--session", "a:b", "action", "go-to-tab", "2"])
    );
}

#[test]
fn the_client_carries_the_session_it_is_on_in_its_own_environment() {
    assert_eq!(zellij().display_session_env(), Some("ZELLIJ_SESSION_NAME"));
}

#[test]
fn creating_a_session_is_a_silent_detached_attach() {
    assert_eq!(zellij().new_session_plan("dev"), argv(&["zellij", "attach", "-b", "dev"]));
    assert!(
        !zellij().assigns_new_session_name(),
        "the create prints nothing, so stdout is never a name"
    );
}

#[test]
fn enumerate_reads_the_unformatted_listing() {
    let got =
        enumerate("zellij", Ok("api [Created 5m ago] \nbuild [Created 1h ago] \n")).unwrap();
    assert_eq!(names(&got), vec!["api", "build"]);
    assert!(got.iter().all(|s| s.source == "jup" && s.mux == "zellij"));
}

#[test]
fn an_idle_zellij_is_empty_and_an_unreachable_host_is_an_error() {
    let idle = RunError::Exit { stderr: "No active zellij sessions found.".into(), code: 1 };
    assert!(enumerate("zellij", Err(idle)).unwrap().is_empty());
    let down = RunError::Other("ssh: connect to host jup port 22: Connection timed out".into());
    assert!(enumerate("zellij", Err(down)).is_err());
    let missing = RunError::Exit { stderr: "zellij: command not found".into(), code: 127 };
    assert!(enumerate("zellij", Err(missing)).is_err());
}

#[test]
fn the_listed_plan_is_the_argv_enumerate_issues() {
    assert_eq!(zellij().list_sessions_plan(), vec!["zellij", "list-sessions", "-n"]);
}

const SESSIONS: &str = "hug [Created 3h 5m 15s ago] \n\
my build [Created 55m 10s ago] \n\
gone [Created 36s ago] (EXITED - attach to resurrect)\n\
fresh [Created 0s ago] \n";

#[test]
fn a_session_carries_its_name_and_kind() {
    let got = zellij_parse::parse_sessions("jup", SESSIONS);
    assert_eq!(
        names(&got),
        vec!["hug", "my build", "fresh"],
        "a name may hold a space, so the split is on the Created marker"
    );
    assert!(got.iter().all(|s| s.source == "jup" && s.mux == "zellij"));
}

#[test]
fn a_resurrectable_session_is_not_offered() {
    let got = zellij_parse::parse_sessions("jup", SESSIONS);
    assert!(
        !got.iter().any(|s| s.name == "gone"),
        "an EXITED record is not a session to switch to: {got:?}"
    );
}

#[test]
fn windows_is_the_floor_and_attachment_is_only_the_current_session() {
    let got = zellij_parse::parse_sessions("jup", SESSIONS);
    assert!(got.iter().all(|s| s.windows == 1));
    assert!(got.iter().all(|s| !s.attached));
    let inside = zellij_parse::parse_sessions("local", "hug [Created 1m ago] (current)\n");
    assert!(inside[0].attached, "(current) is the one attachment reported");
}

#[test]
fn a_line_that_is_not_a_session_row_is_skipped() {
    for junk in [
        "",
        "Please install zellij\n",
        "no-age-here\n",
        " [Created 1m ago] \n",
        "half [Created 1m\n",
    ] {
        assert!(zellij_parse::parse_sessions("jup", junk).is_empty(), "skipped: {junk:?}");
    }
}

// psmux

#[test]
fn psmux_session_names_excludes_warm_namespaced_and_non_port() {
    let files = argv(&[
        "xmux.port",
        "build.port",
        "__warm__.port",
        "ns__sess.port",
        "xmux.key",
        "xmux.sid",
        "last_session",
        "next_session_id",
    ]);
    assert_eq!(
        psmux_session_names(&files),
        vec!["build".to_string(), "xmux".to_string()]
    );
}

#[test]
fn psmux_session_names_empty() {
    assert!(psmux_session_names(&[]).is_empty());
}

#[test]
fn read_psmux_registry_dir_scans_port_files() {
    let files = argv(&["alpha.port", "beta.port", "__warm__.port", "x__y.port", "alpha.key"]);
    assert_eq!(
        psmux_session_names(&files),
        vec!["alpha".to_string(), "beta".to_string()]
    );
}

#[test]
fn merge_psmux_sessions_prefers_detail_and_keeps_registry_only() {
    let detail = vec![Session {
        source: "local".into(),
        name: "editor".into(),
        mux: "psmux".into(),
        windows: 3,
        attached: true,
    }];
    let registry = argv(&["editor", "build"]);
    let got = merge_psmux_sessions("local", &registry, detail);
    assert_eq!(got.len(), 2, "no duplicate for the session in both sources");
    let editor = got.iter().find(|s| s.name == "editor").unwrap();
    assert_eq!(editor.windows, 3, "detail row wins (full info)");
    assert!(editor.attached);
    let build = got.iter().find(|s| s.name == "build").unwrap();
    assert_eq!(build.source, "local");
    assert_eq!(build.windows, 1, "registry-only session gets minimal placeholder detail");
}

#[test]
fn merge_psmux_sessions_empty_registry_falls_back_to_detail() {
    let detail = vec![Session {
        source: "local".into(),
        name: "only".into(),
        mux: "psmux".into(),
        windows: 1,
        attached: false,
    }];
    let got = merge_psmux_sessions("local", &Vec::new(), detail);
    assert_eq!(got.len(), 1);
    assert_eq!(got[0].name, "only");
}

#[test]
fn merge_psmux_sessions_no_detail_surfaces_registry_names() {
    let got = merge_psmux_sessions("local", &argv(&["a", "b"]), Vec::new());
    assert_eq!(names(&got), vec!["a", "b"]);
    assert!(got.iter().all(|s| s.source == "local"));
}
