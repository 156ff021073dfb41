use xmux::link::HostEvent;
use xmux::model::host::{Host, Liveness};
use xmux::model::hosts::Hosts;
use xmux::model::server_model::ServerModel;
use xmux::model::source;
use xmux::model::source::{for_machine_mux, MachineKind, RunError};
use xmux::model::transport::Transport;
use xmux::mux::{for_binary, Mux};
use xmux::provision::config::{Config, HostConfig, MuxSpec};

fn local(bin: &str) -> Host {
    Host::new(Transport::Local { socket: None }, for_binary(bin).unwrap())
}

fn strings(v: &[&str]) -> Vec<String> {
    v.iter().map(|s| s.to_string()).collect()
}

#[test]
fn default_and_new_are_empty() {
    assert!(Hosts::default().ids().is_empty());
    assert!(Hosts::new().ids().is_empty());
}

#[test]
fn insert_keys_on_host_id_and_appends_order_once() {
    let mut hosts = Hosts::default();
    hosts.insert(local("tmux"));
    assert_eq!(hosts.ids(), &["local".to_string()]);
    hosts.insert(local("psmux"));
    assert_eq!(hosts.ids(), &["local".to_string()], "same id does not duplicate order");
    assert_eq!(
        hosts.get("local").unwrap().mux.server_model(),
        ServerModel::PerSession,
        "psmux replaced tmux"
    );
}

#[test]
fn build_puts_local_first_then_ssh_hosts_in_order() {
    let cfg = Config::default();
    let aliases = strings(&["prod", "db"]);
    let hosts = Hosts::build(&cfg, &aliases, "linux", "/home/u/.xmux", None);
    assert_eq!(hosts.ids(), &["local".to_string(), "prod".to_string(), "db".to_string()]);
    assert!(!hosts.get("local").unwrap().transport.is_remote());
    let prod = hosts.get("prod").unwrap();
    assert!(prod.transport.is_remote());
    assert_eq!(prod.transport.host_id(), "prod");
    assert_eq!(
        prod.transport,
        Transport::Ssh {
            alias: "prod".into(),
            control_path: "/home/u/.xmux/cm-prod.sock".into(),
            os: "linux".into()
        }
    );
}

#[test]
fn build_local_socket_threads_into_the_transport() {
    let cfg = Config::default();
    let hosts = Hosts::build(&cfg, &[], "linux", "/x", Some("/tmp/tmux-1000/work".into()));
    let (_n, args) = hosts
        .get("local")
        .unwrap()
        .transport
        .exec_argv(false, &["tmux".to_string(), "list-sessions".to_string()]);
    assert!(
        args.windows(2).any(|w| w == ["-S".to_string(), "/tmp/tmux-1000/work".to_string()]),
        "socket threads into the transport as -S: {args:?}"
    );
}

#[test]
fn a_host_is_on_the_server_of_its_source() {
    let dir = "/x";
    let sock = Some("/tmp/tmux-1000/work".to_string());
    for (bin, kept) in [("tmux", sock.clone()), ("psmux", sock.clone()), ("zellij", None)] {
        let mut cfg = Config::default();
        cfg.local.mux = MuxSpec::from(bin);
        let hosts = Hosts::build(&cfg, &strings(&["prod"]), "linux", dir, sock.clone());
        let here =
            for_machine_mux("local", bin, "local".to_string(), "linux", dir, sock.clone());
        assert_eq!(here.kind.local_socket(), kept, "{bin}");
        let host = hosts.get("local").unwrap();
        assert_eq!(host.transport, Transport::Local { socket: kept.clone() }, "{bin}");
        assert_eq!(Some(&host.transport), here.kind.transport().as_ref(), "{bin}");
        let there = for_machine_mux("prod", bin, "prod".to_string(), "linux", dir, sock.clone());
        let prod = hosts.get("prod").unwrap();
        assert_eq!(Some(&prod.transport), there.kind.transport().as_ref(), "{bin}");
    }
}

#[test]
fn get_mut_and_iter_mut_reach_every_host() {
    let cfg = Config::default();
    let mut hosts = Hosts::build(&cfg, &["prod".to_string()], "linux", "/x", None);
    assert!(hosts.get_mut("prod").is_some());
    assert!(hosts.get_mut("absent").is_none());
    let ids = hosts.ids().clone();
    let reached = ids.iter().filter(|id| hosts.get_mut(id.as_str()).is_some()).count();
    assert_eq!(reached, 2, "local + prod");
}

#[test]
fn apply_exited_clears_tty_and_marks_unreachable() {
    let mut hosts = Hosts::build(&Config::default(), &["jup".to_string()], "linux", "/x", None);
    hosts.get_mut("jup").unwrap().record_display_tty(Some("/dev/pts/9".into()));
    hosts.apply_host_event(&HostEvent::Exited { host: "jup".into(), reason: None });
    let h = hosts.get("jup").unwrap();
    assert!(
        h.display_tty.0.is_none(),
        "death clears the tty so no switch-client targets it"
    );
    assert_eq!(h.liveness, Liveness::Unreachable);
}

#[test]
fn apply_connected_marks_live() {
    let mut hosts = Hosts::build(&Config::default(), &["jup".to_string()], "linux", "/x", None);
    hosts.apply_host_event(&HostEvent::Connected { host: "jup".into() });
    assert_eq!(hosts.get("jup").unwrap().liveness, Liveness::Live);
    assert_eq!(hosts.get("local").unwrap().liveness, Liveness::Connecting);
}

#[test]
fn a_reported_tty_is_recorded_and_forgotten() {
    let mut hosts = Hosts::build(&Config::default(), &["jup".to_string()], "linux", "/x", None);
    hosts.apply_host_event(&HostEvent::DisplayTty {
        host: "jup".into(),
        tty: Some("/dev/pts/4".into()),
    });
    assert_eq!(hosts.get("jup").unwrap().display_tty.0.as_deref(), Some("/dev/pts/4"));
    hosts.apply_host_event(&HostEvent::DisplayTty { host: "jup".into(), tty: None });
    assert!(hosts.get("jup").unwrap().display_tty.0.is_none());
}

#[test]
fn build_ids_match_source_build_order_for_multi_host_config() {
    let cfg = Config {
        hosts: vec![HostConfig { ssh: "cfgonly".into(), mux: MuxSpec::from("psmux") }],
        ..Config::default()
    };
    let aliases = strings(&["prod", "db"]);
    let os = "linux";
    let dir = "/home/u/.xmux";
    let hosts = Hosts::build(&cfg, &aliases, os, dir, None);
    let srcs = source::build(&cfg, &aliases, &[], os, &strings(&["tmux"]), dir, None);
    let src_order: Vec<String> = srcs.iter().map(|s| s.alias.clone()).collect();
    assert_eq!(
        hosts.ids(),
        src_order.as_slice(),
        "the host registry projection must equal the source-derived order"
    );
    assert_eq!(
        src_order,
        vec![
            "local".to_string(),
            "prod".to_string(),
            "db".to_string(),
            "cfgonly".to_string(),
        ],
        "local first, ssh-config aliases in order, then config-only hosts"
    );
}

#[test]
fn apply_event_for_unknown_host_is_a_noop() {
    let mut hosts = Hosts::build(&Config::default(), &[], "linux", "/x", None);
    hosts.apply_host_event(&HostEvent::Connected { host: "ghost".into() });
    assert!(hosts.get("ghost").is_none());
    assert_eq!(hosts.ids(), &["local".to_string()]);
}

#[test]
fn build_puts_local_first() {
    let cfg = Config::default();
    let aliases = strings(&["prod", "db"]);
    let srcs =
        source::build(&cfg, &aliases, &[], "linux", &strings(&["tmux"]), "/home/u/.xmux", None);
    assert_eq!(srcs.len(), 3);
    assert_eq!(srcs[0].alias, "local");
    assert!(matches!(srcs[0].kind, MachineKind::Local { .. }));
    assert_eq!(srcs[1].alias, "prod");
    assert!(matches!(srcs[1].kind, MachineKind::Ssh { .. }));
    assert_eq!(srcs[1].binary, "tmux");
}

#[test]
fn several_local_muxes_have_ids_of_their_own_and_wsl_comes_last() {
    let cfg = Config::default();
    let srcs = source::build(
        &cfg,
        &strings(&["prod"]),
        &strings(&["wsl.Ubuntu"]),
        "windows",
        &strings(&["psmux", "zellij"]),
        "/x",
        None,
    );
    let ids: Vec<&str> = srcs.iter().map(|s| s.alias.as_str()).collect();
    assert_eq!(ids, vec!["local:psmux", "local:zellij", "prod", "wsl.Ubuntu"]);
    assert_eq!(
        srcs[3].kind,
        MachineKind::Wsl { id: "wsl.Ubuntu".into(), distro: "Ubuntu".into() }
    );
    assert!(srcs[3].host().is_none());
    assert_eq!(srcs[2].host().unwrap().id(), "prod");
}

#[test]
fn a_local_zellij_source_is_built_without_the_tmux_socket() {
    let dir = "/tmp/xmux";
    let sock = Some("/tmp/psmux-1/default".to_string());
    let z = for_machine_mux("local", "zellij", "local:zellij".into(), "linux", dir, sock.clone());
    assert_eq!(z.kind.local_socket(), None, "no socket reaches zellij");

    let p = for_machine_mux("local", "psmux", "local:psmux".into(), "linux", dir, sock.clone());
    assert_eq!(p.kind.local_socket(), sock);
}

#[test]
fn exec_runner_trims_the_trailing_newline_from_stderr() {
    let err = RunError::exited(b"boom\n", Some(1));
    let RunError::Exit { stderr, .. } = &err else {
        panic!("expected an exit error, got {err:?}");
    };
    assert_eq!(stderr, "boom", "trailing newline trimmed, got {stderr:?}");
    assert_eq!(err.message(), "command failed (exit 1): boom");
    assert_eq!(RunError::exited(b"", None), RunError::Exit { stderr: "".into(), code: -1 });
    let lossy = RunError::exited(b"a\xff \n", Some(2));
    assert_eq!(lossy, RunError::exited_with("a\u{fffd} \n", Some(2)));
    assert_eq!(lossy.message(), "command failed (exit 2): a\u{fffd}");
}

#[test]
fn a_command_that_hangs_is_named() {
    let err = RunError::timed_out("ssh", 6);
    assert_eq!(err.message(), "ssh did not answer within 6s");
}
