use xmux::model::plan::SwitchPlan;
use xmux::model::transport::{LoweredSwitch, Transport};
use xmux::shell;

fn ssh(alias: &str, os: &str, cp: &str) -> Transport {
    Transport::Ssh { alias: alias.into(), control_path: cp.into(), os: os.into() }
}

fn local(socket: Option<&str>) -> Transport {
    Transport::Local { socket: socket.map(str::to_string) }
}

fn argv(parts: &[&str]) -> Vec<String> {
    parts.iter().map(|s| s.to_string()).collect()
}

#[test]
fn host_id_is_local_for_local_and_alias_for_ssh() {
    assert_eq!(Transport::Local { socket: None }.host_id(), "local");
    assert_eq!(ssh("prod", "linux", "").host_id(), "prod");
}

#[test]
fn is_remote_only_for_ssh() {
    assert!(!Transport::Local { socket: Some("/x".into()) }.is_remote());
    assert!(ssh("prod", "linux", "").is_remote());
}

#[test]
fn ssh_opts_non_interactive_batches_and_multiplexes() {
    let a = ssh("prod", "linux", "/tmp/cm.sock").ssh_opts(false);
    let joined = a.join(" ");
    assert!(joined.contains("BatchMode=yes"), "{a:?}");
    assert!(joined.contains("ConnectTimeout=5"), "{a:?}");
    assert!(joined.contains("ControlMaster=auto"), "{a:?}");
    assert_eq!(a[a.len() - 2], "--");
    assert_eq!(a[a.len() - 1], "prod");
}

#[test]
fn ssh_opts_interactive_requests_tty_no_batch() {
    let a = ssh("prod", "linux", "").ssh_opts(true);
    let joined = a.join(" ");
    assert!(joined.contains("-t"), "{a:?}");
    assert!(!joined.contains("BatchMode"), "{a:?}");
}

#[test]
fn ssh_opts_windows_omits_control_master() {
    let a = ssh("prod", "windows", "/tmp/cm.sock").ssh_opts(false);
    assert!(!a.join(" ").contains("ControlMaster"), "{a:?}");
}

#[test]
fn ssh_opts_are_these_words() {
    assert_eq!(
        ssh("prod", "linux", "/tmp/cm.sock").ssh_opts(false),
        argv(&[
            "-o",
            "BatchMode=yes",
            "-o",
            "ConnectTimeout=5",
            "-o",
            "ControlMaster=auto",
            "-o",
            "ControlPath=/tmp/cm.sock",
            "-o",
            "ControlPersist=60s",
            "--",
            "prod"
        ])
    );
    assert!(local(None).ssh_opts(false).is_empty());
}

#[test]
fn exec_argv_local_plain_and_socket() {
    let (n, a) = local(None).exec_argv(false, &argv(&["psmux", "list-sessions", "-F", "x"]));
    assert_eq!(n, "psmux");
    assert_eq!(a, argv(&["list-sessions", "-F", "x"]));

    let (n, a) = local(Some("/tmp/tmux-1000/work"))
        .exec_argv(false, &argv(&["tmux", "list-sessions", "-F", "x"]));
    assert_eq!(n, "tmux");
    assert_eq!(a, argv(&["-S", "/tmp/tmux-1000/work", "list-sessions", "-F", "x"]));
}

#[test]
fn exec_argv_remote_wraps_in_ssh() {
    let (n, a) =
        ssh("prod", "linux", "").exec_argv(false, &argv(&["tmux", "kill-session", "-t", "x"]));
    assert_eq!(n, "ssh");
    assert_eq!(a.last().unwrap(), "tmux kill-session -t x");
}

#[test]
fn control_argv_local_injects_socket_before_cc() {
    assert_eq!(
        local(None).control_argv(&argv(&["psmux", "-CC", "attach"])),
        argv(&["psmux", "-CC", "attach"])
    );
    assert_eq!(
        local(Some("/tmp/tmux-1000/work")).control_argv(&argv(&["tmux", "-CC", "attach"])),
        argv(&["tmux", "-S", "/tmp/tmux-1000/work", "-CC", "attach"])
    );
}

#[test]
fn control_argv_remote_forces_pty() {
    let got = ssh("prod", "linux", "").control_argv(&argv(&["tmux", "-CC", "attach"]));
    assert_eq!(got[0], "ssh");
    assert!(got.iter().any(|s| s == "-tt"), "{got:?}");
    assert!(got.iter().any(|s: &String| s.contains("BatchMode=yes")), "{got:?}");
    assert_eq!(got.last().unwrap(), "tmux -CC attach");
}

#[test]
fn raw_ssh_argv_none_for_local_some_for_ssh() {
    assert!(local(None).raw_ssh_argv("anything").is_none());
    let got = ssh("prod", "linux", "").raw_ssh_argv("c=$(tty); echo $c").unwrap();
    assert_eq!(got[0], "ssh");
    assert_eq!(got.last().unwrap(), "c=$(tty); echo $c");
    assert!(got.iter().any(|s: &String| s.contains("BatchMode=yes")), "{got:?}");
}

fn switch_argv_for(tty: &str) -> impl Fn(&str) -> Vec<String> + '_ {
    move |session: &str| argv(&["tmux", "switch-client", "-c", tty, "-t", session])
}

#[test]
fn lower_switch_no_op_for_per_session() {
    assert!(local(None)
        .lower_switch(&SwitchPlan::PerSessionNoOp, &switch_argv_for("/dev/pts/3"))
        .is_none());
    assert!(ssh("prod", "linux", "")
        .lower_switch(&SwitchPlan::PerSessionNoOp, &switch_argv_for("/dev/pts/3"))
        .is_none());
}

#[test]
fn lower_switch_local_is_a_direct_mux_argv() {
    let got = local(None)
        .lower_switch(
            &SwitchPlan::Switch { session: "api".into() },
            &switch_argv_for("/dev/pts/3"),
        )
        .expect("Shared local lowers to a switch");
    assert_eq!(
        got,
        LoweredSwitch::Local(argv(&["tmux", "switch-client", "-c", "/dev/pts/3", "-t", "api"]))
    );
}

#[test]
fn lower_switch_remote_is_a_guarded_ssh_raw_command() {
    let got = ssh("prod", "linux", "")
        .lower_switch(
            &SwitchPlan::Switch { session: "api".into() },
            &switch_argv_for("/dev/pts/3"),
        )
        .expect("Shared remote lowers to a switch");
    let LoweredSwitch::RawSsh(v) = got else { panic!("remote lowers to RawSsh: {got:?}") };
    assert_eq!(v[0], "ssh");
    assert_eq!(v.last().unwrap(), "tmux switch-client -c /dev/pts/3 -t api");
    assert!(v.iter().any(|s: &String| s.contains("BatchMode=yes")), "{v:?}");
}

#[test]
fn interactive_attach_selects_the_window_over_the_same_connection() {
    let t = ssh("prod", "linux", "");
    let (n, a) = t.interactive_attach_argv(
        &argv(&["tmux", "attach", "-t", "my proj"]),
        Some(argv(&["tmux", "select-window", "-t", "api:2"])),
    );
    assert_eq!(n, "ssh");
    assert_eq!(
        a.last().unwrap(),
        "tmux select-window -t 'api:2' ; exec tmux attach -t 'my proj'"
    );
}

#[test]
fn a_word_that_a_shell_would_read_is_quoted() {
    assert_eq!(shell::quote("plain-1.0/x"), "plain-1.0/x");
    assert_eq!(shell::quote("a b"), "'a b'");
    assert_eq!(shell::quote("it's"), "'it'\\''s'");
    assert_eq!(shell::quote(""), "''");
    assert_eq!(shell::remote_command(&argv(&["echo", "a b", "c"])), "echo 'a b' c");
}
