use xmux::model::source::{MachineKind, Source};
use xmux::provision::config::{Config, HostConfig, LocalConfig, MuxSpec};
use xmux::provision::env::{
    asks, assigned_name, config_path, created_session, given_name, home_or_cwd, local_socket,
    ls_lines_one, own_session_address, resolve_roster, roster_providers, ssh_config_path,
    ssh_home, to_groups, window_word, xmux_dir_path, Asks, Env, Found, Group, Roster, ScanResult,
};
use xmux::provision::roster::{merge, names, Provider};
use xmux::session::Session;

fn strings(v: &[&str]) -> Vec<String> {
    v.iter().map(|s| s.to_string()).collect()
}

#[test]
fn env_carries_configured_prefix() {
    let mut cfg = Config::default();
    cfg.ui.prefix = "C-a".into();
    assert_eq!(cfg.ui_prefix(), "C-a");
}

fn test_source(alias: &str, remote: bool) -> Source {
    let kind = if remote {
        MachineKind::Ssh {
            id: String::new(),
            alias: alias.into(),
            control_path: String::new(),
            os: "linux".into(),
        }
    } else {
        MachineKind::Local { id: String::new(), socket: None }
    };
    Source { alias: alias.into(), binary: "tmux".into(), kind }
}

fn roster_of(aliases: &[&str]) -> Roster {
    Roster {
        sources: aliases.iter().map(|a| test_source(a, true)).collect(),
        ..Default::default()
    }
}

fn env_with(aliases: &[&str]) -> Env {
    Env::new(roster_of(aliases), "C-g".into(), ".".into(), None, None)
}

fn aliases_of(env: &Env) -> Vec<String> {
    env.source_list().iter().map(|s| s.alias.clone()).collect()
}

#[test]
fn replace_roster_carries_a_discovered_source_on_a_machine_that_survives() {
    let mut env = env_with(&["prod", "prod:zellij", "stage"]);
    env.replace_roster(roster_of(&["prod", "stage"]));
    assert_eq!(
        aliases_of(&env),
        vec!["prod".to_string(), "stage".to_string(), "prod:zellij".to_string()],
        "the carried source keeps its place behind the ones the roster named"
    );
}

#[test]
fn replace_roster_drops_a_source_whose_machine_is_gone() {
    let mut env = env_with(&["prod", "prod:zellij", "stage"]);
    env.replace_roster(roster_of(&["stage"]));
    assert_eq!(
        aliases_of(&env),
        vec!["stage".to_string()],
        "prod is off the roster, so every source it served goes with it"
    );
}

#[test]
fn a_roster_that_is_replaced_by_itself_is_the_same() {
    let mut env = env_with(&["prod", "prod:zellij"]);
    env.replace_roster(roster_of(&["prod", "prod:zellij"]));
    assert_eq!(aliases_of(&env), vec!["prod", "prod:zellij"]);
}

#[test]
fn a_found_source_is_added_once() {
    let mut env = env_with(&["prod"]);
    assert!(env.add_source(test_source("prod:zellij", true)));
    assert!(!env.add_source(test_source("prod:zellij", true)));
    assert_eq!(env.sources(), vec!["prod", "prod:zellij"]);
    assert_eq!(env.source("prod").unwrap().alias, "prod");
    assert!(env.source("nowhere").is_none());
    assert_eq!(env.with_roster(|r| r.sources.len()), 2);
    assert_eq!(env.roster().sources.len(), 2);
}

fn group(source: &str, err: Option<&str>, sessions: Vec<Session>) -> Group {
    Group { source: source.into(), err: err.map(|s| s.to_string()), sessions }
}

fn sess(source: &str, name: &str, windows: i64, attached: bool) -> Session {
    Session {
        source: source.into(),
        name: name.into(),
        mux: String::new(),
        windows,
        attached,
    }
}

#[test]
fn ls_lines_one_renders_a_reachable_group_aligned() {
    let g = group(
        "local",
        None,
        vec![sess("local", "editor", 2, true), sess("local", "build", 1, false)],
    );
    let (lines, unreachable) = ls_lines_one(&g);
    assert_eq!(
        lines,
        vec![
            "local/editor  2 windows  attached=true",
            "local/build   1 window   attached=false"
        ]
    );
    assert!(unreachable.is_none());
}

#[test]
fn ls_lines_one_renders_an_unreachable_group() {
    let g = group("prod", Some("connection refused"), vec![]);
    let (lines, unreachable) = ls_lines_one(&g);
    assert!(lines.is_empty());
    assert_eq!(
        unreachable,
        Some("prod  (unreachable: connection refused)".to_string())
    );
}

#[test]
fn a_count_of_windows_is_written_with_its_word() {
    assert_eq!(window_word(1), "1 window");
    assert_eq!(window_word(0), "0 windows");
    assert_eq!(window_word(-3), "-3 windows");
}

#[test]
fn local_socket_parses_tmux() {
    assert_eq!(
        local_socket(Some("/tmp/tmux-1000/default,1234,0")),
        Some("/tmp/tmux-1000/default".to_string())
    );
    assert_eq!(
        local_socket(Some("/private/tmp/work,99,2")),
        Some("/private/tmp/work".to_string())
    );
    assert_eq!(local_socket(None), None);
    assert_eq!(local_socket(Some("")), None);
}

#[test]
fn the_roster_records_what_offered_each_host() {
    let cfg = Config {
        hosts: vec![
            HostConfig { ssh: "written-down".into(), mux: Default::default() },
            HostConfig { ssh: "jupiter00".into(), mux: Default::default() },
        ],
        ..Default::default()
    };
    let offered = vec![
        ("jupiter00".to_string(), Provider::SshConfig),
        ("kyla".to_string(), Provider::Tailscale),
    ];
    let got = roster_providers(&cfg, &offered, &["wsl.Ubuntu-24.04".to_string()]);

    assert_eq!(got.get("jupiter00"), Some(&Provider::SshConfig));
    assert_eq!(got.get("kyla"), Some(&Provider::Tailscale));
    assert_eq!(got.get("wsl.Ubuntu-24.04"), Some(&Provider::Wsl));
    assert_eq!(got.get("written-down"), Some(&Provider::Config));
    assert_eq!(got.get("local"), Some(&Provider::Local));
}

#[test]
fn home_or_cwd_flags_the_cwd_fallback() {
    assert_eq!(home_or_cwd(Some("/home/u".into())), ("/home/u".into(), false));
    assert_eq!(home_or_cwd(None), (".".into(), true));
}

#[test]
fn ssh_config_path_prefers_home() {
    let home = ssh_home(Some("/tmp/h".into()), Some("/users/u".into()));
    assert_eq!(ssh_config_path(&home), "/tmp/h/.ssh/config");
    assert_eq!(ssh_home(None, Some("/users/u".into())), "/users/u");
}

#[test]
fn the_files_of_a_home() {
    assert_eq!(config_path("/home/u"), "/home/u/.config/xmux/config.toml");
    assert_eq!(xmux_dir_path("/home/u"), "/home/u/.xmux");
}

#[test]
fn ls_lines_one_empty_reachable_group_has_no_lines() {
    let g = group("local", None, vec![]);
    let (lines, unreachable) = ls_lines_one(&g);
    assert!(lines.is_empty());
    assert!(unreachable.is_none());
}

#[test]
fn ls_lines_one_all_unreachable_returns_a_line() {
    let g = group("prod", Some("boom"), vec![]);
    let (lines, unreachable) = ls_lines_one(&g);
    assert!(lines.is_empty());
    assert!(unreachable.is_some());
}

#[test]
fn to_groups_sorts_sessions_by_name() {
    let results = vec![ScanResult {
        source: "local".into(),
        sessions: vec![sess("local", "old", 0, false), sess("local", "new", 0, false)],
        err: None,
    }];
    let groups = to_groups(results);
    assert_eq!(groups[0].sessions[0].name, "new");
    assert_eq!(groups[0].sessions[1].name, "old");
}

#[test]
fn the_session_this_runs_in_is_addressed_by_its_source() {
    let srcs = vec![test_source("local", false), test_source("prod", true)];
    assert_eq!(
        own_session_address(&srcs, Some(("tmux".into(), "work".into()))),
        Some("local/work".to_string())
    );
    assert_eq!(own_session_address(&srcs, None), None);
}

#[test]
fn only_what_is_turned_on_is_asked() {
    let mut cfg = Config::default();
    let all = Asks { ssh_config: true, tailscale: true, wsl: true, installed: true };
    assert_eq!(asks(&cfg), all);
    cfg.discovery.tailscale = false;
    assert_eq!(asks(&cfg), Asks { tailscale: false, ..all });
    cfg.local.mux = MuxSpec::from("tmux");
    assert_eq!(asks(&cfg), Asks { tailscale: false, installed: false, ..all });
    cfg.local.mux = MuxSpec::from("auto");
    assert!(asks(&cfg).installed);
}

#[test]
fn a_created_session_has_the_name_that_its_mux_gave_it() {
    assert_eq!(assigned_name(true, b" 3\n", "dev"), "3");
    assert_eq!(assigned_name(true, b"a\xff\n", "dev"), "a\u{fffd}");
    assert_eq!(assigned_name(false, b" 3\n", "dev"), "dev");
    assert_eq!(given_name(true, "\t3 ", "dev"), "3");
}

#[test]
fn a_created_session_has_one_window() {
    let s = created_session("prod", "dev".into(), "tmux");
    assert_eq!((s.source.as_str(), s.name.as_str(), s.mux.as_str()), ("prod", "dev", "tmux"));
}

#[test]
fn a_roster_is_resolved_from_what_was_found() {
    let cfg = Config {
        local: LocalConfig { mux: MuxSpec::from("byobu") },
        ..Default::default()
    };
    let found = Found {
        warnings: strings(&["unknown key \"x\""]),
        offers: vec![
            (Provider::SshConfig, strings(&["prod"])),
            (Provider::Tailscale, strings(&["prod", "kyla"])),
        ],
        wsl_distros: strings(&["wsl.Ubuntu"]),
        installed: strings(&["tmux"]),
    };
    let r = resolve_roster(cfg, found, "linux", "/home/u/.xmux", None);
    assert_eq!(r.cfg_warnings.len(), 2, "{:?}", r.cfg_warnings);
    assert!(r.cfg_warnings[1].contains("byobu"));
    assert_eq!(r.ssh_aliases, vec!["prod", "kyla"]);
    assert!(r.local_muxes.is_empty(), "a mux that no one knows makes no source");
    let aliases: Vec<&str> = r.sources.iter().map(|s| s.alias.as_str()).collect();
    assert_eq!(aliases, vec!["prod", "kyla", "wsl.Ubuntu"]);
    assert_eq!(r.roster_providers.get("kyla"), Some(&Provider::Tailscale));
}

// the providers

#[test]
fn merge_keeps_first_seen_order_and_drops_duplicates() {
    let ssh = strings(&["prod", "jupiter00"]);
    let ts = strings(&["jupiter00", "graphai01"]);
    let got = merge(&[(Provider::SshConfig, ssh), (Provider::Neighbor, ts)]);
    assert_eq!(
        got.iter().map(|(n, _)| n.as_str()).collect::<Vec<_>>(),
        vec!["prod", "jupiter00", "graphai01"],
        "a hand-configured alias keeps its position; a provider repeat adds nothing"
    );
    assert_eq!(names(&got), vec!["prod", "jupiter00", "graphai01"]);
}

#[test]
fn a_repeated_name_keeps_the_provider_that_offered_it_first() {
    let got = merge(&[
        (Provider::SshConfig, strings(&["jupiter00"])),
        (Provider::Neighbor, strings(&["jupiter00"])),
    ]);
    assert_eq!(got, vec![("jupiter00".to_string(), Provider::SshConfig)]);
}

#[test]
fn a_provider_is_labelled_by_the_key_that_turns_it_off() {
    assert_eq!(Provider::SshConfig.label(), "ssh-config");
    assert_eq!(Provider::Neighbor.label(), "neighbors");
    assert_eq!(Provider::Wsl.label(), "wsl");
}
