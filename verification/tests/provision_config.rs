use xmux::paths::{parent_of, parent_of_on};
use xmux::provision::config::{
    mux_warning, unknown_key, unknown_key_warning, Config, DiscoveryConfig, HostConfig, HostSpec,
    LocalConfig, MuxSpec, NavPosition, NavPositionSetting, UiConfig, WslConfig, AUTO_DARK,
};
use xmux::provision::glob::{glob_match, glob_parts, has_glob, sorted_paths, DirEntry, GlobStep, GlobWalk};
use xmux::provision::ssh_config::{
    expand_include, host_stanza, logical_lines, AliasWalk, WalkStep,
};

fn strings(v: &[&str]) -> Vec<String> {
    v.iter().map(|s| s.to_string()).collect()
}

fn one(name: &str) -> MuxSpec {
    MuxSpec::from(name)
}

fn host(ssh: &str, mux: MuxSpec) -> HostConfig {
    HostConfig { ssh: ssh.into(), mux }
}

fn wsl(distro: &str, mux: MuxSpec) -> WslConfig {
    WslConfig { distro: distro.into(), mux }
}

fn spec(id: &str, alias: &str, bin: &str) -> HostSpec {
    HostSpec { id: id.into(), alias: alias.into(), bin: bin.into() }
}

#[test]
fn host_specs_merge() {
    let cfg = Config {
        hosts: vec![
            host("prod", one("psmux")),
            host("extra", one("zellij")),
            host("noMuxOnly", one("")),
            host("", one("ignored")),
        ],
        exclude: vec!["banned".into()],
        ..Default::default()
    };
    let ssh_aliases = strings(&["prod", "banned", "stage", "prod"]);
    let got = cfg.host_specs(&ssh_aliases);
    let want = vec![
        spec("prod", "prod", "psmux"),
        spec("stage", "stage", "tmux"),
        spec("extra", "extra", "zellij"),
        spec("noMuxOnly", "noMuxOnly", "tmux"),
    ];
    assert_eq!(got, want);
}

#[test]
fn host_specs_duplicate_empty_mux_does_not_clobber() {
    let cfg = Config {
        hosts: vec![host("prod", one("psmux")), host("prod", MuxSpec::default())],
        ..Default::default()
    };
    let got = cfg.host_specs(&["prod".to_string()]);
    let prod = got.iter().find(|s| s.alias == "prod").expect("prod present");
    assert_eq!(prod.bin, "psmux", "explicit mux must survive a later empty dup");
}

#[test]
fn host_specs_excludes_reserved_local_alias() {
    let cfg = Config { hosts: vec![host("local", one("psmux"))], ..Default::default() };
    let got = cfg.host_specs(&strings(&["local", "prod"]));
    assert!(
        !got.iter().any(|s| s.alias == "local"),
        "reserved 'local' alias must be excluded: {got:?}"
    );
    assert!(got.iter().any(|s| s.alias == "prod"));
}

#[test]
fn host_specs_excludes_config_only() {
    let cfg = Config {
        hosts: vec![host("secret", one("psmux"))],
        exclude: vec!["secret".into()],
        ..Default::default()
    };
    assert!(cfg.host_specs(&[]).is_empty());
}

#[test]
fn a_written_mux_is_taken_verbatim_and_auto_is_what_the_box_has() {
    let installed = strings(&["tmux", "zellij"]);
    let cases: &[(&str, &str, &[&str])] = &[
        ("", "windows", &["tmux", "zellij"]),
        ("", "linux", &["tmux", "zellij"]),
        ("auto", "windows", &["tmux", "zellij"]),
        ("auto", "linux", &["tmux", "zellij"]),
        ("zellij", "windows", &["zellij"]),
        ("zellij", "linux", &["zellij"]),
    ];
    for &(mux, os, want) in cases {
        let c = Config { local: LocalConfig { mux: one(mux) }, ..Default::default() };
        assert_eq!(c.local_muxes(os, &installed), want, "mux={mux:?} os={os:?}");
    }
}

#[test]
fn the_conventional_mux_leads_the_discovered_list() {
    let c = Config::default();
    let installed = strings(&["tmux", "psmux", "zellij"]);
    assert_eq!(
        c.local_muxes("windows", &installed),
        vec!["psmux", "tmux", "zellij"]
    );
    assert_eq!(
        c.local_muxes("linux", &installed),
        vec!["tmux", "psmux", "zellij"]
    );
}

#[test]
fn a_box_where_nothing_answered_offers_no_local_source() {
    let c = Config::default();
    assert!(c.local_muxes("windows", &[]).is_empty());
    assert!(c.local_muxes("linux", &[]).is_empty());
}

#[test]
fn only_a_machine_that_named_no_mux_is_xmuxs_to_decide() {
    let cfg = Config {
        local: LocalConfig { mux: one("auto") },
        hosts: vec![host("written", one("zellij")), host("blank", MuxSpec::default())],
        ..Default::default()
    };
    assert!(cfg.mux_is_auto("local"), "unset/auto local");
    assert!(cfg.mux_is_auto("blank"), "an entry with no mux");
    assert!(cfg.mux_is_auto("never-configured"), "no entry at all");
    assert!(!cfg.mux_is_auto("written"), "a written mux is not probed");

    let explicit_local = Config {
        local: LocalConfig { mux: MuxSpec::from(vec!["psmux", "zellij"]) },
        ..Default::default()
    };
    assert!(!explicit_local.mux_is_auto("local"));
}

#[test]
fn a_machine_can_be_given_several_muxes() {
    let cfg = Config {
        local: LocalConfig { mux: MuxSpec::from(vec!["psmux", "zellij"]) },
        hosts: vec![host("prod", MuxSpec::from(vec!["tmux", "zellij"]))],
        ..Default::default()
    };
    assert_eq!(cfg.local_muxes("windows", &[]), vec!["psmux", "zellij"]);
    let got = cfg.host_specs(&["prod".to_string()]);
    assert_eq!(
        got,
        vec![
            spec("prod:tmux", "prod", "tmux"),
            spec("prod:zellij", "prod", "zellij"),
        ]
    );
}

#[test]
fn one_mux_on_a_machine_keeps_the_bare_id() {
    for mux in [MuxSpec::from("zellij"), MuxSpec::from(vec!["zellij"])] {
        let cfg = Config { hosts: vec![host("prod", mux.clone())], ..Default::default() };
        let got = cfg.host_specs(&["prod".to_string()]);
        assert_eq!(got.len(), 1, "spec={mux:?}");
        assert_eq!(got[0].id, "prod", "spec={mux:?}");
        assert_eq!(got[0].bin, "zellij", "spec={mux:?}");
    }
    let cfg = Config { local: LocalConfig { mux: one("zellij") }, ..Default::default() };
    assert_eq!(cfg.local_muxes("windows", &[]), vec!["zellij"]);
}

#[test]
fn excluding_a_machine_drops_every_mux_on_it() {
    let cfg = Config {
        exclude: vec!["prod".into()],
        hosts: vec![host("prod", MuxSpec::from(vec!["tmux", "zellij"]))],
        ..Default::default()
    };
    assert!(cfg.host_specs(&["prod".to_string()]).is_empty());
}

#[test]
fn a_mux_list_drops_blanks_and_repeats() {
    let spec = MuxSpec::from(vec!["tmux", "", "  ", "tmux", "zellij"]);
    assert_eq!(spec.names(), vec!["tmux", "zellij"]);
    assert!(MuxSpec::from(vec!["", " "]).is_unset());
    assert!(MuxSpec::from("").is_unset());
}

#[test]
fn value_warnings_flags_unrecognized_mux() {
    for mux in ["", "auto", "tmux", "psmux", "zellij"] {
        let c = Config { local: LocalConfig { mux: one(mux) }, ..Default::default() };
        assert!(c.value_warnings().is_empty(), "mux={mux:?} must not warn");
    }
    let c = Config { local: LocalConfig { mux: one("byobu") }, ..Default::default() };
    let w = c.value_warnings();
    assert_eq!(w.len(), 1, "{w:?}");
    assert!(w[0].contains("byobu"), "{w:?}");
    let c = Config {
        hosts: vec![host("prod", one("psmux")), host("bad", one("kitty"))],
        ..Default::default()
    };
    let w = c.value_warnings();
    assert_eq!(w.len(), 1, "{w:?}");
    assert!(w[0].contains("bad") && w[0].contains("kitty"), "{w:?}");
}

#[test]
fn a_warning_quotes_the_name_with_its_escapes() {
    let c = Config { local: LocalConfig { mux: one("by\"obu") }, ..Default::default() };
    assert_eq!(c.value_warnings(), vec![mux_warning("local ", "\"by\\\"obu\"")]);
}

#[test]
fn an_unknown_key_is_named_in_quotes() {
    assert_eq!(unknown_key_warning("local.bogus"), r#"unknown key "local.bogus""#);
    assert_eq!(unknown_key("\"ui.bogus\""), r#"unknown key "ui.bogus""#);
}

#[test]
fn wsl_specs_merge_listed_distributions_with_config_entries() {
    let cfg = Config {
        wsl: vec![
            wsl("Ubuntu-24.04", MuxSpec::from(vec!["tmux", "zellij"])),
            wsl("Alpine", MuxSpec::default()),
        ],
        ..Config::default()
    };
    let listed = strings(&["wsl.Ubuntu-24.04", "wsl.docker-desktop"]);
    assert_eq!(
        cfg.wsl_specs(&listed),
        vec![
            spec("wsl.Ubuntu-24.04:tmux", "wsl.Ubuntu-24.04", "tmux"),
            spec("wsl.Ubuntu-24.04:zellij", "wsl.Ubuntu-24.04", "zellij"),
            spec("wsl.docker-desktop", "wsl.docker-desktop", "tmux"),
            spec("wsl.Alpine", "wsl.Alpine", "tmux"),
        ]
    );
}

#[test]
fn exclude_names_a_wsl_machine_by_its_prefixed_name() {
    let cfg = Config { exclude: vec!["wsl.docker-desktop".into()], ..Config::default() };
    let listed = strings(&["wsl.Ubuntu", "wsl.docker-desktop"]);
    let ids: Vec<String> = cfg.wsl_specs(&listed).into_iter().map(|s| s.id).collect();
    assert_eq!(ids, vec!["wsl.Ubuntu"]);
}

#[test]
fn an_ssh_alias_may_not_claim_a_wsl_machine_name() {
    let cfg = Config::default();
    let aliases = strings(&["prod", "wsl.internal", "local"]);
    let ids: Vec<String> = cfg.host_specs(&aliases).into_iter().map(|s| s.id).collect();
    assert_eq!(ids, vec!["prod"], "only the plain alias is served");
}

#[test]
fn mux_is_auto_reads_the_wsl_table_for_a_wsl_machine() {
    let cfg = Config { wsl: vec![wsl("Ubuntu", one("zellij"))], ..Config::default() };
    assert!(!cfg.mux_is_auto("wsl.Ubuntu"));
    assert!(cfg.mux_is_auto("wsl.Alpine"));
}

#[test]
fn an_unrecognized_wsl_mux_warns() {
    let cfg = Config { wsl: vec![wsl("Ubuntu", one("tmuxx"))], ..Config::default() };
    let warnings = cfg.value_warnings();
    assert_eq!(warnings.len(), 1, "{warnings:?}");
    assert!(warnings[0].contains("tmuxx"), "{warnings:?}");
    assert!(warnings[0].contains("Ubuntu"), "{warnings:?}");
}

#[test]
fn every_roster_provider_answers_by_default() {
    let d = DiscoveryConfig::default();
    assert!(d.ssh_config && d.tailscale && d.wsl);
}

#[test]
fn an_unwritten_configuration_has_the_defaults() {
    let cfg = Config::default();
    assert!(cfg.hosts.is_empty() && cfg.exclude.is_empty() && cfg.wsl.is_empty());
    assert!(cfg.local.mux.is_unset());
    assert_eq!(cfg.ui_prefix(), "C-g");
    assert!(!cfg.ui_auto_hide_nav());
    assert_eq!(cfg.ui.theme, AUTO_DARK);
    assert_eq!(cfg.ui.view_active_border_style, "");
    assert_eq!(cfg.ui.hint_bar_style, "");
    assert_eq!(cfg.ui.nav_position_setting(), NavPositionSetting::default());
}

#[test]
fn ui_nav_position_setting() {
    let s = UiConfig {
        auto_nav_position: false,
        wide_nav_position: "right".into(),
        narrow_nav_position: "bottom".into(),
        force_nav_position: "top".into(),
        ..UiConfig::default()
    }
    .nav_position_setting();
    assert!(!s.auto);
    assert_eq!(s.wide, NavPosition::Right);
    assert_eq!(s.narrow, NavPosition::Bottom);
    assert_eq!(s.force, Some(NavPosition::Top));

    let s = UiConfig {
        wide_nav_position: "diagonal".into(),
        narrow_nav_position: "side".into(),
        force_nav_position: "".into(),
        ..UiConfig::default()
    }
    .nav_position_setting();
    assert_eq!(s.wide, NavPositionSetting::default().wide);
    assert_eq!(s.narrow, NavPositionSetting::default().narrow);
    assert_eq!(s.force, None);
}

// ssh configurations

#[test]
fn host_stanza_extracts_matching_blocks() {
    let cfg = "Match originalhost jupiter00 exec \"probe 1.2.3.4\"\n    HostName 1.2.3.4\n\nHost jupiter00\n    HostName 143.248.140.120\n    User hrlee\n\nHost other\n    HostName 9.9.9.9\n";
    let s = host_stanza(cfg, "jupiter00");
    assert!(s.contains("HostName 143.248.140.120"), "Host block included: {s}");
    assert!(s.contains("HostName 1.2.3.4"), "Match block also included: {s}");
    assert!(s.contains("User hrlee"));
    assert!(!s.contains("9.9.9.9"), "unrelated host excluded: {s}");
    assert!(host_stanza("", "jupiter00").is_empty());
    assert!(host_stanza(cfg, "nope").is_empty());
}

/// The files of a file system in memory, by their absolute paths.
struct Files(Vec<(&'static str, String)>);

/// A path without its `..`, as a file system reads it.
fn resolved(path: &str) -> String {
    let mut parts: Vec<&str> = Vec::new();
    for part in path.split('/') {
        if part == ".." {
            parts.pop();
        } else {
            parts.push(part);
        }
    }
    parts.join("/")
}

impl Files {
    fn read(&self, path: &str) -> Option<&str> {
        let path = resolved(path);
        self.0.iter().find(|(p, _)| *p == path).map(|(_, c)| c.as_str())
    }

    fn is_dir(&self, path: &str) -> bool {
        let path = resolved(path);
        self.0.iter().any(|(p, _)| p.starts_with(&format!("{path}/")))
    }

    fn list(&self, dir: &str) -> Vec<DirEntry> {
        let below = format!("{}/", dir.trim_end_matches('/'));
        let mut out: Vec<DirEntry> = Vec::new();
        for (p, _) in &self.0 {
            if let Some(rest) = p.strip_prefix(&below) {
                let name = rest.split('/').next().unwrap().to_string();
                if !out.iter().any(|e| e.name == name) {
                    out.push(DirEntry { is_file: name == rest, name });
                }
            }
        }
        out
    }

    fn glob(&self, pattern: &str) -> Vec<String> {
        let mut walk = GlobWalk::new(pattern, "linux");
        loop {
            match walk.step() {
                GlobStep::List(dir) => walk.listed(&self.list(&dir)),
                GlobStep::File(path) => walk.looked(self.read(&path).is_some()),
                GlobStep::Dir(path) => walk.looked(self.is_dir(&path)),
                GlobStep::Done => return walk.files(),
            }
        }
    }

    fn aliases(&self, path: &str) -> Vec<String> {
        let mut walk = AliasWalk::new();
        walk.opened(path, path, self.read(path));
        loop {
            match walk.step("/home/u", "linux") {
                WalkStep::Go => {}
                WalkStep::Expand(pattern) => walk.expanded(&self.glob(&pattern)),
                WalkStep::Open(file) => walk.opened(&file, &file, self.read(&file)),
                WalkStep::Done => return walk.aliases().clone(),
            }
        }
    }
}

#[test]
fn ssh_host_aliases_missing_file() {
    assert!(Files(vec![]).aliases("/etc/ssh/config").is_empty());
}

#[test]
fn ssh_host_aliases_parsing() {
    let files = Files(vec![(
        "/c",
        r#"
# a comment line
Host alpha beta gamma
    HostName 10.0.0.1
    User me

Host *
    ForwardAgent yes

Host prod-*
    User deploy

Host !skipme realhost
    Port 2222

  Host indented
    HostName 10.0.0.2

Host alpha
    Port 2200
"#
        .into(),
    )]);
    assert_eq!(
        files.aliases("/c"),
        vec!["alpha", "beta", "gamma", "realhost", "indented"]
    );
}

#[test]
fn ssh_host_aliases_line_continuation() {
    let files = Files(vec![(
        "/c",
        r#"
Host alpha \
     beta
    HostName 10.0.0.1

Host gamma
    HostName 10.0.0.2
"#
        .into(),
    )]);
    assert_eq!(files.aliases("/c"), vec!["alpha", "beta", "gamma"]);
}

#[test]
fn ssh_host_aliases_expands_include() {
    let files = Files(vec![
        ("/t/ssh-inc-a", "Host inc-host\n    HostName 10.0.0.9\n".into()),
        ("/t/inc-d/extra.conf", "Host extra-host\n    Port 2200\n".into()),
        ("/t/inc-d/skip.txt", "Host not-included\n".into()),
        (
            "/t/ssh-main",
            "Include /t/ssh-inc-a\nInclude /t/inc-d/*.conf\n\nHost main\n    HostName 10.0.0.1\n"
                .into(),
        ),
    ]);
    assert_eq!(files.aliases("/t/ssh-main"), vec!["inc-host", "extra-host", "main"]);
}

#[test]
fn ssh_host_aliases_include_cycle_terminates() {
    let files = Files(vec![
        ("/t/ssh-cycle-a", "Include /t/ssh-cycle-b\nHost a-host\n".into()),
        ("/t/ssh-cycle-b", "Include /t/ssh-cycle-a\nHost b-host\n".into()),
    ]);
    let mut got = files.aliases("/t/ssh-cycle-a");
    got.sort();
    assert_eq!(got, vec!["a-host", "b-host"]);
}

#[test]
fn an_include_is_sought_at_home_or_beside_its_file() {
    let on = |pattern: &str| expand_include(pattern, "/etc/c", "/home/u", "linux");
    assert_eq!(on("~/x"), "/home/u/x");
    assert_eq!(on("~"), "/home/u");
    assert_eq!(on("d/*.conf"), "/etc/d/*.conf");
    assert_eq!(on("/abs"), "/abs");
    assert_eq!(on("C:/abs"), "/etc/C:/abs", "a drive is a name here");
}

#[test]
fn an_include_goes_up_from_the_directory_of_its_file() {
    let files = Files(vec![
        ("/home/u/.ssh/config", "Include ../x\nInclude conf.d/../y\nHost own\n".into()),
        ("/home/u/x", "Host above\n".into()),
        ("/home/u/.ssh/y", "Host beside\n".into()),
        ("/home/u/.ssh/conf.d/z", "".into()),
    ]);
    let pattern = expand_include("../x", "/home/u/.ssh/config", "/home/u", "linux");
    assert_eq!(pattern, "/home/u/.ssh/../x");
    let found = files.glob(&pattern);
    assert_eq!(found, vec!["/home/u/.ssh/../x"]);
    assert_eq!(resolved(&found[0]), "/home/u/x");
    assert_eq!(files.aliases("/home/u/.ssh/config"), vec!["above", "beside", "own"]);
    assert!(files.glob("/home/u/.ssh/../absent").is_empty());
    assert!(files.glob("/home/u/.ssh/..").is_empty(), "a directory is no file");
}

#[test]
fn the_parts_of_a_pattern_keep_their_places() {
    let parts = |p: &str, os: &str| {
        let (base, names) = glob_parts(p, os);
        (base, names.join(" "))
    };
    assert_eq!(parts("/a/../x", "linux"), ("/".to_string(), "a .. x".to_string()));
    assert_eq!(parts("../../a/./x", "linux"), ("../..".to_string(), "a x".to_string()));
    assert_eq!(parts("//a//x", "linux"), ("/".to_string(), "a x".to_string()));
    assert_eq!(parts("C:/a/x", "linux"), ("".to_string(), "C: a x".to_string()));
    assert_eq!(parts("C:/a/x", "windows"), ("C:/".to_string(), "a x".to_string()));
    assert_eq!(parts("C:x", "windows"), ("C:.".to_string(), "x".to_string()));
    assert_eq!(
        parts("//host/share/a/x", "windows"),
        ("//host/share/".to_string(), "a x".to_string())
    );
}

#[test]
fn an_include_on_windows_knows_drives_and_backslashes() {
    let on = |pattern: &str| {
        expand_include(pattern, "C:\\Users\\u\\.ssh\\config", "C:\\Users\\u", "windows")
    };
    assert_eq!(on("~\\x"), "C:/Users/u/x");
    assert_eq!(on("~"), "C:/Users/u");
    assert_eq!(on("conf.d\\*.conf"), "C:/Users/u/.ssh/conf.d/*.conf");
    assert_eq!(on("D:\\x"), "D:/x");
    assert_eq!(on("/x"), "C:/x", "the root is that of the drive");
    assert_eq!(on("\\\\host\\share\\x"), "//host/share/x");
}

#[test]
fn a_path_is_in_the_directory_before_its_last_part() {
    assert_eq!(parent_of("/a/b"), "/a");
    assert_eq!(parent_of("a/b/"), "a");
    assert_eq!(parent_of("a//b/."), "a");
    assert_eq!(parent_of("/a"), "/");
    assert_eq!(parent_of("/"), "/");
    assert_eq!(parent_of("a"), "");
    assert_eq!(parent_of_on("C:/a", "windows"), "C:/");
    assert_eq!(parent_of_on("C:/a/b", "windows"), "C:/a");
}

#[test]
fn a_whole_walk_finds_each_alias_once_in_first_seen_order() {
    let files = Files(vec![
        ("/c", "Host a\nInclude /d/*\nHost c a\n".into()),
        ("/d/1", "Host b a\nInclude /c\n".into()),
        ("/d/2", "Host c\nInclude /d/1\nHost d\n".into()),
    ]);
    assert_eq!(files.aliases("/c"), vec!["a", "b", "c", "d"]);
}

#[test]
fn nothing_written_leaves_everything_at_its_default() {
    let c = Config::default();
    let nav = c.ui.nav_position_setting();
    assert!(nav.auto);
    assert_eq!(nav.wide, NavPosition::Left);
    assert_eq!(nav.narrow, NavPosition::Top);
    assert_eq!(nav.force, None);
    assert_eq!(c.local.mux, MuxSpec::One(String::new()));
    assert!(c.ui.view_border_style.is_empty() && c.ui.primary.is_empty());
    assert_eq!(MuxSpec::from("tmux"), MuxSpec::One("tmux".into()));
    assert_eq!(MuxSpec::from(vec!["tmux"]), MuxSpec::Many(vec!["tmux".into()]));
}

#[test]
fn lines_with_a_backslash_go_on() {
    assert_eq!(logical_lines("a \\\nb\nc"), vec!["a b", "c"]);
    assert_eq!(logical_lines("a\\"), vec!["a "]);
}

#[test]
fn a_pattern_is_walked_level_by_level() {
    let files = Files(vec![
        ("/r/b/x.conf", String::new()),
        ("/r/a/y.conf", String::new()),
        ("/r/a-b/z.conf", String::new()),
        ("/r/a/sub/w.conf", String::new()),
        ("/r/plain", String::new()),
    ]);
    assert_eq!(
        files.glob("/r/*/*.conf"),
        vec!["/r/a/y.conf", "/r/a-b/z.conf", "/r/b/x.conf"],
        "the order is part by part"
    );
    assert_eq!(files.glob("/r/./plain"), vec!["/r/plain"]);
    assert!(files.glob("/r/plain/x").is_empty());
    assert!(files.glob("/r/a").is_empty(), "a directory is no file");
    assert!(files.glob("/").is_empty());
}

#[test]
fn paths_are_ordered_part_by_part() {
    assert_eq!(
        sorted_paths(&strings(&["/a-b", "/a/b", "/a", "/A"])),
        vec!["/A", "/a", "/a/b", "/a-b"]
    );
}

#[test]
fn patterns_stand_for_names() {
    assert!(glob_match("*.conf", "a.conf") && !glob_match("*.conf", "a.txt"));
    assert!(glob_match("a?c", "abc") && !glob_match("a?c", "ac"));
    assert!(glob_match("[a-c]x", "bx") && !glob_match("[a-c]x", "dx"));
    assert!(glob_match("[!a]x", "bx") && !glob_match("[!a]x", "ax"));
    assert!(glob_match("[]]", "]"));
    assert!(!glob_match("[a", "a"), "a class that does not end stands for nothing");
    assert!(has_glob("a*") && has_glob("a?") && has_glob("[a") && !has_glob("a!"));
}
