use xmux::model::mux::{
    detect_backend, detect_from, for_binary, for_kind, Backend, Mux, Psmux, Tmux,
};
use xmux::model::plan::{DeathSignal, SwitchPlan};
use xmux::model::server_model::ServerModel;
use xmux::model::source::RunError;
use xmux::mux::vocab;
use xmux::mux::EventSource;

fn argv(parts: &[&str]) -> Vec<String> {
    parts.iter().map(|s| s.to_string()).collect()
}

fn tmux() -> Tmux {
    Tmux { bin: "tmux".into() }
}

fn psmux() -> Psmux {
    Psmux { bin: "psmux".into() }
}

#[test]
fn mux_tmux_is_shared_and_named() {
    let m = tmux();
    assert_eq!(m.kind(), "tmux");
    assert_eq!(m.server_model(), ServerModel::Shared);
}

#[test]
fn mux_tmux_is_object_safe() {
    let m: Box<dyn Mux> = Box::new(tmux());
    assert_eq!(m.kind(), "tmux");
}

#[test]
fn mux_tmux_attach_plan_is_plain_attach() {
    let m = tmux();
    assert_eq!(m.attach_plan("api", None), argv(&["tmux", "attach", "-t", "api"]));
    assert_eq!(m.attach_plan("api", Some(2)), argv(&["tmux", "attach", "-t", "api"]));
}

#[test]
fn tmux_switch_plan_is_transport_blind_intent() {
    assert_eq!(tmux().switch_plan("api"), SwitchPlan::Switch { session: "api".into() });
}

#[test]
fn tmux_switch_client_argv_targets_the_captured_tty() {
    let m = tmux();
    assert_eq!(
        m.switch_client_argv("/dev/pts/3", "api"),
        argv(&["tmux", "switch-client", "-c", "/dev/pts/3", "-t", "api"])
    );
    assert_eq!(
        m.switch_client_argv("/dev/pts/3", "my proj"),
        argv(&["tmux", "switch-client", "-c", "/dev/pts/3", "-t", "'my proj'"])
    );
}

#[test]
fn mux_tmux_control_attach_and_event_and_death() {
    let m = tmux();
    assert_eq!(m.control_argv(), Some(argv(&["tmux", "-CC", "attach"])));
    assert_eq!(m.event_source(), EventSource::Control);
    assert_eq!(m.death_signal(), DeathSignal::ControlNotice);
}

#[test]
fn tmux_window_plans_match_mux_builders() {
    let m = tmux();
    assert_eq!(m.list_panes_plan("work"), vocab::list_panes("tmux", "work"));
    assert_eq!(m.select_window_plan("api:2"), vocab::select_window("tmux", "api:2"));
    assert_eq!(m.new_window_plan("work", "logs"), vocab::new_window("tmux", "work", "logs"));
    assert_eq!(
        m.split_window_plan("work:1", true),
        vocab::split_window("tmux", "work:1", true)
    );
    assert_eq!(m.kill_window_plan("api:2"), vocab::kill_window("tmux", "api:2"));
    assert_eq!(
        m.rename_window_plan("api:2", "logs"),
        vocab::rename_window("tmux", "api:2", "logs")
    );
}

#[test]
fn mux_psmux_is_per_session_and_named() {
    let m = psmux();
    assert_eq!(m.kind(), "psmux");
    assert_eq!(m.server_model(), ServerModel::PerSession);
}

#[test]
fn mux_psmux_is_object_safe() {
    let m: Box<dyn Mux> = Box::new(psmux());
    assert_eq!(m.kind(), "psmux");
}

#[test]
fn psmux_has_no_shared_attachment_to_switch() {
    assert_eq!(psmux().switch_plan("work"), SwitchPlan::PerSessionNoOp);
}

#[test]
fn mux_psmux_polls_and_dies_on_registry_stat() {
    let m = psmux();
    assert_eq!(m.control_argv(), None);
    assert_eq!(m.event_source(), EventSource::Poll { interval_ms: 1500 });
    assert_eq!(m.death_signal(), DeathSignal::PathStat { dir_is_psmux_registry: true });
}

#[test]
fn psmux_attach_plan_is_plain_attach() {
    assert_eq!(psmux().attach_plan("work", None), argv(&["psmux", "attach", "-t", "work"]));
}

#[test]
fn psmux_window_plans_use_the_psmux_binary() {
    let m = psmux();
    assert_eq!(m.list_panes_plan("work"), vocab::list_panes("psmux", "work"));
    assert_eq!(m.select_window_plan("work:1"), vocab::select_window("psmux", "work:1"));
    assert_eq!(m.new_window_plan("work", "logs"), vocab::new_window("psmux", "work", "logs"));
}

#[test]
fn mux_psmux_behavior_is_decoupled_from_invoked_binary() {
    let m = Psmux { bin: "tmux".into() };
    assert_eq!(m.attach_plan("api", None), argv(&["tmux", "attach", "-t", "api"]));
    assert_eq!(m.server_model(), ServerModel::PerSession);
    assert_eq!(m.kind(), "psmux");
}

#[test]
fn mux_tmux_behavior_is_decoupled_from_invoked_binary() {
    let m = Tmux { bin: "psmux".into() };
    assert_eq!(m.attach_plan("api", None), argv(&["psmux", "attach", "-t", "api"]));
    assert_eq!(m.server_model(), ServerModel::Shared);
    assert_eq!(m.kind(), "tmux");
}

fn probe(out: Option<&str>) -> Result<Vec<u8>, RunError> {
    match out {
        Some(s) => Ok(s.as_bytes().to_vec()),
        None => Err(RunError::Other("down".into())),
    }
}

fn detect(help: Option<&str>, version: Option<&str>) -> Option<Backend> {
    detect_backend("tmux", probe(help), probe(version))
}

#[test]
fn mux_detect_backend_classifies_psmux_by_help_marker() {
    let got = detect(Some("usage: PsMuX help"), Some("tmux 3.3.6")).unwrap();
    assert_eq!(got.kind(), "psmux");
    assert_eq!(got.server_model(), ServerModel::PerSession);
    assert_eq!(got.attach_plan("api", None), argv(&["tmux", "attach", "-t", "api"]));
}

#[test]
fn mux_detect_backend_classifies_real_tmux_via_version_when_help_errors() {
    let got = detect(None, Some("tmux 3.5a")).unwrap();
    assert_eq!(got.kind(), "tmux");
    assert_eq!(got.server_model(), ServerModel::Shared);
}

#[test]
fn mux_detect_backend_classifies_tmux_when_help_lacks_marker() {
    let got = detect(Some("usage: tmux commands"), Some("tmux 3.5a")).unwrap();
    assert_eq!(got.kind(), "tmux");
    assert_eq!(got.server_model(), ServerModel::Shared);
}

#[test]
fn mux_detect_backend_both_probes_fail_is_inconclusive() {
    assert!(detect(None, None).is_none());
}

#[test]
fn help_in_lower_case_decides() {
    let got = detect_from("tmux", Some("usage: psmux".into()), false).unwrap();
    assert_eq!(got.kind(), "psmux");
    assert_eq!(got.bin(), "tmux");
    assert!(detect_from("tmux", Some("usage: x".into()), false).is_none());
}

#[test]
fn for_binary_picks_psmux_else_tmux() {
    assert_eq!(for_binary("psmux").kind(), "psmux");
    assert_eq!(for_binary("psmux").server_model(), ServerModel::PerSession);
    assert_eq!(for_binary("tmux").kind(), "tmux");
    assert_eq!(for_binary("tmux").server_model(), ServerModel::Shared);
    assert_eq!(for_binary("").kind(), "tmux");
    assert_eq!(for_binary("some-fork-of-tmux").kind(), "tmux");
}

#[test]
fn mux_for_kind_preserves_identity_and_invoked_binary() {
    let p = for_kind("psmux", "tmux");
    assert_eq!(p.kind(), "psmux");
    assert_eq!(p.bin(), "tmux");
    assert_eq!(p.event_source(), EventSource::Poll { interval_ms: 1500 });

    let t = for_kind("tmux", "psmux");
    assert_eq!(t.kind(), "tmux");
    assert_eq!(t.bin(), "psmux");
    assert_eq!(t.event_source(), EventSource::Control);
}
