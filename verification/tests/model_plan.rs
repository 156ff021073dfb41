use xmux::model::action::FocusTarget as ViewTarget;
use xmux::model::operation::{FocusTarget, Operation};
use xmux::model::plan::{DeathSignal, DisplayTty, EventSource};
use xmux::model::selection::Selection;

#[test]
fn death_signal_variants_are_distinct() {
    assert_ne!(DeathSignal::Eof, DeathSignal::ControlNotice);
    assert_eq!(
        DeathSignal::PathStat { dir_is_psmux_registry: true },
        DeathSignal::PathStat { dir_is_psmux_registry: true }
    );
}

#[test]
fn event_source_names_a_channel_and_carries_no_cadence() {
    assert_eq!(EventSource::Poll, EventSource::Poll);
    assert_ne!(EventSource::Control, EventSource::Poll);
}

#[test]
fn display_tty_default_is_none() {
    assert_eq!(DisplayTty::default(), DisplayTty(None));
}

#[test]
fn selection_addresses_source_slash_session() {
    let sel = Selection { source: "jup".into(), session: "api".into(), window: None };
    assert_eq!(sel.address(), "jup/api");
    assert!(Selection::default().is_empty());
    assert!(!sel.is_empty());
}

#[test]
fn operation_focus_target_parses_aliases() {
    assert_eq!(FocusTarget::from_str("tree"), Some(FocusTarget::Tree));
    assert_eq!(FocusTarget::from_str("terminal"), Some(FocusTarget::Terminal));
    assert_eq!(
        FocusTarget::from_str("mux"),
        Some(FocusTarget::Terminal),
        "mux is an alias for terminal"
    );
    assert_eq!(FocusTarget::from_str(" tree "), Some(FocusTarget::Tree), "trims");
    assert_eq!(FocusTarget::from_str("sideways"), None);
}

#[test]
fn operation_equality_is_structural() {
    assert_eq!(
        Operation::Switch { address: "jup/api".into() },
        Operation::Switch { address: "jup/api".into() }
    );
    assert_ne!(
        Operation::Switch { address: "jup/api".into() },
        Operation::Switch { address: "jup/db".into() }
    );
    assert_eq!(Operation::Focus(FocusTarget::Tree), Operation::Focus(FocusTarget::Tree));
    assert_ne!(Operation::TreeWidth(1), Operation::TreeWidth(-1));
}

#[test]
fn action_focus_target_parses_aliases() {
    assert_eq!(ViewTarget::from_str("nav"), Some(ViewTarget::Nav));
    assert_eq!(ViewTarget::from_str("terminal"), Some(ViewTarget::Terminal));
    assert_eq!(
        ViewTarget::from_str("mux"),
        Some(ViewTarget::Terminal),
        "mux is an alias for terminal"
    );
    assert_eq!(ViewTarget::from_str(" nav "), Some(ViewTarget::Nav), "trims");
    assert_eq!(ViewTarget::from_str("sideways"), None);
}
