use xmux::model::operation::{FocusTarget, Operation};
use xmux::proxy::app::{App, Focus, ModalKind, PaneFocus};
use xmux::proxy::dispatch::Action;
use xmux::proxy::key::{KeyCode, KeyEvent, KeyModifiers};

#[test]
fn app_starts_tree_focused_and_toggles() {
    let mut app = App::new();
    assert!(app.is_tree_focused(), "starts on the tree (cursor preselected)");
    app.toggle();
    assert_eq!(app.state, Focus::Terminal);
    app.toggle();
    assert_eq!(app.state, Focus::Tree);
}

#[test]
fn popup_carries_and_restores_prior_from_terminal() {
    let mut app = App { state: Focus::Terminal };
    app.sync_modal(Some(ModalKind::Popup));
    assert_eq!(app.state, Focus::Popup { prior: PaneFocus::Terminal });
    app.sync_modal(None);
    assert_eq!(app.state, Focus::Terminal, "restored to the pane it opened from");
}

#[test]
fn popup_carries_and_restores_prior_from_tree() {
    let mut app = App::new();
    app.sync_modal(Some(ModalKind::Popup));
    assert_eq!(app.state, Focus::Popup { prior: PaneFocus::Tree });
    app.sync_modal(None);
    assert_eq!(app.state, Focus::Tree);
}

#[test]
fn menu_carries_and_restores_prior_from_tree() {
    let mut app = App::new();
    app.sync_modal(Some(ModalKind::Menu));
    assert_eq!(app.state, Focus::Menu { prior: PaneFocus::Tree });
    app.sync_modal(None);
    assert_eq!(app.state, Focus::Tree);
}

#[test]
fn toggle_during_a_modal_flips_prior_and_keeps_the_modal() {
    let mut app = App::new();
    app.sync_modal(Some(ModalKind::Popup));
    app.toggle();
    assert_eq!(
        app.state,
        Focus::Popup { prior: PaneFocus::Terminal },
        "toggle flips the carried prior, the modal stays open",
    );
    app.sync_modal(None);
    assert_eq!(app.state, Focus::Terminal, "restored to the flipped pane");
}

#[test]
fn sync_modal_is_idempotent_while_held_and_does_not_recapture() {
    let mut app = App::new();
    app.sync_modal(Some(ModalKind::Popup));
    app.toggle();
    app.sync_modal(Some(ModalKind::Popup));
    assert_eq!(
        app.state,
        Focus::Popup { prior: PaneFocus::Terminal },
        "re-sync of the same kind must not re-capture prior over a mid-modal toggle",
    );
}

#[test]
fn kind_switch_keeps_prior() {
    let mut app = App { state: Focus::Menu { prior: PaneFocus::Terminal } };
    app.sync_modal(Some(ModalKind::Popup));
    assert_eq!(
        app.state,
        Focus::Popup { prior: PaneFocus::Terminal },
        "switching menu->popup keeps prior, does not re-capture",
    );
}

#[test]
fn set_pane_focus_during_a_menu_targets_the_restore_pane() {
    let mut app = App { state: Focus::Menu { prior: PaneFocus::Tree } };
    app.set_pane_focus(PaneFocus::Terminal);
    assert_eq!(app.state, Focus::Menu { prior: PaneFocus::Terminal });
    app.sync_modal(None);
    assert_eq!(app.state, Focus::Terminal, "menu closed onto the mux");
}

#[test]
fn set_pane_focus_when_not_modal_sets_the_state() {
    let mut app = App::new();
    app.set_pane_focus(PaneFocus::Terminal);
    assert_eq!(app.state, Focus::Terminal);
    app.set_pane_focus(PaneFocus::Tree);
    assert_eq!(app.state, Focus::Tree);
}

#[test]
fn focus_predicates_are_mutually_exclusive_and_exhaustive() {
    for state in [
        Focus::Tree,
        Focus::Terminal,
        Focus::Popup { prior: PaneFocus::Tree },
        Focus::Popup { prior: PaneFocus::Terminal },
        Focus::Menu { prior: PaneFocus::Tree },
        Focus::Menu { prior: PaneFocus::Terminal },
    ] {
        let app = App { state };
        let n = [app.is_tree_focused(), app.is_terminal_focused(), app.is_modal()]
            .into_iter()
            .filter(|&b| b)
            .count();
        assert_eq!(n, 1, "exactly one of tree/terminal/modal holds for {state:?}");
    }
    assert!(App { state: Focus::Tree }.is_tree_focused());
    assert!(App { state: Focus::Terminal }.is_terminal_focused());
    assert!(App { state: Focus::Popup { prior: PaneFocus::Tree } }.is_modal());
    assert!(App { state: Focus::Menu { prior: PaneFocus::Terminal } }.is_modal());
}

#[test]
fn pane_is_tree_reports_the_effective_pane() {
    assert!(App { state: Focus::Tree }.pane_is_tree());
    assert!(App { state: Focus::Popup { prior: PaneFocus::Tree } }.pane_is_tree());
    assert!(App { state: Focus::Menu { prior: PaneFocus::Tree } }.pane_is_tree());
    assert!(!App { state: Focus::Terminal }.pane_is_tree());
    assert!(!App { state: Focus::Popup { prior: PaneFocus::Terminal } }.pane_is_tree());
    assert!(!App { state: Focus::Menu { prior: PaneFocus::Terminal } }.pane_is_tree());
}

#[test]
fn semantic_actions_project_to_operations() {
    assert_eq!(Action::Quit.as_operation(), Some(Operation::Quit));
    assert_eq!(Action::Width(-1).as_operation(), Some(Operation::TreeWidth(-1)));
    assert_eq!(Action::ToggleAutoHide.as_operation(), Some(Operation::ToggleAutoHide));
    assert_eq!(
        Action::FocusMux.as_operation(),
        Some(Operation::Focus(FocusTarget::Terminal))
    );
    assert_eq!(
        Action::FocusTree(vec![]).as_operation(),
        Some(Operation::Focus(FocusTarget::Tree))
    );
}

#[test]
fn byte_and_render_actions_have_no_operation() {
    assert_eq!(Action::Forward(vec![1, 2]).as_operation(), None);
    assert_eq!(
        Action::ShowHelp.as_operation(),
        None,
        "help is a render toggle, not a domain op"
    );
    assert_eq!(
        Action::TreeKey(KeyEvent::new(KeyCode::Char('j'), KeyModifiers::none())).as_operation(),
        None,
    );
}
