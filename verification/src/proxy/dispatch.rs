//! The vocabulary that raw input resolves into. An input surface turns bytes
//! into a list of [`Action`]s and one loop applies them, so that reading input
//! has no effect of its own.
use crate::model::operation::{FocusTarget, Operation};
use crate::proxy::key::KeyEvent;
use vstd::prelude::*;

verus! {

/// What a piece of input asks for.
#[derive(Debug, PartialEq)]
pub enum Action {
    /// Raw bytes for the focused session's active pane.
    Forward(Vec<u8>),
    /// Move focus back to the tree. The bytes that followed the command in the
    /// same read belong to the tree.
    FocusTree(Vec<u8>),
    /// Move focus to the mux pane.
    FocusMux,
    /// A key for the tree.
    TreeKey(KeyEvent),
    /// Quit.
    Quit,
    /// Toggle the keys help overlay. Focus stays on the mux pane.
    ShowHelp,
    /// Adjust the tree width by this signed delta.
    Width(i32),
    /// Toggle auto-hide-tree mode.
    ToggleAutoHide,
}

/// An [`Action`] with its bytes as a sequence.
pub enum ActionView {
    Forward(Seq<u8>),
    FocusTree(Seq<u8>),
    FocusMux,
    TreeKey(KeyEvent),
    Quit,
    ShowHelp,
    Width(int),
    ToggleAutoHide,
}

impl View for Action {
    type V = ActionView;

    open spec fn view(&self) -> ActionView {
        match self {
            Action::Forward(b) => ActionView::Forward(b@),
            Action::FocusTree(b) => ActionView::FocusTree(b@),
            Action::FocusMux => ActionView::FocusMux,
            Action::TreeKey(k) => ActionView::TreeKey(*k),
            Action::Quit => ActionView::Quit,
            Action::ShowHelp => ActionView::ShowHelp,
            Action::Width(d) => ActionView::Width(*d as int),
            Action::ToggleAutoHide => ActionView::ToggleAutoHide,
        }
    }
}

/// The views of a sequence of actions.
pub open spec fn action_views(v: Seq<Action>) -> Seq<ActionView> {
    v.map_values(|a: Action| a@)
}

impl Action {
    /// The domain command of an action. What carries bytes or only changes what
    /// is drawn has none; leaving for the tree is a focus command whatever bytes
    /// go with it.
    pub open spec fn operation_of(a: ActionView) -> Option<Operation> {
        match a {
            ActionView::Quit => Some(Operation::Quit),
            ActionView::Width(d) => Some(Operation::TreeWidth(d as i32)),
            ActionView::ToggleAutoHide => Some(Operation::ToggleAutoHide),
            ActionView::FocusMux => Some(Operation::Focus(FocusTarget::Terminal)),
            ActionView::FocusTree(_) => Some(Operation::Focus(FocusTarget::Tree)),
            ActionView::Forward(_) | ActionView::ShowHelp | ActionView::TreeKey(_) => None,
        }
    }

    /// The domain command this action carries, if it is a semantic one.
    pub fn as_operation(&self) -> (r: Option<Operation>)
        ensures
            r == Self::operation_of(self@),
    {
        match self {
            Action::Quit => Some(Operation::Quit),
            Action::Width(d) => Some(Operation::TreeWidth(*d)),
            Action::ToggleAutoHide => Some(Operation::ToggleAutoHide),
            Action::FocusMux => Some(Operation::Focus(FocusTarget::Terminal)),
            Action::FocusTree(_) => Some(Operation::Focus(FocusTarget::Tree)),
            Action::Forward(_) | Action::ShowHelp | Action::TreeKey(_) => None,
        }
    }
}

/// An action is a domain command exactly where a key and the control socket both can give it:
/// what carries bytes, and what only changes what is drawn, is none.
pub proof fn actions_are_their_commands(d: i32, bytes: Seq<u8>, k: KeyEvent)
    ensures
        Action::operation_of(ActionView::Quit) == Some(Operation::Quit),
        Action::operation_of(ActionView::Width(d as int)) == Some(Operation::TreeWidth(d)),
        Action::operation_of(ActionView::ToggleAutoHide) == Some(Operation::ToggleAutoHide),
        Action::operation_of(ActionView::FocusMux) == Some(
            Operation::Focus(FocusTarget::Terminal),
        ),
        Action::operation_of(ActionView::FocusTree(bytes)) == Some(
            Operation::Focus(FocusTarget::Tree),
        ),
        Action::operation_of(ActionView::Forward(bytes)) is None,
        Action::operation_of(ActionView::ShowHelp) is None,
        Action::operation_of(ActionView::TreeKey(k)) is None,
{
}

} // verus!
