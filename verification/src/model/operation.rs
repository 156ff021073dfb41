//! The domain command that the key handlers and the control socket both resolve
//! to. An agent on the socket issues the same commands a key press does.
use crate::text;
use vstd::prelude::*;

verus! {

/// A domain command.
#[derive(Clone, Debug, PartialEq, Eq)]
pub enum Operation {
    /// Switch the display to this `source/session[:window]` address.
    Switch { address: String },
    /// Move focus between the tree sidebar and the terminal pane.
    Focus(FocusTarget),
    /// Enumerate every host again.
    Rescan,
    /// Adjust the tree width by a signed delta.
    TreeWidth(i32),
    /// Toggle auto-hide-tree mode.
    ToggleAutoHide,
    Quit,
}

/// The pane a focus command names.
#[derive(Clone, Copy, Debug, PartialEq, Eq, Structural)]
pub enum FocusTarget {
    Tree,
    Terminal,
}

impl FocusTarget {
    /// The pane that `s` names: `tree`, or `terminal` with its alias `mux`, with
    /// white space around it ignored.
    pub open spec fn named(s: Seq<char>) -> Option<FocusTarget> {
        if text::trimmed(s) == "tree"@ {
            Some(FocusTarget::Tree)
        } else if text::trimmed(s) == "terminal"@ || text::trimmed(s) == "mux"@ {
            Some(FocusTarget::Terminal)
        } else {
            None
        }
    }

    /// Reads the argument of the `focus` command.
    pub fn from_str(s: &str) -> (r: Option<FocusTarget>)
        ensures
            r == Self::named(s@),
    {
        let t = text::trim(s);
        if text::same(t.as_str(), "tree") {
            Some(FocusTarget::Tree)
        } else if text::same(t.as_str(), "terminal") || text::same(t.as_str(), "mux") {
            Some(FocusTarget::Terminal)
        } else {
            None
        }
    }
}

/// A pane is named by its word, with white space around it or not, and by no other.
pub proof fn panes_are_told_by_name(s: Seq<char>)
    ensures
        FocusTarget::named(s) == Some(FocusTarget::Tree) <==> text::trimmed(s) == "tree"@,
        FocusTarget::named(s) == Some(FocusTarget::Terminal) <==> text::trimmed(s) == "terminal"@
            || text::trimmed(s) == "mux"@,
{
    reveal_strlit("tree");
    reveal_strlit("terminal");
    reveal_strlit("mux");
    assert("tree"@.len() == 4 && "terminal"@.len() == 8 && "mux"@.len() == 3);
}

} // verus!
