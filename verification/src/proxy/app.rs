//! The focus state machine. Every state draws the same split; focus only chooses
//! where keys go. There are two dimensions: the pane (tree or terminal), and a
//! modal on top of it. A modal carries the pane it was opened from, so closing it
//! restores that pane and nothing else has to remember it.
use vstd::prelude::*;

verus! {

/// The two panes, the only targets a modal can restore.
#[derive(Debug, Clone, Copy, PartialEq, Eq, Structural)]
pub enum PaneFocus {
    Tree,
    Terminal,
}

/// Where keys go.
#[derive(Debug, Clone, Copy, PartialEq, Eq, Structural)]
pub enum Focus {
    /// Keys navigate the tree.
    Tree,
    /// Keys go to the selected session's active pane.
    Terminal,
    /// A popup owns the keys; `prior` is the pane to restore.
    Popup { prior: PaneFocus },
    /// The context menu owns input; `prior` is the pane to restore.
    Menu { prior: PaneFocus },
}

/// The kind of modal that is open.
#[derive(Debug, Clone, Copy, PartialEq, Eq, Structural)]
pub enum ModalKind {
    Popup,
    Menu,
}

/// The focus of the program.
pub struct App {
    pub state: Focus,
}

impl PaneFocus {
    /// The other pane.
    pub open spec fn other(self) -> PaneFocus {
        match self {
            PaneFocus::Tree => PaneFocus::Terminal,
            PaneFocus::Terminal => PaneFocus::Tree,
        }
    }

    /// The other pane.
    pub fn flip(self) -> (r: PaneFocus)
        ensures
            r == self.other(),
    {
        match self {
            PaneFocus::Tree => PaneFocus::Terminal,
            PaneFocus::Terminal => PaneFocus::Tree,
        }
    }
}

impl Focus {
    /// The pane in focus, or behind the modal.
    pub open spec fn pane(self) -> PaneFocus {
        match self {
            Focus::Tree => PaneFocus::Tree,
            Focus::Terminal => PaneFocus::Terminal,
            Focus::Popup { prior } => prior,
            Focus::Menu { prior } => prior,
        }
    }

    /// The modal that is open.
    pub open spec fn modal(self) -> Option<ModalKind> {
        match self {
            Focus::Tree | Focus::Terminal => None,
            Focus::Popup { .. } => Some(ModalKind::Popup),
            Focus::Menu { .. } => Some(ModalKind::Menu),
        }
    }

    /// The focus with this pane and this modal.
    pub open spec fn of(pane: PaneFocus, modal: Option<ModalKind>) -> Focus {
        match modal {
            None => match pane {
                PaneFocus::Tree => Focus::Tree,
                PaneFocus::Terminal => Focus::Terminal,
            },
            Some(ModalKind::Popup) => Focus::Popup { prior: pane },
            Some(ModalKind::Menu) => Focus::Menu { prior: pane },
        }
    }

    /// A focus is its pane and its modal, nothing more.
    pub proof fn is_pane_and_modal(self)
        ensures
            self == Focus::of(self.pane(), self.modal()),
    {
    }
}

impl App {
    /// Starts on the tree.
    pub fn new() -> (a: App)
        ensures
            a.state == Focus::Tree,
    {
        App { state: Focus::Tree }
    }

    /// True only on the bare tree pane, false during any modal.
    pub fn is_tree_focused(&self) -> (r: bool)
        ensures
            r == (self.state == Focus::Tree),
    {
        matches!(self.state, Focus::Tree)
    }

    /// True only on the bare terminal pane, false during any modal.
    pub fn is_terminal_focused(&self) -> (r: bool)
        ensures
            r == (self.state == Focus::Terminal),
    {
        matches!(self.state, Focus::Terminal)
    }

    /// True while a modal is open.
    pub fn is_modal(&self) -> (r: bool)
        ensures
            r == (self.state.modal() is Some),
    {
        matches!(self.state, Focus::Popup { .. } | Focus::Menu { .. })
    }

    /// Whether the pane in focus, or behind the modal, is the tree.
    pub fn pane_is_tree(&self) -> (r: bool)
        ensures
            r == (self.state.pane() == PaneFocus::Tree),
    {
        match self.state {
            Focus::Tree => true,
            Focus::Terminal => false,
            Focus::Popup { prior } | Focus::Menu { prior } => prior == PaneFocus::Tree,
        }
    }

    /// Flips the pane. A modal stays open and restores onto the flipped pane.
    pub fn toggle(&mut self)
        ensures
            final(self).state == Focus::of(old(self).state.pane().other(), old(self).state.modal()),
    {
        self.state = match self.state {
            Focus::Tree => Focus::Terminal,
            Focus::Terminal => Focus::Tree,
            Focus::Popup { prior } => Focus::Popup { prior: prior.flip() },
            Focus::Menu { prior } => Focus::Menu { prior: prior.flip() },
        };
    }

    /// Sets the pane. During a modal this is the pane it will restore.
    pub fn set_pane_focus(&mut self, p: PaneFocus)
        ensures
            final(self).state == Focus::of(p, old(self).state.modal()),
    {
        self.state = match self.state {
            Focus::Tree | Focus::Terminal => match p {
                PaneFocus::Tree => Focus::Tree,
                PaneFocus::Terminal => Focus::Terminal,
            },
            Focus::Popup { .. } => Focus::Popup { prior: p },
            Focus::Menu { .. } => Focus::Menu { prior: p },
        };
    }

    /// Derives the modal from what is open. Opening captures the pane, closing
    /// restores it, and a change of kind keeps it.
    pub fn sync_modal(&mut self, kind: Option<ModalKind>)
        ensures
            final(self).state == Focus::of(old(self).state.pane(), kind),
    {
        let pane = if self.pane_is_tree() {
            PaneFocus::Tree
        } else {
            PaneFocus::Terminal
        };
        self.state = match kind {
            None => match pane {
                PaneFocus::Tree => Focus::Tree,
                PaneFocus::Terminal => Focus::Terminal,
            },
            Some(ModalKind::Popup) => Focus::Popup { prior: pane },
            Some(ModalKind::Menu) => Focus::Menu { prior: pane },
        };
    }
}

impl Default for App {
    fn default() -> (a: App)
        ensures
            a.state == Focus::Tree,
    {
        App::new()
    }
}

// ---------------------------------------------------------------------------
// Laws of focus
// ---------------------------------------------------------------------------

/// Opening a modal and closing it again restores the pane it was opened from,
/// whatever modals came in between.
pub proof fn closing_restores_the_pane(s: Focus, first: Option<ModalKind>, then: Option<ModalKind>)
    ensures
        Focus::of(Focus::of(Focus::of(s.pane(), first).pane(), then).pane(), None) == Focus::of(
            s.pane(),
            None,
        ),
{
}

/// Deriving the modal again changes nothing: a modal that is held does not
/// capture the pane a second time.
pub proof fn sync_is_idempotent(s: Focus, kind: Option<ModalKind>)
    ensures
        Focus::of(Focus::of(s.pane(), kind).pane(), kind) == Focus::of(s.pane(), kind),
{
}

/// A flip while a modal is open is a flip of what closing it restores.
pub proof fn flip_under_a_modal(s: Focus, kind: ModalKind)
    ensures
        ({
            let open = Focus::of(s.pane(), Some(kind));
            let flipped = Focus::of(open.pane().other(), open.modal());
            &&& flipped.modal() == Some(kind)
            &&& Focus::of(flipped.pane(), None) == Focus::of(s.pane().other(), None)
        }),
{
}

/// Flipping twice changes nothing.
pub proof fn flip_is_an_involution(s: Focus)
    ensures
        ({
            let once = Focus::of(s.pane().other(), s.modal());
            Focus::of(once.pane().other(), once.modal()) == s
        }),
{
}

/// Exactly one of the three holds of every state: the bare tree, the bare
/// terminal, a modal.
pub proof fn focus_is_one_of_three(s: Focus)
    ensures
        s == Focus::Tree || s == Focus::Terminal || s.modal() is Some,
        !(s == Focus::Tree && s == Focus::Terminal),
        s.modal() is Some ==> s != Focus::Tree && s != Focus::Terminal,
{
}

/// The pane and the modal of each state are those it is named after, and a pane with a modal
/// is the state that is named after them.
pub proof fn states_are_named_after_what_they_show(prior: PaneFocus)
    ensures
        Focus::Tree.pane() == PaneFocus::Tree && Focus::Tree.modal() is None,
        Focus::Terminal.pane() == PaneFocus::Terminal && Focus::Terminal.modal() is None,
        (Focus::Popup { prior }).pane() == prior,
        (Focus::Popup { prior }).modal() == Some(ModalKind::Popup),
        (Focus::Menu { prior }).pane() == prior,
        (Focus::Menu { prior }).modal() == Some(ModalKind::Menu),
        Focus::of(PaneFocus::Tree, None) == Focus::Tree,
        Focus::of(PaneFocus::Terminal, None) == Focus::Terminal,
        Focus::of(prior, Some(ModalKind::Popup)) == (Focus::Popup { prior }),
        Focus::of(prior, Some(ModalKind::Menu)) == (Focus::Menu { prior }),
        PaneFocus::Tree.other() == PaneFocus::Terminal,
        PaneFocus::Terminal.other() == PaneFocus::Tree,
{
}

} // verus!
