//! The leaf values a mux answers with: how a session's death is detected, where
//! change events come from, and the tty of the display client.
use crate::text;
use vstd::prelude::*;

verus! {

/// How a host detects that a displayed session or attachment died.
#[derive(Clone, Copy, Debug, PartialEq, Eq, Structural)]
pub enum DeathSignal {
    /// The display PTY hit its end: the attachment dying is the session dying.
    Eof,
    /// A file per session; its disappearance means the session's server is gone.
    PathStat { dir_is_psmux_registry: bool },
    /// A control notice that names the detached client.
    ControlNotice,
}

/// Where a host's change events come from.
#[derive(Clone, Copy, Debug, PartialEq, Eq, Structural)]
pub enum EventSource {
    /// A live control-mode child pushes notices.
    Control,
    /// No push stream: the host is enumerated when something asks for it.
    Poll,
}

/// The tty of this program's own display client, where it is known.
#[derive(Clone, Debug, PartialEq, Eq)]
pub struct DisplayTty(pub Option<String>);

impl Default for DisplayTty {
    fn default() -> (d: DisplayTty)
        ensures
            d@ == None::<Seq<char>>,
    {
        DisplayTty(None)
    }
}

impl View for DisplayTty {
    type V = Option<Seq<char>>;

    open spec fn view(&self) -> Option<Seq<char>> {
        text::opt_text(self.0)
    }
}

/// Whether and how to move a host's one shared attachment to a session. Names no
/// transport: how it is run is for the transport to say.
#[derive(Clone, Debug, PartialEq, Eq)]
pub enum SwitchPlan {
    /// Move the shared client to this session.
    Switch { session: String },
    /// Each session has an attachment of its own: there is nothing to move.
    PerSessionNoOp,
}

/// A [`SwitchPlan`] with its text as a sequence.
pub enum SwitchPlanView {
    Switch { session: Seq<char> },
    PerSessionNoOp,
}

impl View for SwitchPlan {
    type V = SwitchPlanView;

    open spec fn view(&self) -> SwitchPlanView {
        match self {
            SwitchPlan::Switch { session } => SwitchPlanView::Switch { session: session@ },
            SwitchPlan::PerSessionNoOp => SwitchPlanView::PerSessionNoOp,
        }
    }
}

} // verus!
