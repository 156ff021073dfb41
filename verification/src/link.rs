//! What the readers of the hosts report.
use crate::session::{session_views, Session, SessionView};
use crate::text;
use vstd::prelude::*;

verus! {

/// An event of one host.
#[derive(Clone, Debug, PartialEq, Eq)]
pub enum HostEvent {
    /// The control connection stands.
    Connected { host: String },
    /// The inventory was read.
    Inventory { host: String },
    /// The control connection has ended.
    Exited { host: String, reason: Option<String> },
    /// Sessions or windows came, went or were renamed.
    Changed { host: String },
    /// Another window is the active one of a session; both by id.
    ActiveWindowChanged { host: String, session_id: String, window_id: String },
    /// The active window of a session, by name and index.
    Focus { host: String, session: String, window: i64 },
    /// A client has detached.
    ClientDetached { host: String, client: String },
    /// The tty of this program's own client, where it is known.
    DisplayTty { host: String, tty: Option<String> },
    /// The mux of a polled host was probed.
    Scanned { source: String },
    /// The sessions of a polled host, or why there are none to show.
    Sessions { source: String, sessions: Vec<Session>, err: Option<String> },
    /// The panes of a session of a polled host were read.
    Panes { source: String, session: String },
}

/// A [`HostEvent`] with its texts as sequences.
pub enum HostEventView {
    Connected { host: Seq<char> },
    Inventory { host: Seq<char> },
    Exited { host: Seq<char>, reason: Option<Seq<char>> },
    Changed { host: Seq<char> },
    ActiveWindowChanged { host: Seq<char>, session_id: Seq<char>, window_id: Seq<char> },
    Focus { host: Seq<char>, session: Seq<char>, window: int },
    ClientDetached { host: Seq<char>, client: Seq<char> },
    DisplayTty { host: Seq<char>, tty: Option<Seq<char>> },
    Scanned { source: Seq<char> },
    Sessions { source: Seq<char>, sessions: Seq<SessionView>, err: Option<Seq<char>> },
    Panes { source: Seq<char>, session: Seq<char> },
}

impl View for HostEvent {
    type V = HostEventView;

    open spec fn view(&self) -> HostEventView {
        match self {
            HostEvent::Connected { host } => HostEventView::Connected { host: host@ },
            HostEvent::Inventory { host } => HostEventView::Inventory { host: host@ },
            HostEvent::Exited { host, reason } => HostEventView::Exited {
                host: host@,
                reason: text::opt_text(*reason),
            },
            HostEvent::Changed { host } => HostEventView::Changed { host: host@ },
            HostEvent::ActiveWindowChanged { host, session_id, window_id } =>
                HostEventView::ActiveWindowChanged {
                    host: host@,
                    session_id: session_id@,
                    window_id: window_id@,
                },
            HostEvent::Focus { host, session, window } => HostEventView::Focus {
                host: host@,
                session: session@,
                window: *window as int,
            },
            HostEvent::ClientDetached { host, client } => HostEventView::ClientDetached {
                host: host@,
                client: client@,
            },
            HostEvent::DisplayTty { host, tty } => HostEventView::DisplayTty {
                host: host@,
                tty: text::opt_text(*tty),
            },
            HostEvent::Scanned { source } => HostEventView::Scanned { source: source@ },
            HostEvent::Sessions { source, sessions, err } => HostEventView::Sessions {
                source: source@,
                sessions: session_views(sessions@),
                err: text::opt_text(*err),
            },
            HostEvent::Panes { source, session } => HostEventView::Panes {
                source: source@,
                session: session@,
            },
        }
    }
}

} // verus!
