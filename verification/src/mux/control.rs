//! The control-mode (`-CC`) protocol that a mux with a control stream speaks: what a
//! notification means, and the command lines it takes.
use crate::link::{HostEvent, HostEventView};
use crate::mux::vocab::{quote_target, target_text, PANE_FORMAT, SESSION_FORMAT};
use crate::proxy::control_proto::{self, line_of, size_line, Line, Notif, NotifView};
use crate::text;
use vstd::prelude::*;

verus! {

/// The event that a notification of `host` triggers, if it triggers one. A change of
/// the structure has everything read again; a change of a session's active window is
/// passed on with the ids that it names; the end carries its own reason, or else the
/// text of the last error. `client` is the client that a detach names.
pub open spec fn notif_event_of(
    host: Seq<char>,
    notif: NotifView,
    client: Seq<char>,
    last_error: Option<Seq<char>>,
) -> Option<HostEventView> {
    match notif {
        NotifView::SessionsChanged => Some(HostEventView::Changed { host }),
        NotifView::WindowAdd { .. } => Some(HostEventView::Changed { host }),
        NotifView::WindowClose { .. } => Some(HostEventView::Changed { host }),
        NotifView::WindowRenamed { .. } => Some(HostEventView::Changed { host }),
        NotifView::SessionWindowChanged { session, window } => Some(
            HostEventView::ActiveWindowChanged { host, session_id: session, window_id: window },
        ),
        NotifView::Exit { reason } => Some(
            HostEventView::Exited {
                host,
                reason: if reason is Some {
                    reason
                } else {
                    last_error
                },
            },
        ),
        NotifView::ClientDetached => Some(HostEventView::ClientDetached { host, client }),
        NotifView::SessionChanged { .. } => None,
        NotifView::WindowPaneChanged { .. } => None,
        NotifView::LayoutChange { .. } => None,
        NotifView::Pause { .. } => None,
        NotifView::Continue { .. } => None,
        NotifView::Other => None,
    }
}

/// The control-mode protocol of tmux. It keeps no state.
pub trait ControlProtocol {
    /// Classifies one line of control-mode output by shape.
    fn classify<'a>(&self, line: &'a str) -> (r: Line<'a>)
        ensures
            r@ == line_of(line@),
    ;

    /// The event that a notification triggers.
    fn notif_event(
        &self,
        host: &str,
        notif: Notif<'_>,
        client: &str,
        last_error: &Option<String>,
    ) -> (r: Option<HostEvent>)
        ensures
            match r {
                Some(e) => notif_event_of(host@, notif@, client@, text::opt_text(*last_error))
                    == Some(e@),
                None => notif_event_of(host@, notif@, client@, text::opt_text(*last_error)) is None,
            },
    ;

    /// The lines that are sent on connecting, in order: the pane output is not wanted,
    /// for each attached client draws its own.
    fn connect_lines(&self) -> (v: Vec<String>)
        ensures
            text::texts(v@) == seq!["refresh-client -f no-output\n"@],
    ;

    /// Lists the sessions. The format holds tabs, and stands in quotes.
    fn list_sessions_line(&self) -> (s: String)
        ensures
            s@ == "list-sessions -F '"@ + SESSION_FORMAT@ + "'\n"@,
    ;

    /// Lists the panes of `session`.
    fn list_panes_line(&self, session: &str) -> (s: String)
        ensures
            s@ == "list-panes -s -t "@ + target_text(session@) + " -F '"@ + PANE_FORMAT@ + "'\n"@,
    ;

    /// Prints the name of a session and the index of its active window.
    fn active_window_line(&self, target: &str) -> (s: String)
        ensures
            s@ == "display-message -p -t "@ + target_text(target@)
                + " '#{session_name}\t#{window_index}'\n"@,
    ;

    /// Makes the window `target` the active one.
    fn select_window_line(&self, target: &str) -> (s: String)
        ensures
            s@ == "select-window -t "@ + target_text(target@) + "\n"@,
    ;

    /// Moves the client on `display_tty` to `session`.
    fn switch_client_line(&self, display_tty: &str, session: &str) -> (s: String)
        ensures
            s@ == "switch-client -c "@ + display_tty@ + " -t "@ + target_text(session@) + "\n"@,
    ;

    /// Has the client on `display_tty` drawn anew.
    fn refresh_client_line(&self, display_tty: &str) -> (s: String)
        ensures
            s@ == "refresh-client -t "@ + display_tty@ + "\n"@,
    ;

    /// Gives the client a size.
    fn size_line(&self, cols: u16, rows: u16) -> (s: String)
        ensures
            s@ == size_line(cols, rows),
    ;

    /// Lists the clients by tty, with their flags.
    fn display_clients_line(&self) -> (s: String)
        ensures
            s@ == "list-clients -F '#{client_tty} #{client_flags}'\n"@,
    ;
}

/// The control-mode protocol of tmux.
#[derive(Clone, Copy, Debug, PartialEq, Eq, Structural)]
pub struct TmuxControl;

impl ControlProtocol for TmuxControl {
    fn classify<'a>(&self, line: &'a str) -> (r: Line<'a>) {
        control_proto::classify(line)
    }

    fn notif_event(
        &self,
        host: &str,
        notif: Notif<'_>,
        client: &str,
        last_error: &Option<String>,
    ) -> (r: Option<HostEvent>) {
        match notif {
            Notif::SessionsChanged => Some(HostEvent::Changed { host: host.to_owned() }),
            Notif::WindowAdd { .. } => Some(HostEvent::Changed { host: host.to_owned() }),
            Notif::WindowClose { .. } => Some(HostEvent::Changed { host: host.to_owned() }),
            Notif::WindowRenamed { .. } => Some(HostEvent::Changed { host: host.to_owned() }),
            Notif::SessionWindowChanged { session, window } => Some(
                HostEvent::ActiveWindowChanged {
                    host: host.to_owned(),
                    session_id: session.to_owned(),
                    window_id: window.to_owned(),
                },
            ),
            Notif::Exit { reason } => {
                let why = match reason {
                    Some(r) => Some(r.to_owned()),
                    None => match last_error {
                        Some(e) => Some(e.clone()),
                        None => None,
                    },
                };
                Some(HostEvent::Exited { host: host.to_owned(), reason: why })
            },
            Notif::ClientDetached => Some(
                HostEvent::ClientDetached { host: host.to_owned(), client: client.to_owned() },
            ),
            Notif::SessionChanged { .. } => None,
            Notif::WindowPaneChanged { .. } => None,
            Notif::LayoutChange { .. } => None,
            Notif::Pause { .. } => None,
            Notif::Continue { .. } => None,
            Notif::Other => None,
        }
    }

    fn connect_lines(&self) -> (v: Vec<String>) {
        let mut v: Vec<String> = Vec::new();
        v.push("refresh-client -f no-output\n".to_owned());
        proof {
            assert(text::texts(v@) =~= seq!["refresh-client -f no-output\n"@]);
        }
        v
    }

    fn list_sessions_line(&self) -> (s: String) {
        let mut s = "list-sessions -F '".to_owned();
        s.append(SESSION_FORMAT);
        s.append("'\n");
        s
    }

    fn list_panes_line(&self, session: &str) -> (s: String) {
        let mut s = "list-panes -s -t ".to_owned();
        s.append(quote_target(session).as_str());
        s.append(" -F '");
        s.append(PANE_FORMAT);
        s.append("'\n");
        s
    }

    fn active_window_line(&self, target: &str) -> (s: String) {
        let mut s = "display-message -p -t ".to_owned();
        s.append(quote_target(target).as_str());
        s.append(" '#{session_name}\t#{window_index}'\n");
        s
    }

    fn select_window_line(&self, target: &str) -> (s: String) {
        let mut s = "select-window -t ".to_owned();
        s.append(quote_target(target).as_str());
        s.append("\n");
        s
    }

    fn switch_client_line(&self, display_tty: &str, session: &str) -> (s: String) {
        let mut s = "switch-client -c ".to_owned();
        s.append(display_tty);
        s.append(" -t ");
        s.append(quote_target(session).as_str());
        s.append("\n");
        s
    }

    fn refresh_client_line(&self, display_tty: &str) -> (s: String) {
        let mut s = "refresh-client -t ".to_owned();
        s.append(display_tty);
        s.append("\n");
        s
    }

    fn size_line(&self, cols: u16, rows: u16) -> (s: String) {
        control_proto::refresh_size_line(cols, rows)
    }

    fn display_clients_line(&self) -> (s: String) {
        "list-clients -F '#{client_tty} #{client_flags}'\n".to_owned()
    }
}

/// Why a connection has ended is said where it is known: the end names its own
/// reason, or else the last error, and is silent only if there is neither.
pub proof fn end_names_its_reason(
    host: Seq<char>,
    reason: Option<Seq<char>>,
    client: Seq<char>,
    last_error: Option<Seq<char>>,
)
    requires
        reason is Some || last_error is Some,
    ensures
        notif_event_of(host, NotifView::Exit { reason }, client, last_error) matches Some(
            HostEventView::Exited { reason: said, .. },
        ) && said is Some,
{
}

/// A change of the structure has the host read again; another active window, the end of the
/// stream and a detached client are passed on as they were told; the rest is for others.
pub proof fn notices_become_their_events(
    host: Seq<char>,
    notif: NotifView,
    client: Seq<char>,
    last_error: Option<Seq<char>>,
)
    ensures
        ({
            let e = notif_event_of(host, notif, client, last_error);
            &&& (notif is SessionsChanged || notif is WindowAdd || notif is WindowClose
                || notif is WindowRenamed) <==> e == Some(HostEventView::Changed { host })
            &&& notif matches NotifView::SessionWindowChanged { session, window } ==> e == Some(
                HostEventView::ActiveWindowChanged {
                    host,
                    session_id: session,
                    window_id: window,
                },
            )
            &&& notif is ClientDetached ==> e == Some(
                HostEventView::ClientDetached { host, client },
            )
            &&& notif == (NotifView::Exit { reason: None }) ==> e == Some(
                HostEventView::Exited { host, reason: last_error },
            )
            &&& notif matches NotifView::Exit { reason } ==> (reason is Some ==> e == Some(
                HostEventView::Exited { host, reason },
            ))
            &&& (notif is SessionChanged || notif is WindowPaneChanged || notif is LayoutChange
                || notif is Pause || notif is Continue || notif is Other) ==> e is None
        }),
{
}

} // verus!
