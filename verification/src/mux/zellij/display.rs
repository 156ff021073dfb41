//! The display of zellij: one attachment per host, which is made anew whenever another
//! session is selected. A client cannot be moved from outside its session.
use crate::driver::{
    has_room, here, one_start, over_ssh, shown_under, started_argv, window_asked, CtxView,
    DriverCtx, MuxDriver,
};
use crate::model::selection::Selection;
use crate::model::transport::{transport_id, TransportView};
use crate::mux::attach_of;
use crate::mux::psmux::display::{on_demand_synced, reattach, reattached};
use crate::session::{Session, SessionView};
use crate::text;
use vstd::prelude::*;

verus! {

/// The driver of zellij.
pub struct ZellijDriver;

/// The state once a session was selected: an attachment that shows it is kept, any other
/// made anew; then the window is selected.
pub open spec fn zellij_shown(
    c: CtxView,
    source: Seq<char>,
    session: Seq<char>,
    window: Option<int>,
) -> CtxView {
    let h = c.hosts.map[source];
    let key = transport_id(h.transport);
    let next = if c.attached.dom().contains(key) && shown_under(h.display, key) == Some(session) {
        c
    } else {
        reattached(c, source, session)
    };
    match window {
        Some(w) => window_asked(next, source, session, w),
        None => next,
    }
}

impl MuxDriver for ZellijDriver {
    open spec fn drives(&self) -> Seq<char> {
        "zellij"@
    }

    open spec fn shown(
        &self,
        c: CtxView,
        source: Seq<char>,
        session: Seq<char>,
        window: Option<int>,
    ) -> CtxView {
        zellij_shown(c, source, session, window)
    }

    open spec fn synced(
        &self,
        c: CtxView,
        source: Seq<char>,
        sessions: Seq<SessionView>,
    ) -> CtxView {
        on_demand_synced(c, source, sessions)
    }

    fn kind(&self) -> (k: &str) {
        "zellij"
    }

    fn show(&mut self, sel: &Selection, ctx: &mut DriverCtx) -> (r: bool) {
        if sel.is_empty() {
            return false;
        }
        let source = sel.source.as_str();
        let session = sel.session.as_str();
        let on_it = match ctx.hosts.get(source) {
            None => {
                return false;
            },
            Some(host) => {
                let key = host.id();
                let shows = match host.display.shows(key) {
                    Some(s) => text::same(s, session),
                    None => false,
                };
                shows && ctx.registry.contains(key)
            },
        };
        if !on_it {
            reattach(ctx, source, session);
        }
        if let Some(w) = sel.window {
            ctx.request_window(source, session, w);
        }
        true
    }

    fn sync(&mut self, source: &str, sessions: &[Session], ctx: &mut DriverCtx) {
        if sessions.len() == 0 {
            ctx.drop_display(source);
        }
    }
}

// ---------------------------------------------------------------------------
// Laws
// ---------------------------------------------------------------------------

/// A client that was moved to the selected session, and is noted to be on it, is not
/// replaced.
pub proof fn followed_client_is_kept(c: CtxView, source: Seq<char>, session: Seq<char>)
    requires
        ({
            let h = c.hosts.map[source];
            let key = transport_id(h.transport);
            c.attached.dom().contains(key) && shown_under(h.display, key) == Some(session)
        }),
    ensures
        zellij_shown(c, source, session, None) == c,
{
}

/// Another session is reached by a new attachment, and in no other way; until it is
/// there, the old one stays.
pub proof fn another_session_reattaches(c: CtxView, source: Seq<char>, session: Seq<char>)
    requires
        c.hosts.map.dom().contains(source),
        shown_under(
            c.hosts.map[source].display,
            transport_id(c.hosts.map[source].transport),
        ) != Some(session),
    ensures
        ({
            let after = zellij_shown(c, source, session, None);
            let key = transport_id(c.hosts.map[source].transport);
            &&& after.actions.len() == c.actions.len() + 1
            &&& after.actions.last() is Attach
            &&& after.attached == c.attached
            &&& shown_under(after.hosts.map[source].display, key) == Some(session)
        }),
{
}

/// What is started on this machine is an attach of zellij to the selected session.
pub proof fn start_here_attaches_to_the_session(
    c: CtxView,
    source: Seq<char>,
    session: Seq<char>,
    socket: Option<Seq<char>>,
)
    requires
        c.hosts.map.dom().contains(source),
        has_room(c),
        c.hosts.map[source].transport == (TransportView::Local { socket }),
        c.hosts.map[source].mux.kind is Zellij,
        !c.attached.dom().contains(transport_id(c.hosts.map[source].transport)) || shown_under(
            c.hosts.map[source].display,
            transport_id(c.hosts.map[source].transport),
        ) != Some(session),
    ensures
        ({
            let after = zellij_shown(c, source, session, None);
            &&& one_start(c, after, source, "local"@, session)
            &&& started_argv(after) == here(
                socket,
                c.hosts.map[source].mux.bin,
                seq!["attach"@, session],
            )
        }),
{
    let h = c.hosts.map[source];
    let after = zellij_shown(c, source, session, None);
    let args = seq!["attach"@, session];
    assert(attach_of(h.mux, session).skip(1) =~= args);
    assert(started_argv(after) =~= here(socket, h.mux.bin, args));
}

/// What is started on another machine is run there by ssh, on a terminal, and is the same
/// attach.
pub proof fn start_there_attaches_to_the_session(
    c: CtxView,
    source: Seq<char>,
    session: Seq<char>,
    alias: Seq<char>,
    control_path: Seq<char>,
    os: Seq<char>,
)
    requires
        c.hosts.map.dom().contains(source),
        has_room(c),
        c.hosts.map[source].transport == (TransportView::Ssh { alias, control_path, os }),
        c.hosts.map[source].mux.kind is Zellij,
        !c.attached.dom().contains(transport_id(c.hosts.map[source].transport)) || shown_under(
            c.hosts.map[source].display,
            transport_id(c.hosts.map[source].transport),
        ) != Some(session),
    ensures
        ({
            let after = zellij_shown(c, source, session, None);
            &&& one_start(c, after, source, alias, session)
            &&& started_argv(after)[1] == "-t"@
            &&& over_ssh(
                started_argv(after),
                alias,
                seq![c.hosts.map[source].mux.bin] + seq!["attach"@, session],
            )
        }),
{
    let h = c.hosts.map[source];
    let words = attach_of(h.mux, session);
    crate::shell::command_reads_back(words);
    assert(words =~= seq![h.mux.bin] + seq!["attach"@, session]);
}

/// A window that is selected is asked for behind what shows its session.
pub proof fn selected_window_follows(
    c: CtxView,
    source: Seq<char>,
    session: Seq<char>,
    window: int,
)
    ensures
        ({
            let plain = zellij_shown(c, source, session, None);
            let after = zellij_shown(c, source, session, Some(window));
            &&& after.actions.drop_last() == plain.actions
            &&& after.actions.last() is SelectWindow
            &&& after.actions.last()->SelectWindow_source == source
            &&& after.actions.last()->SelectWindow_session == session
            &&& after.actions.last()->SelectWindow_window == window
            &&& after == (CtxView { actions: after.actions, ..plain })
        }),
{
    crate::driver::window_is_asked_for(zellij_shown(c, source, session, None), source, session, window);
}

} // verus!
