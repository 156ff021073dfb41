//! The display of psmux: one attachment per host, which is made anew whenever another
//! session is selected.
use crate::driver::{
    asked, attach_argv, attach_words, has_room, here, let_go, one_start, over_ssh, started_argv,
    window_asked, with_display, with_shown, CtxView, DriverCtx, MuxDriver,
};
use crate::model::host::cleared;
use crate::model::selection::Selection;
use crate::model::transport::{transport_id, TransportView};
use crate::mux::attach_of;
use crate::session::{Session, SessionView};
use crate::text;
use vstd::prelude::*;

verus! {

/// The driver of psmux.
pub struct PsmuxDriver;

/// Whether the live client is left as it is: only where it reports itself that it is on
/// the session that is selected. What was noted of it cannot tell, for psmux may have
/// moved it since.
pub fn holds_the_live_client(reported: Option<&str>, selected: &str) -> (r: bool)
    ensures
        r == (text::opt_str(reported) == Some(selected@)),
{
    match reported {
        Some(s) => text::same(s, selected),
        None => false,
    }
}

/// The state once a session is attached to anew: what was known of the key is forgotten,
/// and an attachment asked for. What is attached stays until it is there.
pub open spec fn reattached(c: CtxView, source: Seq<char>, session: Seq<char>) -> CtxView {
    let h = c.hosts.map[source];
    let key = transport_id(h.transport);
    asked(
        with_display(c, source, cleared(h.display, key)),
        source,
        key,
        attach_words(h, session),
        session,
    )
}

/// The state once a session was selected: a client that reports to be on it is held, any
/// other attached anew; then the window is selected.
pub open spec fn psmux_shown(
    c: CtxView,
    source: Seq<char>,
    session: Seq<char>,
    window: Option<int>,
) -> CtxView {
    let key = transport_id(c.hosts.map[source].transport);
    let next = if c.reported == Some(session) {
        with_shown(c, source, key, session)
    } else {
        reattached(c, source, session)
    };
    match window {
        Some(w) => window_asked(next, source, session, w),
        None => next,
    }
}

/// The state once the sessions of a source are known: nothing is attached for them, and
/// where there is none, the attachment is let go.
pub open spec fn on_demand_synced(
    c: CtxView,
    source: Seq<char>,
    sessions: Seq<SessionView>,
) -> CtxView {
    if sessions.len() == 0 {
        let_go(c, source)
    } else {
        c
    }
}

/// Asks for a session to be attached to anew.
pub fn reattach(ctx: &mut DriverCtx, source: &str, session: &str)
    requires
        has_room(old(ctx)@),
        old(ctx)@.hosts.map.dom().contains(source@),
    ensures
        final(ctx)@ == reattached(old(ctx)@, source@, session@),
{
    let ghost was = ctx@;
    if let Some(host) = ctx.hosts.get(source) {
        let key = host.id().to_owned();
        let argv = attach_argv(host, session);
        ctx.forget(source, key.as_str());
        ctx.request_attach(source, key.as_str(), argv, session);
    }
}

impl MuxDriver for PsmuxDriver {
    open spec fn drives(&self) -> Seq<char> {
        "psmux"@
    }

    open spec fn shown(
        &self,
        c: CtxView,
        source: Seq<char>,
        session: Seq<char>,
        window: Option<int>,
    ) -> CtxView {
        psmux_shown(c, source, session, window)
    }

    open spec fn synced(
        &self,
        c: CtxView,
        source: Seq<char>,
        sessions: Seq<SessionView>,
    ) -> CtxView {
        on_demand_synced(c, source, sessions)
    }

    fn kind(&self) -> (k: &str) {
        "psmux"
    }

    fn show(&mut self, sel: &Selection, ctx: &mut DriverCtx) -> (r: bool) {
        if sel.is_empty() {
            return false;
        }
        let source = sel.source.as_str();
        let session = sel.session.as_str();
        let key = match ctx.hosts.get(source) {
            None => {
                return false;
            },
            Some(host) => host.id().to_owned(),
        };
        let reported = match &ctx.reported {
            Some(s) => Some(s.as_str()),
            None => None,
        };
        if holds_the_live_client(reported, session) {
            ctx.note_shown(source, key.as_str(), session);
        } else {
            reattach(ctx, source, session);
        }
        if let Some(w) = sel.window {
            ctx.request_window(source, session, w);
        }
        true
    }

    fn sync(&mut self, source: &str, sessions: &[Session], ctx: &mut DriverCtx) {
        if sessions.len() == 0 {
            ctx.drop_display(source);
        }
    }
}

// ---------------------------------------------------------------------------
// Laws
// ---------------------------------------------------------------------------

/// Without a report from the client itself, or with one of another session, every
/// selection attaches anew, whatever was noted; the display cannot get stuck on a client
/// that is not there.
pub proof fn no_report_reattaches(c: CtxView, source: Seq<char>, session: Seq<char>)
    requires
        c.reported != Some(session),
    ensures
        psmux_shown(c, source, session, None).actions.len() == c.actions.len() + 1,
        psmux_shown(c, source, session, None).actions.last() is Attach,
{
}

/// A client that reports to be on the selected session is not replaced, and what it
/// reports is noted.
pub proof fn reported_client_is_held(c: CtxView, source: Seq<char>, session: Seq<char>)
    requires
        c.reported == Some(session),
        c.hosts.map.dom().contains(source),
    ensures
        ({
            let after = psmux_shown(c, source, session, None);
            let key = transport_id(c.hosts.map[source].transport);
            &&& after.actions == c.actions
            &&& after.attached == c.attached
            &&& after.hosts.map[source].display.current.dom().contains(key)
            &&& after.hosts.map[source].display.current[key] == session
        }),
{
}

/// What is attached stays on the screen while the next is on its way.
pub proof fn reattaching_keeps_what_is_attached(
    c: CtxView,
    source: Seq<char>,
    session: Seq<char>,
    window: Option<int>,
)
    ensures
        psmux_shown(c, source, session, window).attached == c.attached,
        psmux_shown(c, source, session, window).order == c.order,
{
}

/// Sessions that are listed have nothing attached for them: only a selection does that.
pub proof fn listing_attaches_nothing(c: CtxView, source: Seq<char>, sessions: Seq<SessionView>)
    ensures
        on_demand_synced(c, source, sessions).actions == c.actions,
        sessions.len() > 0 ==> on_demand_synced(c, source, sessions) == c,
        sessions.len() == 0 ==> !on_demand_synced(c, source, sessions).attached.dom().contains(
            source,
        ),
{
}

/// What is started on this machine is the psmux of the selected session: the one that runs,
/// or a new one of that name.
pub proof fn start_here_attaches_to_the_session(
    c: CtxView,
    source: Seq<char>,
    session: Seq<char>,
    socket: Option<Seq<char>>,
)
    requires
        c.hosts.map.dom().contains(source),
        has_room(c),
        c.hosts.map[source].transport == (TransportView::Local { socket }),
        c.hosts.map[source].mux.kind is Psmux,
        c.reported != Some(session),
    ensures
        ({
            let after = psmux_shown(c, source, session, None);
            &&& one_start(c, after, source, "local"@, session)
            &&& started_argv(after) == here(
                socket,
                c.hosts.map[source].mux.bin,
                seq!["new-session"@, "-A"@, "-s"@, session],
            )
        }),
{
    let h = c.hosts.map[source];
    let after = psmux_shown(c, source, session, None);
    let args = seq!["new-session"@, "-A"@, "-s"@, session];
    assert(attach_of(h.mux, session).skip(1) =~= args);
    assert(started_argv(after) =~= here(socket, h.mux.bin, args));
}

/// What is started on another machine is run there by ssh, on a terminal, and is the same
/// attach.
pub proof fn start_there_attaches_to_the_session(
    c: CtxView,
    source: Seq<char>,
    session: Seq<char>,
    alias: Seq<char>,
    control_path: Seq<char>,
    os: Seq<char>,
)
    requires
        c.hosts.map.dom().contains(source),
        has_room(c),
        c.hosts.map[source].transport == (TransportView::Ssh { alias, control_path, os }),
        c.hosts.map[source].mux.kind is Psmux,
        c.reported != Some(session),
    ensures
        ({
            let after = psmux_shown(c, source, session, None);
            &&& one_start(c, after, source, alias, session)
            &&& started_argv(after)[1] == "-t"@
            &&& over_ssh(
                started_argv(after),
                alias,
                seq![c.hosts.map[source].mux.bin] + seq!["new-session"@, "-A"@, "-s"@, session],
            )
        }),
{
    let h = c.hosts.map[source];
    let words = attach_of(h.mux, session);
    crate::shell::command_reads_back(words);
    assert(words =~= seq![h.mux.bin] + seq!["new-session"@, "-A"@, "-s"@, session]);
}

/// A window that is selected is asked for behind what shows its session.
pub proof fn selected_window_follows(
    c: CtxView,
    source: Seq<char>,
    session: Seq<char>,
    window: int,
)
    ensures
        ({
            let plain = psmux_shown(c, source, session, None);
            let after = psmux_shown(c, source, session, Some(window));
            &&& after.actions.drop_last() == plain.actions
            &&& after.actions.last() is SelectWindow
            &&& after.actions.last()->SelectWindow_source == source
            &&& after.actions.last()->SelectWindow_session == session
            &&& after.actions.last()->SelectWindow_window == window
            &&& after == (CtxView { actions: after.actions, ..plain })
        }),
{
    crate::driver::window_is_asked_for(psmux_shown(c, source, session, None), source, session, window);
}

} // verus!
