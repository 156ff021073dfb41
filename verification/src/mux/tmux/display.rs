//! The display of tmux: one client per host, which is moved from session to session.
use crate::driver::{
    asked, attach_argv, attach_words, beside_the_display, has_room, here, let_go, move_argv,
    move_words, one_start, over_ssh, shown_under, started_argv, whole, window_asked, with_shown,
    ActionView, CtxView, DriverCtx, MuxDriver,
};
use crate::model::host::{prepend, Host};
use crate::model::selection::Selection;
use crate::model::transport::{interactive_words, transport_id, TransportView};
use crate::mux::tmux::{record_prefix, recording, tty_path};
use crate::mux::{attach_of, Mux};
use crate::session::{session_views, Session, SessionView, LOCAL_SOURCE};
use crate::text;
use vstd::prelude::*;

verus! {

/// The driver of tmux.
pub struct TmuxDriver;

/// An attach that runs through a shell, with the record of its own tty in front of its
/// command, which is the last word. Any other is left as it is.
pub open spec fn recorded(argv: Seq<Seq<char>>, by_shell: bool, key: Seq<char>) -> Seq<Seq<char>> {
    if by_shell && argv.len() > 0 {
        argv.update(argv.len() - 1, recording(key) + argv.last())
    } else {
        argv
    }
}

/// An attach with the record of its own tty, where it runs through a shell.
pub fn with_display_tty_record(argv: Vec<String>, host: &Host, host_key: &str) -> (v: Vec<String>)
    ensures
        text::texts(v@) == recorded(text::texts(argv@), host@.transport is Ssh, host_key@),
{
    let mut v = argv;
    if host.transport.runs_through_shell() && v.len() > 0 {
        let n: usize = v.len();
        let ghost was = v@;
        let mut line = record_prefix(host_key);
        line.append(v[n - 1].as_str());
        v.set(n - 1, line);
        proof {
            assert(text::texts(v@) =~= recorded(text::texts(was), true, host_key@));
        }
    }
    v
}

/// The state once a session was selected: the first is attached; another has the client
/// moved in place, or, where that cannot be, attached anew. A start that is under way is
/// not repeated. Then the window is selected, unless the first attach was just asked for.
pub open spec fn tmux_shown(
    c: CtxView,
    source: Seq<char>,
    session: Seq<char>,
    window: Option<int>,
) -> CtxView {
    let h = c.hosts.map[source];
    let key = transport_id(h.transport);
    let argv = recorded(attach_words(h, session), h.transport is Ssh, key);
    let starting = h.display.in_flight.dom().contains(key);
    let attached = c.attached.dom().contains(key);
    let on_it = shown_under(h.display, key) == Some(session);
    let attach = if starting {
        c
    } else {
        asked(c, source, key, argv, session)
    };
    let next = if !attached {
        attach
    } else if on_it {
        c
    } else {
        match move_words(h, key, session) {
            Some(words) => with_shown(
                CtxView { actions: c.actions.push(ActionView::Run { argv: words }), ..c },
                source,
                key,
                session,
            ),
            None => attach,
        }
    };
    match window {
        Some(w) => if attached || starting {
            window_asked(next, source, session, w)
        } else {
            next
        },
        None => next,
    }
}

/// The state once the sessions of a source are known: the first is attached, where
/// nothing is and nothing is being; where there is none, the attachment is let go.
pub open spec fn tmux_synced(c: CtxView, source: Seq<char>, sessions: Seq<SessionView>) -> CtxView {
    if !c.hosts.map.dom().contains(source) {
        c
    } else if sessions.len() == 0 {
        let_go(c, source)
    } else {
        let h = c.hosts.map[source];
        if c.attached.dom().contains(source) || h.display.in_flight.dom().contains(source) {
            c
        } else {
            let words = whole(interactive_words(h.transport, attach_of(h.mux, sessions[0].name), None));
            asked(
                c,
                source,
                source,
                recorded(words, h.transport is Ssh, source),
                sessions[0].name,
            )
        }
    }
}

impl MuxDriver for TmuxDriver {
    open spec fn drives(&self) -> Seq<char> {
        "tmux"@
    }

    open spec fn shown(
        &self,
        c: CtxView,
        source: Seq<char>,
        session: Seq<char>,
        window: Option<int>,
    ) -> CtxView {
        tmux_shown(c, source, session, window)
    }

    open spec fn synced(
        &self,
        c: CtxView,
        source: Seq<char>,
        sessions: Seq<SessionView>,
    ) -> CtxView {
        tmux_synced(c, source, sessions)
    }

    fn kind(&self) -> (k: &str) {
        "tmux"
    }

    fn show(&mut self, sel: &Selection, ctx: &mut DriverCtx) -> (r: bool) {
        if sel.is_empty() {
            return false;
        }
        let source = sel.source.as_str();
        let session = sel.session.as_str();
        let (key, argv, starting, on_it, moving) = match ctx.hosts.get(source) {
            None => {
                return false;
            },
            Some(host) => {
                let key = host.id().to_owned();
                let argv = with_display_tty_record(attach_argv(host, session), host, key.as_str());
                let on_it = match host.display.shows(key.as_str()) {
                    Some(s) => text::same(s, session),
                    None => false,
                };
                let starting = host.display.in_flight_contains(key.as_str());
                let moving = move_argv(host, key.as_str(), session);
                (key, argv, starting, on_it, moving)
            },
        };
        let attached = ctx.registry.contains(key.as_str());
        if !attached {
            if !starting {
                ctx.request_attach(source, key.as_str(), argv, session);
            }
        } else if !on_it {
            match moving {
                Some(words) => {
                    ctx.request_run(words);
                    ctx.note_shown(source, key.as_str(), session);
                },
                None => {
                    if !starting {
                        ctx.request_attach(source, key.as_str(), argv, session);
                    }
                },
            }
        }
        if let Some(w) = sel.window {
            if attached || starting {
                ctx.request_window(source, session, w);
            }
        }
        true
    }

    fn sync(&mut self, source: &str, sessions: &[Session], ctx: &mut DriverCtx) {
        let first = match ctx.hosts.get(source) {
            None => {
                return ;
            },
            Some(host) => {
                if sessions.len() == 0 {
                    None
                } else if ctx.registry.contains(source) || host.display.in_flight_contains(
                    source,
                ) {
                    return ;
                } else {
                    let name = sessions[0].name.as_str();
                    proof {
                        assert(session_views(sessions@)[0] == sessions@[0]@);
                    }
                    let plan = host.mux.attach_plan(name);
                    proof {
                        assert(text::texts(plan@).len() == plan@.len());
                    }
                    let (command, args) = host.transport.interactive_attach_argv(
                        plan.as_slice(),
                        None,
                    );
                    Some(with_display_tty_record(prepend(command, args), host, source))
                }
            },
        };
        match first {
            Some(argv) => ctx.request_attach(source, source, argv, sessions[0].name.as_str()),
            None => ctx.drop_display(source),
        }
    }
}

// ---------------------------------------------------------------------------
// Laws
// ---------------------------------------------------------------------------

/// To show what is shown already asks for nothing more.
pub proof fn showing_again_changes_nothing(c: CtxView, source: Seq<char>, session: Seq<char>)
    requires
        c.hosts.map.dom().contains(source),
    ensures
        tmux_shown(tmux_shown(c, source, session, None), source, session, None) == tmux_shown(
            c,
            source,
            session,
            None,
        ),
{
}

/// A start that is under way is not repeated, whatever is selected meanwhile, and it
/// keeps the session that it is for: only a client that is there can be moved.
pub proof fn start_is_not_repeated(c: CtxView, source: Seq<char>, session: Seq<char>)
    requires
        c.hosts.map.dom().contains(source),
        ({
            let h = c.hosts.map[source];
            let key = transport_id(h.transport);
            h.display.in_flight.dom().contains(key) && !c.attached.dom().contains(key)
        }),
    ensures
        tmux_shown(c, source, session, None) == c,
{
}

/// What is attached stays on the screen while the next is on its way: to show a session
/// lets no attachment go.
pub proof fn showing_keeps_what_is_attached(
    c: CtxView,
    source: Seq<char>,
    session: Seq<char>,
    window: Option<int>,
)
    ensures
        tmux_shown(c, source, session, window).attached == c.attached,
        tmux_shown(c, source, session, window).order == c.order,
{
}

/// A source without sessions has nothing attached, and nothing is known of what it shows.
pub proof fn nothing_is_left_of_the_empty(c: CtxView, source: Seq<char>)
    requires
        c.hosts.map.dom().contains(source),
    ensures
        ({
            let after = tmux_synced(c, source, Seq::empty());
            let d = after.hosts.map[source].display;
            &&& !after.attached.dom().contains(source)
            &&& !d.current.dom().contains(source)
            &&& !d.in_flight.dom().contains(source)
            &&& after.actions == c.actions
        }),
{
}

/// A session that is selected is shown: where no start is under way, the display shows it
/// afterwards. Where it was shown already, nothing is asked for; else exactly one action
/// is: a start, or, where a client is attached that can be moved, the move.
pub proof fn selected_session_is_shown(c: CtxView, source: Seq<char>, session: Seq<char>)
    requires
        c.hosts.map.dom().contains(source),
        has_room(c),
        !c.hosts.map[source].display.in_flight.dom().contains(
            transport_id(c.hosts.map[source].transport),
        ),
        c.hosts.map[source].mux.kind is Tmux,
    ensures
        ({
            let h = c.hosts.map[source];
            let key = transport_id(h.transport);
            let after = tmux_shown(c, source, session, None);
            let current = after.hosts.map[source].display.current;
            let attached = c.attached.dom().contains(key);
            let on_it = h.display.current.dom().contains(key) && h.display.current[key] == session;
            &&& current.dom().contains(key) && current[key] == session || (attached && on_it)
            &&& attached && on_it ==> after == c
            &&& !attached || (!on_it && h.transport is Local) ==> one_start(
                c,
                after,
                source,
                key,
                session,
            )
            &&& attached && !on_it && h.transport is Ssh ==> {
                &&& after.actions.len() == c.actions.len() + 1
                &&& after.actions.drop_last() == c.actions
                &&& after.actions.last() is Run
                &&& beside_the_display(c, after, source)
            }
        }),
{
    let h = c.hosts.map[source];
    let key = transport_id(h.transport);
    let after = tmux_shown(c, source, session, None);
    if c.attached.dom().contains(key) && shown_under(h.display, key) != Some(session)
        && h.transport is Ssh {
        assert(after.actions.drop_last() =~= c.actions);
    }
}

/// What is started on this machine is an attach of tmux to the selected session.
pub proof fn start_here_attaches_to_the_session(
    c: CtxView,
    source: Seq<char>,
    session: Seq<char>,
    socket: Option<Seq<char>>,
)
    requires
        c.hosts.map.dom().contains(source),
        c.hosts.map[source].transport == (TransportView::Local { socket }),
        c.hosts.map[source].mux.kind is Tmux,
        !c.hosts.map[source].display.in_flight.dom().contains(LOCAL_SOURCE@),
        !c.attached.dom().contains(LOCAL_SOURCE@) || shown_under(
            c.hosts.map[source].display,
            LOCAL_SOURCE@,
        ) != Some(session),
    ensures
        ({
            let after = tmux_shown(c, source, session, None);
            &&& after.actions.last() is Attach
            &&& after.actions.last()->Attach_key == "local"@
            &&& started_argv(after) == here(
                socket,
                c.hosts.map[source].mux.bin,
                seq!["attach"@, "-t"@, session],
            )
        }),
{
    let h = c.hosts.map[source];
    let after = tmux_shown(c, source, session, None);
    let words = attach_of(h.mux, session);
    assert(words.skip(1) =~= seq!["attach"@, "-t"@, session]);
    assert(started_argv(after) =~= here(socket, h.mux.bin, seq!["attach"@, "-t"@, session]));
}

/// What is started on another machine is an attach of tmux to the selected session, on a
/// terminal, behind the record of its own tty.
pub proof fn start_there_attaches_to_the_session(
    c: CtxView,
    source: Seq<char>,
    session: Seq<char>,
    alias: Seq<char>,
    control_path: Seq<char>,
    os: Seq<char>,
) -> (command: Seq<char>)
    requires
        c.hosts.map.dom().contains(source),
        c.hosts.map[source].transport == (TransportView::Ssh { alias, control_path, os }),
        c.hosts.map[source].mux.kind is Tmux,
        !c.hosts.map[source].display.in_flight.dom().contains(alias),
        !c.attached.dom().contains(alias),
    ensures
        ({
            let after = tmux_shown(c, source, session, None);
            let argv = started_argv(after);
            &&& after.actions.last() is Attach
            &&& after.actions.last()->Attach_key == alias
            &&& argv[1] == "-t"@
            &&& argv.last() == "tty >"@ + tty_path(alias) + " 2>/dev/null; "@ + command
            &&& over_ssh(
                argv.update(argv.len() - 1, command),
                alias,
                seq![c.hosts.map[source].mux.bin, "attach"@, "-t"@, session],
            )
        }),
{
    let h = c.hosts.map[source];
    let words = attach_of(h.mux, session);
    let command = crate::shell::command(words);
    crate::shell::command_reads_back(words);
    assert(words =~= seq![h.mux.bin, "attach"@, "-t"@, session]);
    command
}

/// A client on another machine is moved by one command there: it reads the tty that the
/// client has recorded, and has tmux switch that client to the session, which stands in
/// the command as one word.
pub proof fn move_switches_to_the_session(
    c: CtxView,
    source: Seq<char>,
    session: Seq<char>,
    alias: Seq<char>,
    control_path: Seq<char>,
    os: Seq<char>,
) -> (target: Seq<char>)
    requires
        c.hosts.map.dom().contains(source),
        c.hosts.map[source].transport == (TransportView::Ssh { alias, control_path, os }),
        c.hosts.map[source].mux.kind is Tmux,
        c.attached.dom().contains(alias),
        shown_under(c.hosts.map[source].display, alias) != Some(session),
    ensures
        ({
            let bin = c.hosts.map[source].mux.bin;
            let after = tmux_shown(c, source, session, None);
            let argv = after.actions.last()->Run_argv;
            &&& after.actions.last() is Run
            &&& shown_under(after.hosts.map[source].display, alias) == Some(session)
            &&& argv[0] == "ssh"@
            &&& argv[argv.len() - 3] == "--"@
            &&& argv[argv.len() - 2] == alias
            &&& argv.last() == "c=$(cat "@ + tty_path(alias)
                + " 2>/dev/null); [ -n \"$c\" ] && { "@ + bin + " switch-client -c \"$c\" -t "@
                + target + "; "@ + bin + " refresh-client -t \"$c\"; }"@
            &&& crate::shell::shell_words(target) == seq![session]
        }),
{
    crate::mux::vocab::target_is_one_word(session);
    crate::mux::vocab::target_text(session)
}

/// A window that is selected is asked for behind what shows its session; only while the
/// first start is being asked for it is not, for there is nothing to select in yet.
pub proof fn selected_window_follows(
    c: CtxView,
    source: Seq<char>,
    session: Seq<char>,
    window: int,
)
    requires
        c.hosts.map.dom().contains(source),
    ensures
        ({
            let key = transport_id(c.hosts.map[source].transport);
            let plain = tmux_shown(c, source, session, None);
            let after = tmux_shown(c, source, session, Some(window));
            if c.attached.dom().contains(key) || c.hosts.map[source].display.in_flight.dom().contains(
                key,
            ) {
                &&& after.actions.drop_last() == plain.actions
                &&& after.actions.last() is SelectWindow
                &&& after.actions.last()->SelectWindow_source == source
                &&& after.actions.last()->SelectWindow_session == session
                &&& after.actions.last()->SelectWindow_window == window
                &&& after == (CtxView { actions: after.actions, ..plain })
            } else {
                after == plain
            }
        }),
{
    let plain = tmux_shown(c, source, session, None);
    let after = tmux_shown(c, source, session, Some(window));
    if after != plain {
        crate::driver::window_is_asked_for(plain, source, session, window);
    }
}

/// Sessions that become known have the first of them attached, where nothing is attached
/// and nothing on its way; else they change nothing.
pub proof fn first_session_is_warmed(
    c: CtxView,
    source: Seq<char>,
    sessions: Seq<SessionView>,
)
    requires
        c.hosts.map.dom().contains(source),
        has_room(c),
        sessions.len() > 0,
    ensures
        ({
            let after = tmux_synced(c, source, sessions);
            if c.attached.dom().contains(source)
                || c.hosts.map[source].display.in_flight.dom().contains(source) {
                after == c
            } else {
                one_start(c, after, source, source, sessions[0].name)
            }
        }),
{
}

/// What is warmed on this machine is an attach of tmux to the first session.
pub proof fn warming_here_attaches_to_the_first(
    c: CtxView,
    source: Seq<char>,
    sessions: Seq<SessionView>,
    socket: Option<Seq<char>>,
)
    requires
        c.hosts.map.dom().contains(source),
        c.hosts.map[source].transport == (TransportView::Local { socket }),
        c.hosts.map[source].mux.kind is Tmux,
        sessions.len() > 0,
        !c.attached.dom().contains(source),
        !c.hosts.map[source].display.in_flight.dom().contains(source),
    ensures
        started_argv(tmux_synced(c, source, sessions)) == here(
            socket,
            c.hosts.map[source].mux.bin,
            seq!["attach"@, "-t"@, sessions[0].name],
        ),
{
    let h = c.hosts.map[source];
    let words = attach_of(h.mux, sessions[0].name);
    assert(words.skip(1) =~= seq!["attach"@, "-t"@, sessions[0].name]);
    assert(started_argv(tmux_synced(c, source, sessions)) =~= here(
        socket,
        h.mux.bin,
        seq!["attach"@, "-t"@, sessions[0].name],
    ));
}

/// A start that is under way on this machine is not repeated for another session either, for
/// the client there cannot be moved.
pub proof fn start_here_is_not_repeated(c: CtxView, source: Seq<char>, session: Seq<char>)
    requires
        c.hosts.map.dom().contains(source),
        c.hosts.map[source].transport is Local,
        c.hosts.map[source].display.in_flight.dom().contains(LOCAL_SOURCE@),
    ensures
        tmux_shown(c, source, session, None) == c,
{
}

/// What is warmed on another machine takes the place of the shell there: behind the record of
/// its own tty, an attach of tmux to the first session.
pub proof fn warming_there_attaches_to_the_first(
    c: CtxView,
    source: Seq<char>,
    sessions: Seq<SessionView>,
    alias: Seq<char>,
    control_path: Seq<char>,
    os: Seq<char>,
) -> (command: Seq<char>)
    requires
        c.hosts.map.dom().contains(source),
        c.hosts.map[source].transport == (TransportView::Ssh { alias, control_path, os }),
        c.hosts.map[source].mux.kind is Tmux,
        sessions.len() > 0,
        !c.attached.dom().contains(source),
        !c.hosts.map[source].display.in_flight.dom().contains(source),
    ensures
        ({
            let after = tmux_synced(c, source, sessions);
            let argv = started_argv(after);
            &&& after.actions.last() is Attach
            &&& after.actions.last()->Attach_key == source
            &&& argv[0] == "ssh"@ && argv[1] == "-t"@
            &&& argv[argv.len() - 3] == "--"@ && argv[argv.len() - 2] == alias
            &&& argv.last() == "tty >"@ + tty_path(source) + " 2>/dev/null; "@ + "exec "@ + command
            &&& crate::shell::shell_words(command) == seq![
                c.hosts.map[source].mux.bin,
                "attach"@,
                "-t"@,
                sessions[0].name,
            ]
        }),
{
    let h = c.hosts.map[source];
    let attach = attach_of(h.mux, sessions[0].name);
    let command = crate::shell::command(attach);
    crate::shell::command_reads_back(attach);
    let words = whole(interactive_words(h.transport, attach, None));
    let argv = recorded(words, true, source);
    let args = interactive_words(h.transport, attach, None).1;
    assert(words.last() == "exec "@ + command);
    assert(args[args.len() - 2] == alias);
    assert(args[args.len() - 3] == "--"@);
    assert(argv.last() =~= "tty >"@ + tty_path(source) + " 2>/dev/null; "@ + "exec "@ + command);
    command
}

} // verus!
