//! What the display drivers of the muxes share: the state that they work on, and the
//! steps that they take.
use crate::model::host::{prepend, DisplayView, Host, HostView};
use crate::model::hosts::{changed, Hosts, HostsView};
use crate::model::selection::Selection;
use crate::model::transport::{exec_words, raw_words, transport_id};
use crate::mux::psmux::display::PsmuxDriver;
use crate::mux::tmux::display::TmuxDriver;
use crate::mux::vocab::{window_target, window_target_text};
use crate::mux::zellij::display::ZellijDriver;
use crate::mux::{
    attach_of, select_window_of, switch_of, AnyMux, Kind, Mux, MuxView, SwitchPlan, SwitchPlanView,
};
use crate::proxy::registry::AttachRegistry;
use crate::proxy::run::{AttachmentView, PtyCmdView};
use crate::proxy::screen::Grid;
use crate::session::{session_views, Session, SessionView};
use crate::text;
use vstd::prelude::*;

verus! {

/// What a driver asks for.
#[derive(Clone, Debug, PartialEq, Eq)]
pub enum DisplayAction {
    /// Start the attachment `id` for `key`, as the start numbered `seq`.
    Attach { seq: u64, id: u64, key: String, argv: Vec<String>, cols: u16, rows: u16 },
    /// Run a command that moves the client in place.
    Run { argv: Vec<String> },
    /// Make a window the active one: over the control connection of the source, where
    /// one is open, or by the command.
    SelectWindow { source: String, session: String, window: i64, argv: Vec<String> },
}

/// A [`DisplayAction`] with its texts as sequences.
pub enum ActionView {
    Attach { seq: u64, id: u64, key: Seq<char>, argv: Seq<Seq<char>>, cols: u16, rows: u16 },
    Run { argv: Seq<Seq<char>> },
    SelectWindow {
        source: Seq<char>,
        session: Seq<char>,
        window: int,
        argv: Seq<Seq<char>>,
    },
}

impl View for DisplayAction {
    type V = ActionView;

    open spec fn view(&self) -> ActionView {
        match self {
            DisplayAction::Attach { seq, id, key, argv, cols, rows } => ActionView::Attach {
                seq: *seq,
                id: *id,
                key: key@,
                argv: text::texts(argv@),
                cols: *cols,
                rows: *rows,
            },
            DisplayAction::Run { argv } => ActionView::Run { argv: text::texts(argv@) },
            DisplayAction::SelectWindow { source, session, window, argv } =>
                ActionView::SelectWindow {
                    source: source@,
                    session: session@,
                    window: *window as int,
                    argv: text::texts(argv@),
                },
        }
    }
}

/// The views of a sequence of actions.
pub open spec fn action_views(v: Seq<DisplayAction>) -> Seq<ActionView> {
    v.map_values(|a: DisplayAction| a@)
}

/// What the drivers work on.
pub struct DriverCtx {
    pub registry: AttachRegistry,
    pub hosts: Hosts,
    /// The number of the latest start.
    pub attach_seq: u64,
    /// The size of the terminal view.
    pub cols: u16,
    pub rows: u16,
    /// The session that the live client of the selected host reports to be on.
    pub reported: Option<String>,
    /// What was asked for, and not taken yet.
    pub actions: Vec<DisplayAction>,
}

/// A [`DriverCtx`] as the contracts see it.
#[verifier::ext_equal]
pub struct CtxView {
    pub attached: Map<Seq<char>, AttachmentView>,
    pub order: Seq<Seq<char>>,
    pub next_id: u64,
    pub hosts: HostsView,
    pub seq: u64,
    pub cols: u16,
    pub rows: u16,
    pub reported: Option<Seq<char>>,
    pub actions: Seq<ActionView>,
}

impl View for DriverCtx {
    type V = CtxView;

    open spec fn view(&self) -> CtxView {
        CtxView {
            attached: self.registry@,
            order: self.registry.order(),
            next_id: self.registry.next_id(),
            hosts: self.hosts@,
            seq: self.attach_seq,
            cols: self.cols,
            rows: self.rows,
            reported: text::opt_text(self.reported),
            actions: action_views(self.actions@),
        }
    }
}

/// Whether numbers are left for one more start.
pub open spec fn has_room(c: CtxView) -> bool {
    c.next_id < u64::MAX && c.seq < u64::MAX
}

/// The session that the attachment under a key shows.
pub open spec fn shown_under(d: DisplayView, key: Seq<char>) -> Option<Seq<char>> {
    if d.current.dom().contains(key) {
        Some(d.current[key])
    } else {
        None
    }
}

/// A command and its arguments as one argv.
pub open spec fn whole(w: (Seq<char>, Seq<Seq<char>>)) -> Seq<Seq<char>> {
    seq![w.0] + w.1
}

/// The argv that attaches to a session over the transport of a host.
pub open spec fn attach_words(h: HostView, session: Seq<char>) -> Seq<Seq<char>> {
    whole(exec_words(h.transport, true, attach_of(h.mux, session)))
}

/// The state once the record of a host's display is `d`.
pub open spec fn with_display(c: CtxView, source: Seq<char>, d: DisplayView) -> CtxView {
    CtxView {
        hosts: changed(c.hosts, source, HostView { display: d, ..c.hosts.map[source] }),
        ..c
    }
}

/// The state once the attachment under a key is known to show a session.
pub open spec fn with_shown(
    c: CtxView,
    source: Seq<char>,
    key: Seq<char>,
    session: Seq<char>,
) -> CtxView {
    let d = c.hosts.map[source].display;
    with_display(c, source, DisplayView { current: d.current.insert(key, session), ..d })
}

/// The state once an attachment was asked for: it has the next id and the next number,
/// and is what the key shows from now on. What is attached stays, until the new one is
/// there.
pub open spec fn asked(
    c: CtxView,
    source: Seq<char>,
    key: Seq<char>,
    argv: Seq<Seq<char>>,
    session: Seq<char>,
) -> CtxView {
    let d = c.hosts.map[source].display;
    let seq = (c.seq + 1) as u64;
    let next = with_display(
        c,
        source,
        DisplayView {
            in_flight: d.in_flight.insert(key, seq),
            pending: d.pending.insert(c.next_id, key),
            current: d.current.insert(key, session),
            ..d
        },
    );
    CtxView {
        next_id: (c.next_id + 1) as u64,
        seq,
        actions: c.actions.push(
            ActionView::Attach { seq, id: c.next_id, key, argv, cols: c.cols, rows: c.rows },
        ),
        ..next
    }
}

/// The state once a window was asked for.
pub open spec fn window_asked(
    c: CtxView,
    source: Seq<char>,
    session: Seq<char>,
    window: int,
) -> CtxView {
    let h = c.hosts.map[source];
    CtxView {
        actions: c.actions.push(
            ActionView::SelectWindow {
                source,
                session,
                window,
                argv: whole(
                    exec_words(
                        h.transport,
                        false,
                        select_window_of(h.mux, window_target_text(session, window)),
                    ),
                ),
            },
        ),
        ..c
    }
}

/// The command that moves the client of a host in place, where the mux can do that and
/// the transport can carry it.
pub open spec fn move_words(h: HostView, key: Seq<char>, session: Seq<char>) -> Option<
    Seq<Seq<char>>,
> {
    match switch_of(h.mux, key, session) {
        Some(SwitchPlanView::Shell(line)) => raw_words(h.transport, line),
        _ => None,
    }
}

/// The key of the attachment that a selection is shown by: the id of its host.
pub open spec fn display_key_of(hs: HostsView, source: Seq<char>) -> Seq<char> {
    if hs.map.dom().contains(source) {
        transport_id(hs.map[source].transport)
    } else {
        source
    }
}

/// The state once the host of a source has nothing to show: its attachment is let go, and
/// what was known of it forgotten.
pub open spec fn let_go(c: CtxView, source: Seq<char>) -> CtxView {
    let rest = CtxView {
        attached: c.attached.remove(source),
        order: text::without(c.order, source),
        ..c
    };
    if c.hosts.map.dom().contains(source) {
        with_display(
            rest,
            source,
            crate::model::host::cleared(c.hosts.map[source].display, source),
        )
    } else {
        rest
    }
}

/// The window is selected by a command that has words.
proof fn selects_by_a_command(m: MuxView, target: Seq<char>)
    ensures
        select_window_of(m, target).len() > 0,
{
}

impl DriverCtx {
    /// Asks for an attachment that shows `session` under `key`.
    pub fn request_attach(&mut self, source: &str, key: &str, argv: Vec<String>, session: &str)
        requires
            has_room(old(self)@),
            old(self)@.hosts.map.dom().contains(source@),
        ensures
            final(self)@ == asked(old(self)@, source@, key@, text::texts(argv@), session@),
    {
        let ghost was = self@;
        let id = self.registry.alloc_id();
        let seq: u64 = self.attach_seq + 1;
        self.attach_seq = seq;
        if let Some(host) = self.hosts.get_mut(source) {
            host.display.mark_in_flight(key, seq);
            host.display.mark_pending(id, key);
            host.display.set_shows(key, session);
        }
        let ghost before = self.actions@;
        let a = DisplayAction::Attach {
            seq,
            id,
            key: key.to_owned(),
            argv,
            cols: self.cols,
            rows: self.rows,
        };
        self.actions.push(a);
        proof {
            assert(action_views(self.actions@) =~= action_views(before).push(a@));
            assert(self@ =~= asked(was, source@, key@, text::texts(argv@), session@));
        }
    }

    /// Notes that `key` shows `session`.
    pub fn note_shown(&mut self, source: &str, key: &str, session: &str)
        requires
            old(self)@.hosts.map.dom().contains(source@),
        ensures
            final(self)@ == with_shown(old(self)@, source@, key@, session@),
    {
        let ghost was = self@;
        if let Some(host) = self.hosts.get_mut(source) {
            host.display.set_shows(key, session);
        }
        proof {
            assert(self@ =~= with_shown(was, source@, key@, session@));
        }
    }

    /// Forgets what was known of `key`.
    pub fn forget(&mut self, source: &str, key: &str)
        requires
            old(self)@.hosts.map.dom().contains(source@),
        ensures
            final(self)@ == with_display(
                old(self)@,
                source@,
                crate::model::host::cleared(old(self)@.hosts.map[source@].display, key@),
            ),
    {
        let ghost was = self@;
        if let Some(host) = self.hosts.get_mut(source) {
            host.display.clear(key);
        }
        proof {
            assert(self@ =~= with_display(
                was,
                source@,
                crate::model::host::cleared(was.hosts.map[source@].display, key@),
            ));
        }
    }

    /// Asks for a command to be run.
    pub fn request_run(&mut self, argv: Vec<String>)
        ensures
            final(self)@ == (CtxView {
                actions: old(self)@.actions.push(ActionView::Run { argv: text::texts(argv@) }),
                ..old(self)@
            }),
    {
        let ghost before = self.actions@;
        let a = DisplayAction::Run { argv };
        self.actions.push(a);
        proof {
            assert(action_views(self.actions@) =~= action_views(before).push(a@));
        }
    }

    /// Asks for a window of a session to be made the active one.
    pub fn request_window(&mut self, source: &str, session: &str, window: i64)
        requires
            old(self)@.hosts.map.dom().contains(source@),
        ensures
            final(self)@ == window_asked(old(self)@, source@, session@, window as int),
    {
        if let Some(host) = self.hosts.get(source) {
            let plan = host.mux.select_window_plan(window_target(session, window).as_str());
            proof {
                selects_by_a_command(
                    host@.mux,
                    window_target_text(session@, window as int),
                );
                assert(text::texts(plan@).len() == plan@.len());
            }
            let (command, args) = host.transport.exec_argv(false, plan.as_slice());
            let argv = prepend(command, args);
            let ghost before = self.actions@;
            let a = DisplayAction::SelectWindow {
                source: source.to_owned(),
                session: session.to_owned(),
                window,
                argv,
            };
            self.actions.push(a);
            proof {
                assert(action_views(self.actions@) =~= action_views(before).push(a@));
            }
        }
    }

    /// Lets the attachment of a source go that has nothing to show.
    pub fn drop_display(&mut self, source: &str)
        ensures
            final(self)@ == let_go(old(self)@, source@),
    {
        let ghost was = self@;
        self.registry.remove(source);
        if let Some(host) = self.hosts.get_mut(source) {
            host.display.clear(source);
        }
        proof {
            assert(self@ =~= let_go(was, source@));
        }
    }

    /// The key of the attachment that a selection is shown by.
    pub fn display_key(&self, sel: &Selection) -> (key: String)
        ensures
            key@ == display_key_of(self@.hosts, sel.source@),
    {
        match self.hosts.get(sel.source.as_str()) {
            Some(host) => host.id().to_owned(),
            None => sel.source.clone(),
        }
    }

    /// Hands out what was asked for.
    pub fn take_actions(&mut self) -> (v: Vec<DisplayAction>)
        ensures
            action_views(v@) == old(self)@.actions,
            final(self)@ == (CtxView { actions: Seq::empty(), ..old(self)@ }),
    {
        let mut v: Vec<DisplayAction> = Vec::new();
        std::mem::swap(&mut v, &mut self.actions);
        proof {
            assert(action_views(self.actions@) =~= Seq::empty());
        }
        v
    }
}

/// The argv that attaches to a session over the transport of a host.
pub fn attach_argv(host: &Host, session: &str) -> (v: Vec<String>)
    ensures
        text::texts(v@) == attach_words(host@, session@),
{
    let plan = host.mux.attach_plan(session);
    proof {
        assert(text::texts(plan@).len() == plan@.len());
    }
    let (command, args) = host.transport.exec_argv(true, plan.as_slice());
    prepend(command, args)
}

/// The command that moves the client of a host in place.
pub fn move_argv(host: &Host, key: &str, session: &str) -> (r: Option<Vec<String>>)
    ensures
        match r {
            Some(v) => move_words(host@, key@, session@) == Some(text::texts(v@)),
            None => move_words(host@, key@, session@) is None,
        },
{
    match host.mux.switch_in_place(key, session, None) {
        Some(SwitchPlan::Shell(line)) => host.transport.raw_ssh_argv(line.as_str()),
        _ => None,
    }
}

/// A display driver: it decides what it takes to show a selection.
pub trait MuxDriver {
    /// The kind of mux that it drives.
    spec fn drives(&self) -> Seq<char>;

    /// The state once a selection is to be shown.
    spec fn shown(&self, c: CtxView, source: Seq<char>, session: Seq<char>, window: Option<int>) -> CtxView;

    /// The state once the sessions of a source are known.
    spec fn synced(&self, c: CtxView, source: Seq<char>, sessions: Seq<SessionView>) -> CtxView;

    /// The kind of mux that it drives.
    fn kind(&self) -> (k: &str)
        ensures
            k@ == self.drives(),
    ;

    /// Has a selection shown. Nothing is shown where no session is selected, or the host
    /// is not known.
    fn show(&mut self, sel: &Selection, ctx: &mut DriverCtx) -> (r: bool)
        requires
            has_room(old(ctx)@),
        ensures
            r == (sel.session@.len() > 0 && old(ctx)@.hosts.map.dom().contains(sel.source@)),
            final(ctx)@ == if r {
                old(self).shown(
                    old(ctx)@,
                    sel.source@,
                    sel.session@,
                    match sel.window {
                        Some(w) => Some(w as int),
                        None => None,
                    },
                )
            } else {
                old(ctx)@
            },
    ;

    /// Takes in the sessions that a source has.
    fn sync(&mut self, source: &str, sessions: &[Session], ctx: &mut DriverCtx)
        requires
            has_room(old(ctx)@),
        ensures
            final(ctx)@ == old(self).synced(old(ctx)@, source@, session_views(sessions@)),
    ;

    /// The grid that a selection is shown by.
    fn grid<'a>(&self, sel: &Selection, ctx: &'a DriverCtx) -> (g: Option<&'a Grid>)
        default_ensures
            ({
                let key = display_key_of(ctx@.hosts, sel.source@);
                match g {
                    Some(x) => ctx@.attached.dom().contains(key) && x.terminal()
                        == ctx@.attached[key].terminal && x.held() == ctx@.attached[key].held,
                    None => !ctx@.attached.dom().contains(key),
                }
            }),
    {
        let key = ctx.display_key(sel);
        ctx.registry.grid(key.as_str())
    }

    /// Hands input to the attachment that a selection is shown by.
    fn input(&mut self, sel: &Selection, bytes: Vec<u8>, ctx: &mut DriverCtx)
        default_ensures
            ({
                let key = display_key_of(old(ctx)@.hosts, sel.source@);
                let a = old(ctx)@.attached;
                final(ctx)@ == if a.dom().contains(key) {
                    CtxView {
                        attached: a.insert(
                            key,
                            AttachmentView {
                                outbox: a[key].outbox.push(PtyCmdView::Input(bytes@)),
                                ..a[key]
                            },
                        ),
                        ..old(ctx)@
                    }
                } else {
                    old(ctx)@
                }
            }),
    {
        let key = ctx.display_key(sel);
        ctx.registry.input(key.as_str(), bytes);
    }
}

/// A driver of one of the kinds.
pub enum AnyDriver {
    Tmux(TmuxDriver),
    Psmux(PsmuxDriver),
    Zellij(ZellijDriver),
}

impl MuxDriver for AnyDriver {
    open spec fn drives(&self) -> Seq<char> {
        match self {
            AnyDriver::Tmux(d) => d.drives(),
            AnyDriver::Psmux(d) => d.drives(),
            AnyDriver::Zellij(d) => d.drives(),
        }
    }

    open spec fn shown(
        &self,
        c: CtxView,
        source: Seq<char>,
        session: Seq<char>,
        window: Option<int>,
    ) -> CtxView {
        match self {
            AnyDriver::Tmux(d) => d.shown(c, source, session, window),
            AnyDriver::Psmux(d) => d.shown(c, source, session, window),
            AnyDriver::Zellij(d) => d.shown(c, source, session, window),
        }
    }

    open spec fn synced(
        &self,
        c: CtxView,
        source: Seq<char>,
        sessions: Seq<SessionView>,
    ) -> CtxView {
        match self {
            AnyDriver::Tmux(d) => d.synced(c, source, sessions),
            AnyDriver::Psmux(d) => d.synced(c, source, sessions),
            AnyDriver::Zellij(d) => d.synced(c, source, sessions),
        }
    }

    fn kind(&self) -> (k: &str) {
        match self {
            AnyDriver::Tmux(d) => d.kind(),
            AnyDriver::Psmux(d) => d.kind(),
            AnyDriver::Zellij(d) => d.kind(),
        }
    }

    fn show(&mut self, sel: &Selection, ctx: &mut DriverCtx) -> (r: bool) {
        match self {
            AnyDriver::Tmux(d) => d.show(sel, ctx),
            AnyDriver::Psmux(d) => d.show(sel, ctx),
            AnyDriver::Zellij(d) => d.show(sel, ctx),
        }
    }

    fn sync(&mut self, source: &str, sessions: &[Session], ctx: &mut DriverCtx) {
        match self {
            AnyDriver::Tmux(d) => d.sync(source, sessions, ctx),
            AnyDriver::Psmux(d) => d.sync(source, sessions, ctx),
            AnyDriver::Zellij(d) => d.sync(source, sessions, ctx),
        }
    }
}

impl AnyMux {
    /// The driver of the mux; none for a kind whose display is not driven here.
    pub fn driver(&self) -> (d: Option<AnyDriver>)
        ensures
            match self@.kind {
                Kind::Tmux => d is Some && d->0 is Tmux,
                Kind::Psmux => d is Some && d->0 is Psmux,
                Kind::Zellij => d is Some && d->0 is Zellij,
                _ => d is None,
            },
    {
        match self.mux_kind() {
            Kind::Tmux => Some(AnyDriver::Tmux(TmuxDriver)),
            Kind::Psmux => Some(AnyDriver::Psmux(PsmuxDriver)),
            Kind::Zellij => Some(AnyDriver::Zellij(ZellijDriver)),
            _ => None,
        }
    }
}

// ---------------------------------------------------------------------------
// What a start is
// ---------------------------------------------------------------------------

/// Whether `after` differs from `before` by one start alone: one attachment more is asked
/// for, under the next number and the next id, at the size of the view; the host of the
/// source has it on its way, and shows `session` under `key`; nothing else is new.
pub open spec fn one_start(
    before: CtxView,
    after: CtxView,
    source: Seq<char>,
    key: Seq<char>,
    session: Seq<char>,
) -> bool {
    let d = after.hosts.map[source].display;
    &&& after.actions.len() == before.actions.len() + 1
    &&& forall|i: int|
        0 <= i < before.actions.len() ==> #[trigger] after.actions[i] == before.actions[i]
    &&& after.actions[before.actions.len() as int] matches ActionView::Attach {
        seq,
        id,
        key: k,
        argv: _,
        cols,
        rows,
    } && seq == before.seq + 1 && id == before.next_id && k == key && cols == before.cols && rows
        == before.rows
    &&& after.seq == before.seq + 1
    &&& after.next_id == before.next_id + 1
    &&& d.in_flight.dom().contains(key) && d.in_flight[key] == after.seq
    &&& d.pending.dom().contains(before.next_id) && d.pending[before.next_id] == key
    &&& d.current.dom().contains(key) && d.current[key] == session
    &&& beside_the_display(before, after, source)
}

/// Whether two states are the same but for what was asked for, the numbers of starts, and
/// the record of the display of one host.
pub open spec fn beside_the_display(before: CtxView, after: CtxView, source: Seq<char>) -> bool {
    &&& after.attached == before.attached
    &&& after.order == before.order
    &&& after.cols == before.cols && after.rows == before.rows
    &&& after.reported == before.reported
    &&& after.hosts.order == before.hosts.order
    &&& after.hosts.map.dom() =~= before.hosts.map.dom()
    &&& forall|other: Seq<char>|
        other != source && before.hosts.map.dom().contains(other) ==> #[trigger] after.hosts.map[other]
            == before.hosts.map[other]
    &&& after.hosts.map[source] == (HostView {
        display: after.hosts.map[source].display,
        ..before.hosts.map[source]
    })
}

/// The argv of the last start that was asked for.
pub open spec fn started_argv(c: CtxView) -> Seq<Seq<char>> {
    c.actions.last()->Attach_argv
}

/// The words that a mux argv is on this machine: behind the binary the socket of the
/// server, where it has one of its own.
pub open spec fn here(socket: Option<Seq<char>>, bin: Seq<char>, args: Seq<Seq<char>>) -> Seq<
    Seq<char>,
> {
    match socket {
        Some(path) => if path.len() > 0 {
            seq![bin, "-S"@, path] + args
        } else {
            seq![bin] + args
        },
        None => seq![bin] + args,
    }
}

/// Whether words run `argv` on the machine behind an ssh alias: ssh, the alias behind
/// `--`, and a last word that a shell reads as `argv`.
pub open spec fn over_ssh(words: Seq<Seq<char>>, alias: Seq<char>, argv: Seq<Seq<char>>) -> bool {
    let n = words.len() as int;
    &&& n >= 4
    &&& words[0] == "ssh"@
    &&& words[n - 3] == "--"@
    &&& words[n - 2] == alias
    &&& crate::shell::shell_words(words[n - 1]) == argv
}

/// A window is asked for by one action more, which names the source, the session and the
/// window; nothing else is new.
pub proof fn window_is_asked_for(c: CtxView, source: Seq<char>, session: Seq<char>, window: int)
    ensures
        ({
            let after = window_asked(c, source, session, window);
            &&& after.actions.drop_last() == c.actions
            &&& after.actions.len() == c.actions.len() + 1
            &&& after.actions.last() matches ActionView::SelectWindow {
                source: s,
                session: t,
                window: w,
                argv: _,
            } && s == source && t == session && w == window
            &&& after == (CtxView { actions: after.actions, ..c })
        }),
{
    let after = window_asked(c, source, session, window);
    assert(after.actions.drop_last() =~= c.actions);
}

/// The command that selects a window on this machine is that of the mux: for tmux and
/// psmux the target is the session, a colon and the window.
pub proof fn window_command_here(
    c: CtxView,
    source: Seq<char>,
    session: Seq<char>,
    window: int,
    socket: Option<Seq<char>>,
)
    requires
        c.hosts.map[source].transport == (crate::model::transport::TransportView::Local { socket }),
        c.hosts.map[source].mux.kind is Tmux || c.hosts.map[source].mux.kind is Psmux,
    ensures
        ({
            let a = window_asked(c, source, session, window).actions.last();
            a->SelectWindow_argv == here(
                socket,
                c.hosts.map[source].mux.bin,
                seq![
                    "select-window"@,
                    "-t"@,
                    session + ":"@ + crate::number::signed_decimal(window),
                ],
            )
        }),
{
    let h = c.hosts.map[source];
    let a = window_asked(c, source, session, window).actions.last();
    let target = session + ":"@ + crate::number::signed_decimal(window);
    let words = select_window_of(h.mux, window_target_text(session, window));
    assert(words.skip(1) =~= seq!["select-window"@, "-t"@, target]);
    assert(a->SelectWindow_argv =~= here(
        socket,
        h.mux.bin,
        seq!["select-window"@, "-t"@, target],
    ));
}

/// To let an attachment go takes that one out and forgets what its host shows under it; every
/// other attachment, every other host, and what was asked for stay.
pub proof fn letting_go_takes_one(c: CtxView, source: Seq<char>, other: Seq<char>)
    requires
        other != source,
    ensures
        ({
            let after = let_go(c, source);
            &&& !after.attached.dom().contains(source)
            &&& after.attached.dom().contains(other) == c.attached.dom().contains(other)
            &&& c.attached.dom().contains(other) ==> after.attached[other] == c.attached[other]
            &&& after.actions == c.actions
            &&& after.next_id == c.next_id && after.seq == c.seq
            &&& after.hosts.order == c.hosts.order
            &&& c.hosts.map.dom().contains(other) ==> after.hosts.map[other] == c.hosts.map[other]
            &&& c.hosts.map.dom().contains(source) ==> {
                let d = after.hosts.map[source].display;
                &&& !d.current.dom().contains(source)
                &&& !d.in_flight.dom().contains(source)
                &&& after.hosts.map[source].sessions == c.hosts.map[source].sessions
                &&& after.hosts.map[source].transport == c.hosts.map[source].transport
                &&& after.hosts.map[source].liveness == c.hosts.map[source].liveness
            }
        }),
{
}

/// A selection is shown under the id of its host: the alias that ssh reaches, `local` for
/// this machine, and the source itself where its host is not known.
pub proof fn display_key_is_the_host(hs: HostsView, source: Seq<char>)
    ensures
        !hs.map.dom().contains(source) ==> display_key_of(hs, source) == source,
        hs.map.dom().contains(source) ==> match hs.map[source].transport {
            crate::model::transport::TransportView::Local { .. } => display_key_of(hs, source)
                == "local"@,
            crate::model::transport::TransportView::Ssh { alias, .. } => display_key_of(hs, source)
                == alias,
        },
{
}

} // verus!
