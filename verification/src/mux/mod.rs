//! One type per mux, and what xmux asks of it.
use crate::link::{HostEvent, HostEventView};
use crate::model::plan::{self, DeathSignal};
use crate::model::server_model::ServerModel;
use crate::model::source::{error_text, RunError, RunErrorView};
use crate::model::transport::{exec_words, Transport};
use crate::number;
use crate::session::{session_views, Session, SessionView};
use crate::text;
use vstd::prelude::*;

pub mod abduco;
pub mod control;
pub mod psmux;
pub mod screen;
pub mod tmux;
pub mod vocab;
pub mod zellij;

pub use abduco::Abduco;
pub use control::{ControlProtocol, TmuxControl};
pub use psmux::Psmux;
pub use screen::Screen;
pub use tmux::Tmux;
pub use zellij::Zellij;

verus! {

// ---------------------------------------------------------------------------
// Errors that are none
// ---------------------------------------------------------------------------

/// Whether a line, in lower case, is how an idle mux says that it is idle.
pub open spec fn idle_line(line: Seq<char>) -> bool {
    let t = text::trimmed(line);
    text::begins(t, "no server running"@) || text::begins(t, "no sessions"@) || text::begins(
        t,
        "no active zellij sessions"@,
    )
}

/// Whether a text in lower case holds such a line. The marker begins the line, so that
/// a login banner that speaks of sessions is not taken for it.
pub open spec fn idle_text(lowered: Seq<char>) -> bool {
    exists|i: int|
        0 <= i < text::pieces(lowered, '\n').len() && idle_line(
            #[trigger] text::pieces(lowered, '\n')[i],
        )
}

/// Whether a text in lower case says that the mux is reachable and has no sessions.
pub fn says_no_sessions(lowered: &str) -> (r: bool)
    ensures
        r == idle_text(lowered@),
{
    let lines = text::split(lowered, '\n');
    let ghost all = text::pieces(lowered@, '\n');
    let mut i: usize = 0;
    while i < lines.len()
        invariant
            i <= lines@.len(),
            all == text::pieces(lowered@, '\n'),
            text::texts(lines@) == all,
            forall|j: int| 0 <= j < i ==> !idle_line(#[trigger] all[j]),
        decreases lines.len() - i,
    {
        let t = text::trim(lines[i].as_str());
        proof {
            assert(all[i as int] == lines@[i as int]@);
        }
        if text::starts_with(t.as_str(), "no server running") || text::starts_with(
            t.as_str(),
            "no sessions",
        ) || text::starts_with(t.as_str(), "no active zellij sessions") {
            return true;
        }
        i += 1;
    }
    proof {
        assert(all.len() == lines@.len());
    }
    false
}

/// Whether a text says that the mux is reachable and has no sessions.
pub fn reason_is_no_sessions(reason: &str) -> (r: bool)
    ensures
        r == idle_text(text::lowercase(reason@)),
{
    says_no_sessions(text::to_lowercase(reason).as_str())
}

/// Whether an error means that the mux is reachable and has no sessions, given what
/// its text is in lower case. Only a command that ended can mean that; and one that
/// was not found, could not be run, or could not reach its machine never does.
pub open spec fn idle_error(e: RunErrorView, lowered: Seq<char>) -> bool {
    match e {
        RunErrorView::Exit { code, .. } => code != 126 && code != 127 && code != 255 && idle_text(
            lowered,
        ),
        RunErrorView::Other(_) => false,
    }
}

/// What an error says in lower case.
pub open spec fn lowered_error(e: RunErrorView) -> Seq<char> {
    match e {
        RunErrorView::Exit { stderr, .. } => text::lowercase(stderr),
        RunErrorView::Other(s) => text::lowercase(s),
    }
}

/// Whether `err` means that the mux is reachable and has no sessions.
pub fn is_no_sessions(err: &RunError) -> (r: bool)
    ensures
        r == idle_error(err@, lowered_error(err@)),
{
    match err {
        RunError::Exit { stderr, code } => {
            if *code == 126 || *code == 127 || *code == 255 {
                return false;
            }
            reason_is_no_sessions(stderr.as_str())
        },
        RunError::Other(_) => false,
    }
}

/// Whether a text is how ssh says that the machine was reached and the credentials
/// refused.
pub fn is_locked(s: &str) -> (r: bool)
    ensures
        r == text::holds(s@, "Permission denied ("@),
{
    text::contains(s, "Permission denied (")
}

/// The seconds that a command has to answer in.
pub const POLL_CMD_TIMEOUT_SECS: u64 = 6;

/// The seconds that a poll has to end in: one more than a command has.
pub const POLL_SWEEP_BUDGET_SECS: u64 = 7;

/// The seconds that a probe of this machine has.
pub const DETECT_TIMEOUT_SECS: u64 = 5;

/// The seconds that a probe of another machine has.
pub const DETECT_TIMEOUT_REMOTE_SECS: u64 = 6;

// ---------------------------------------------------------------------------
// The mux
// ---------------------------------------------------------------------------

/// Where the change events of a mux come from.
#[derive(Clone, Copy, Debug, PartialEq, Eq, Structural)]
pub enum EventSource {
    /// A control-mode child pushes notices.
    Control,
    /// The sessions are listed again after this many milliseconds.
    Poll { interval_ms: u64 },
}

impl EventSource {
    /// The channel, without its pace.
    pub fn channel(&self) -> (c: plan::EventSource)
        ensures
            c == if *self is Control {
                plan::EventSource::Control
            } else {
                plan::EventSource::Poll
            },
    {
        match self {
            EventSource::Control => plan::EventSource::Control,
            EventSource::Poll { .. } => plan::EventSource::Poll,
        }
    }
}

/// How a mux moves its display client to another session in place.
#[derive(Clone, Debug, PartialEq, Eq)]
pub enum SwitchPlan {
    /// Mux argvs to run in order.
    Exec(Vec<Vec<String>>),
    /// A command for the shell of the host.
    Shell(String),
}

/// A [`SwitchPlan`] with its texts as sequences.
pub enum SwitchPlanView {
    Exec(Seq<Seq<Seq<char>>>),
    Shell(Seq<char>),
}

impl View for SwitchPlan {
    type V = SwitchPlanView;

    open spec fn view(&self) -> SwitchPlanView {
        match self {
            SwitchPlan::Exec(v) => SwitchPlanView::Exec(argvs(v@)),
            SwitchPlan::Shell(s) => SwitchPlanView::Shell(s@),
        }
    }
}

/// The texts of a sequence of argvs.
pub open spec fn argvs(v: Seq<Vec<String>>) -> Seq<Seq<Seq<char>>> {
    v.map_values(|a: Vec<String>| text::texts(a@))
}

/// The texts of a sequence of answers.
pub open spec fn answers(v: Seq<Option<String>>) -> Seq<Option<Seq<char>>> {
    v.map_values(|o: Option<String>| text::opt_text(o))
}

/// What is known when a listing is read: the id of the source, whether its machine is
/// another one, and the session names in the local registry.
pub struct Listed {
    pub source: String,
    pub remote: bool,
    pub registry: Vec<String>,
}

/// A [`Listed`] with its texts as sequences.
pub struct ListedView {
    pub source: Seq<char>,
    pub remote: bool,
    pub registry: Seq<Seq<char>>,
}

impl View for Listed {
    type V = ListedView;

    open spec fn view(&self) -> ListedView {
        ListedView {
            source: self.source@,
            remote: self.remote,
            registry: text::texts(self.registry@),
        }
    }
}

/// What a listing command answered: its output, or its error.
pub open spec fn reply_view(r: Result<String, RunError>) -> Result<Seq<char>, RunErrorView> {
    match r {
        Ok(s) => Ok(s@),
        Err(e) => Err(e@),
    }
}

/// The sessions that were found, or the error.
pub open spec fn found_view(r: Result<Vec<Session>, RunError>) -> Result<
    Seq<SessionView>,
    RunErrorView,
> {
    match r {
        Ok(v) => Ok(session_views(v@)),
        Err(e) => Err(e@),
    }
}

/// What a listing command answered, with its output read as text.
pub open spec fn decoded(r: Result<Vec<u8>, RunError>) -> Result<Seq<char>, RunErrorView> {
    match r {
        Ok(b) => Ok(text::utf8_lossy(b@)),
        Err(e) => Err(e@),
    }
}

/// A multiplexer that xmux can drive.
pub trait Mux {
    /// The kind, as text.
    spec fn kind_text(&self) -> Seq<char>;

    /// The binary, as text.
    spec fn bin_text(&self) -> Seq<char>;

    /// What the mux is asked to name itself.
    spec fn probe_words(&self) -> Seq<Seq<Seq<char>>>;

    /// The kind that the answers to the probes name.
    spec fn named_by(&self, outputs: Seq<Option<Seq<char>>>) -> Option<Seq<char>>;

    /// One server for all sessions, or one for each.
    spec fn serves(&self) -> ServerModel;

    /// Whether `-S <socket>` is understood.
    spec fn knows_sockets(&self) -> bool;

    /// Whether the mux names a session that it creates, and prints the name.
    spec fn names_sessions(&self) -> bool;

    /// What a listing says.
    spec fn listing(
        &self,
        known: ListedView,
        reply: Result<Seq<char>, RunErrorView>,
    ) -> Result<Seq<SessionView>, RunErrorView>;

    /// The argv of an attach.
    spec fn attach_words(&self, session: Seq<char>) -> Seq<Seq<char>>;

    /// The argv of a control-mode child.
    spec fn control_words(&self) -> Option<Seq<Seq<char>>>;

    /// How a death is noticed.
    spec fn dies_by(&self) -> DeathSignal;

    /// Where change events come from.
    spec fn changes_by(&self) -> EventSource;

    /// The kind of mux this is, whatever its binary is called.
    fn kind(&self) -> (k: &str)
        ensures
            k@ == self.kind_text(),
    ;

    /// The name of the binary.
    fn bin(&self) -> (b: &str)
        ensures
            b@ == self.bin_text(),
    ;

    /// The argvs that ask the mux to name itself, in the order in which to ask.
    fn identity_probes(&self) -> (v: Vec<Vec<String>>)
        ensures
            argvs(v@) == self.probe_words(),
    ;

    /// The kind that the answers to the probes name, in lower case each, `None` where
    /// one failed. It may be that of another mux. `None` means that the answers are
    /// inconclusive.
    fn classify_identity(&self, outputs: &[Option<String>]) -> (k: Option<&'static str>)
        ensures
            text::opt_str(k) == self.named_by(answers(outputs@)),
    ;

    /// One server for all sessions, or one for each.
    fn server_model(&self) -> (m: ServerModel)
        ensures
            m == self.serves(),
    ;

    /// Whether the mux takes a server socket (`-S <path>`).
    fn takes_server_socket(&self) -> (r: bool)
        ensures
            r == self.knows_sockets(),
    ;

    /// Whether the mux names a session that it creates without a name, and prints what
    /// it has called it.
    fn assigns_new_session_name(&self) -> (r: bool)
        ensures
            r == self.names_sessions(),
    ;

    /// The argv that lists the sessions.
    fn list_sessions_plan(&self) -> (v: Vec<String>)
        default_ensures
            text::texts(v@) == vocab::list_sessions_argv(self.bin_text()),
    {
        vocab::list_sessions(self.bin())
    }

    /// The sessions that the listing names. A mux that is reachable and has none is no
    /// error.
    fn read_listing(&self, known: &Listed, reply: Result<String, RunError>) -> (r: Result<
        Vec<Session>,
        RunError,
    >)
        ensures
            found_view(r) == self.listing(known@, reply_view(reply)),
    ;

    /// The argv that attaches a client to `session`.
    fn attach_plan(&self, session: &str) -> (v: Vec<String>)
        ensures
            text::texts(v@) == self.attach_words(session@),
    ;

    /// How the display client is moved to `session` in place; `None` for a mux that
    /// cannot do that, whose client attaches anew.
    fn switch_in_place(&self, host_key: &str, session: &str, display_tty: Option<&str>) -> (p:
        Option<SwitchPlan>)
        default_ensures
            p is None,
    {
        None
    }

    /// The environment variable in which a client carries the session that it is on.
    fn display_session_env(&self) -> (r: Option<&str>)
        default_ensures
            r is None,
    {
        None
    }

    /// The argv of a control-mode child; `None` for a mux that has no such stream.
    fn control_argv(&self) -> (r: Option<Vec<String>>)
        ensures
            match r {
                Some(v) => self.control_words() == Some(text::texts(v@)),
                None => self.control_words() is None,
            },
    ;

    /// The protocol of the control-mode stream.
    fn control_protocol(&self) -> (r: Option<TmuxControl>)
        default_ensures
            r is None,
    {
        None
    }

    /// How the death of a session is noticed.
    fn death_signal(&self) -> (d: DeathSignal)
        ensures
            d == self.dies_by(),
    ;

    /// Where change events come from.
    fn event_source(&self) -> (e: EventSource)
        ensures
            e == self.changes_by(),
    ;

    /// The argv that creates a detached session.
    fn new_session_plan(&self, name: &str) -> (v: Vec<String>)
        default_ensures
            text::texts(v@) == vocab::new_session_argv(self.bin_text(), name@),
    {
        vocab::new_session(self.bin(), name)
    }

    /// The argv that makes the window `session:index` the active one.
    fn select_window_plan(&self, target: &str) -> (v: Vec<String>)
        default_ensures
            text::texts(v@) == vocab::select_window_argv(self.bin_text(), target@),
    {
        vocab::select_window(self.bin(), target)
    }

    /// The argv that lists the windows of `session`.
    fn list_panes_plan(&self, session: &str) -> (v: Vec<String>)
        default_ensures
            text::texts(v@) == vocab::list_panes_argv(self.bin_text(), session@),
    {
        vocab::list_panes(self.bin(), session)
    }
}

// ---------------------------------------------------------------------------
// The registry
// ---------------------------------------------------------------------------

/// The kinds of mux.
#[derive(Clone, Copy, Debug, PartialEq, Eq, Structural)]
pub enum Kind {
    Tmux,
    Abduco,
    Psmux,
    Zellij,
    Screen,
}

/// What a kind is called; its binary is called so by convention.
pub open spec fn kind_name(k: Kind) -> Seq<char> {
    match k {
        Kind::Tmux => "tmux"@,
        Kind::Abduco => "abduco"@,
        Kind::Psmux => "psmux"@,
        Kind::Zellij => "zellij"@,
        Kind::Screen => "screen"@,
    }
}

/// The kinds in the order of the registry.
pub open spec fn kinds() -> Seq<Kind> {
    seq![Kind::Tmux, Kind::Abduco, Kind::Psmux, Kind::Zellij, Kind::Screen]
}

/// The names of the kinds, in order.
pub open spec fn kind_names() -> Seq<Seq<char>> {
    seq!["tmux"@, "abduco"@, "psmux"@, "zellij"@, "screen"@]
}

/// The kind that is called `name`, if there is one.
pub open spec fn kind_called(name: Seq<char>) -> Option<Kind> {
    if name == "tmux"@ {
        Some(Kind::Tmux)
    } else if name == "abduco"@ {
        Some(Kind::Abduco)
    } else if name == "psmux"@ {
        Some(Kind::Psmux)
    } else if name == "zellij"@ {
        Some(Kind::Zellij)
    } else if name == "screen"@ {
        Some(Kind::Screen)
    } else {
        None
    }
}

/// The kind that is called `name`.
pub fn kind_of(name: &str) -> (k: Option<Kind>)
    ensures
        k == kind_called(name@),
{
    if text::same(name, "tmux") {
        Some(Kind::Tmux)
    } else if text::same(name, "abduco") {
        Some(Kind::Abduco)
    } else if text::same(name, "psmux") {
        Some(Kind::Psmux)
    } else if text::same(name, "zellij") {
        Some(Kind::Zellij)
    } else if text::same(name, "screen") {
        Some(Kind::Screen)
    } else {
        None
    }
}

/// Every mux that xmux can drive, in the order of the registry. Discovery looks for no
/// other.
pub fn supported_muxes() -> (v: Vec<&'static str>)
    ensures
        text::strs(v@) == kind_names(),
{
    let v: Vec<&'static str> = vec!["tmux", "abduco", "psmux", "zellij", "screen"];
    proof {
        assert(text::strs(v@) =~= kind_names());
    }
    v
}

/// Whether xmux knows a mux called `name`.
pub fn is_recognized(name: &str) -> (r: bool)
    ensures
        r == (kind_called(name@) is Some),
{
    kind_of(name).is_some()
}

/// The first of `names` that `s` holds, `skip` left out.
pub open spec fn first_named(names: Seq<Seq<char>>, s: Seq<char>, skip: Seq<char>) -> Option<
    Seq<char>,
>
    decreases names.len(),
{
    if names.len() == 0 {
        None
    } else if names[0] != skip && text::holds(s, names[0]) {
        Some(names[0])
    } else {
        first_named(names.drop_first(), s, skip)
    }
}

/// The first mux of the registry whose name `s` holds, `skip` left out.
pub fn named_mux_excluding(s: &str, skip: &str) -> (r: Option<&'static str>)
    ensures
        text::opt_str(r) == first_named(kind_names(), s@, skip@),
{
    let names = supported_muxes();
    let ghost all = kind_names();
    let mut i: usize = 0;
    proof {
        assert(all.skip(0) =~= all);
    }
    while i < names.len()
        invariant
            i <= names@.len(),
            all == kind_names(),
            text::strs(names@) == all,
            first_named(all, s@, skip@) == first_named(all.skip(i as int), s@, skip@),
        decreases names.len() - i,
    {
        proof {
            assert(all.skip(i as int)[0] == all[i as int]);
            assert(all[i as int] == names@[i as int]@);
            assert(all.skip(i as int).drop_first() =~= all.skip(i + 1));
        }
        if !text::same(names[i], skip) && text::contains(s, names[i]) {
            return Some(names[i]);
        }
        i += 1;
    }
    None
}

/// The mux that `s` names: the first of the registry whose name it holds.
pub open spec fn named_in(s: Seq<char>) -> Option<Seq<char>> {
    first_named(kind_names(), s, ""@)
}

/// The first mux of the registry whose name `s` holds.
pub fn named_mux(s: &str) -> (r: Option<&'static str>)
    ensures
        text::opt_str(r) == named_in(s@),
{
    named_mux_excluding(s, "")
}

/// A mux of the registry.
pub enum AnyMux {
    Tmux(Tmux),
    Abduco(Abduco),
    Psmux(Psmux),
    Zellij(Zellij),
    Screen(Screen),
}

/// What a mux of the registry is: its kind, and the binary that is run.
pub struct MuxView {
    pub kind: Kind,
    pub bin: Seq<char>,
}

impl View for AnyMux {
    type V = MuxView;

    open spec fn view(&self) -> MuxView {
        match self {
            AnyMux::Tmux(m) => MuxView { kind: Kind::Tmux, bin: m.bin@ },
            AnyMux::Abduco(m) => MuxView { kind: Kind::Abduco, bin: m.bin@ },
            AnyMux::Psmux(m) => MuxView { kind: Kind::Psmux, bin: m.bin@ },
            AnyMux::Zellij(m) => MuxView { kind: Kind::Zellij, bin: m.bin@ },
            AnyMux::Screen(m) => MuxView { kind: Kind::Screen, bin: m.bin@ },
        }
    }
}

/// The probes of a mux.
pub open spec fn probes_of(m: MuxView) -> Seq<Seq<Seq<char>>> {
    match m.kind {
        Kind::Tmux => seq![seq![m.bin, "help"@], seq![m.bin, "-V"@]],
        Kind::Abduco => seq![seq![m.bin, "-v"@]],
        Kind::Psmux => seq![seq![m.bin, "help"@]],
        Kind::Zellij => seq![seq![m.bin, "help"@]],
        Kind::Screen => seq![seq![m.bin, "-v"@]],
    }
}

/// The answer to the `i`th probe.
pub open spec fn answer(outputs: Seq<Option<Seq<char>>>, i: int) -> Option<Seq<char>> {
    if i < outputs.len() {
        outputs[i]
    } else {
        None
    }
}

/// What the answer to the only probe names.
pub open spec fn named_by_first(outputs: Seq<Option<Seq<char>>>) -> Option<Seq<char>> {
    match answer(outputs, 0) {
        Some(s) => named_in(s),
        None => None,
    }
}

/// The kind that the answers to the probes of a mux name. To tmux, which knows no
/// `help`, an answer to it names another mux, and only without one is the version
/// asked; to psmux, which calls itself an alternative to tmux, the name of tmux means
/// nothing.
pub open spec fn named_of(k: Kind, outputs: Seq<Option<Seq<char>>>) -> Option<Seq<char>> {
    match k {
        Kind::Tmux => {
            let other = match answer(outputs, 0) {
                Some(help) => first_named(kind_names(), help, "tmux"@),
                None => None,
            };
            if other is Some {
                other
            } else {
                match answer(outputs, 1) {
                    Some(version) => named_in(version),
                    None => None,
                }
            }
        },
        Kind::Psmux => match answer(outputs, 0) {
            Some(help) => first_named(kind_names(), help, "tmux"@),
            None => None,
        },
        _ => named_by_first(outputs),
    }
}

/// One server for all sessions, or one for each.
pub open spec fn serves_of(k: Kind) -> ServerModel {
    if k == Kind::Tmux {
        ServerModel::Shared
    } else {
        ServerModel::PerSession
    }
}

/// Whether a mux speaks as tmux does: it takes a server socket, and prints the names
/// of the sessions that it creates.
pub open spec fn like_tmux(k: Kind) -> bool {
    k == Kind::Tmux || k == Kind::Psmux
}

/// The argv of the listing.
pub open spec fn listing_words_of(m: MuxView) -> Seq<Seq<char>> {
    match m.kind {
        Kind::Abduco => seq![m.bin],
        Kind::Zellij => seq![m.bin, "list-sessions"@, "-n"@],
        Kind::Screen => seq![m.bin, "-ls"@],
        _ => vocab::list_sessions_argv(m.bin),
    }
}

/// What a listing says that is read by `rows`: its sessions, none where the mux is
/// idle, and else the error.
pub open spec fn listed(
    reply: Result<Seq<char>, RunErrorView>,
    rows: spec_fn(Seq<char>) -> Seq<SessionView>,
) -> Result<Seq<SessionView>, RunErrorView> {
    match reply {
        Ok(out) => Ok(rows(out)),
        Err(e) => if idle_error(e, lowered_error(e)) {
            Ok(Seq::empty())
        } else {
            Err(e)
        },
    }
}

/// What the listing of a mux says.
pub open spec fn listing_of(
    k: Kind,
    known: ListedView,
    reply: Result<Seq<char>, RunErrorView>,
) -> Result<Seq<SessionView>, RunErrorView> {
    match k {
        Kind::Tmux => listed(
            reply,
            |out: Seq<char>| vocab::listed_sessions(known.source, "tmux"@, out),
        ),
        Kind::Abduco => listed(
            reply,
            |out: Seq<char>| abduco::listed_sessions(known.source, "abduco"@, out),
        ),
        Kind::Psmux => psmux::psmux_listing(known, reply),
        Kind::Zellij => listed(reply, |out: Seq<char>| zellij::parse::listed_sessions(known.source, out)),
        Kind::Screen => screen::screen_listing(known, reply),
    }
}

/// The argv of an attach.
pub open spec fn attach_of(m: MuxView, session: Seq<char>) -> Seq<Seq<char>> {
    match m.kind {
        Kind::Tmux => vocab::attach_argv(m.bin, session),
        Kind::Abduco => seq![m.bin, "-a"@, session],
        Kind::Psmux => seq![m.bin, "new-session"@, "-A"@, "-s"@, session],
        Kind::Zellij => seq![m.bin, "attach"@, session],
        Kind::Screen => seq![m.bin, "-x"@, session],
    }
}

/// The switch in place of a mux, where it has one.
pub open spec fn switch_of(m: MuxView, host_key: Seq<char>, session: Seq<char>) -> Option<
    SwitchPlanView,
> {
    match m.kind {
        Kind::Tmux => Some(SwitchPlanView::Shell(tmux::switch_command(m.bin, host_key, session))),
        _ => None,
    }
}

/// The variable that names the session a client is on.
pub open spec fn session_var_of(k: Kind) -> Option<Seq<char>> {
    match k {
        Kind::Zellij => Some("ZELLIJ_SESSION_NAME"@),
        _ => None,
    }
}

/// The argv of a control-mode child.
pub open spec fn control_of(m: MuxView) -> Option<Seq<Seq<char>>> {
    match m.kind {
        Kind::Tmux => Some(seq![m.bin, "-CC"@, "attach"@]),
        _ => None,
    }
}

/// How a death is noticed.
pub open spec fn dies_of(k: Kind) -> DeathSignal {
    match k {
        Kind::Tmux => DeathSignal::ControlNotice,
        Kind::Psmux => DeathSignal::PathStat { dir_is_psmux_registry: true },
        _ => DeathSignal::Eof,
    }
}

/// Where change events come from.
pub open spec fn changes_of(k: Kind) -> EventSource {
    match k {
        Kind::Tmux => EventSource::Control,
        Kind::Abduco => EventSource::Poll { interval_ms: abduco::ABDUCO_POLL_MS },
        Kind::Psmux => EventSource::Poll { interval_ms: psmux::PSMUX_POLL_MS },
        Kind::Zellij => EventSource::Poll { interval_ms: zellij::ZELLIJ_POLL_MS },
        Kind::Screen => EventSource::Poll { interval_ms: screen::SCREEN_POLL_MS },
    }
}

/// The argv that creates a session.
pub open spec fn new_session_of(m: MuxView, name: Seq<char>) -> Seq<Seq<char>> {
    match m.kind {
        Kind::Abduco => seq![m.bin, "-n"@, name],
        Kind::Zellij => seq![m.bin, "attach"@, "-b"@, name],
        Kind::Screen => screen::vocab::new_session_argv(m.bin, name),
        _ => vocab::new_session_argv(m.bin, name),
    }
}

/// The argv that makes a window the active one.
pub open spec fn select_window_of(m: MuxView, target: Seq<char>) -> Seq<Seq<char>> {
    match m.kind {
        Kind::Zellij => zellij::select_window_argv(m.bin, target),
        Kind::Screen => screen::vocab::select_target_argv(m.bin, target),
        _ => vocab::select_window_argv(m.bin, target),
    }
}

/// The argv that lists the windows of a session.
pub open spec fn list_panes_of(m: MuxView, session: Seq<char>) -> Seq<Seq<char>> {
    match m.kind {
        Kind::Screen => screen::vocab::windows_argv(m.bin, session),
        _ => vocab::list_panes_argv(m.bin, session),
    }
}

impl AnyMux {
    /// The mux of a kind that is run by this binary.
    pub fn make(kind: Kind, bin: &str) -> (m: AnyMux)
        ensures
            m@ == (MuxView { kind, bin: bin@ }),
    {
        match kind {
            Kind::Tmux => AnyMux::Tmux(Tmux { bin: bin.to_owned() }),
            Kind::Abduco => AnyMux::Abduco(Abduco { bin: bin.to_owned() }),
            Kind::Psmux => AnyMux::Psmux(Psmux { bin: bin.to_owned() }),
            Kind::Zellij => AnyMux::Zellij(Zellij { bin: bin.to_owned() }),
            Kind::Screen => AnyMux::Screen(Screen { bin: bin.to_owned() }),
        }
    }

    /// The kind.
    pub fn mux_kind(&self) -> (k: Kind)
        ensures
            k == self@.kind,
    {
        match self {
            AnyMux::Tmux(_) => Kind::Tmux,
            AnyMux::Abduco(_) => Kind::Abduco,
            AnyMux::Psmux(_) => Kind::Psmux,
            AnyMux::Zellij(_) => Kind::Zellij,
            AnyMux::Screen(_) => Kind::Screen,
        }
    }

    /// A copy: the same kind, run by the same binary.
    pub fn clone_box(&self) -> (m: AnyMux)
        ensures
            m@ == self@,
    {
        AnyMux::make(self.mux_kind(), self.bin())
    }

    /// The sessions that the listing names, from the bytes that it printed.
    pub fn enumerate(&self, known: &Listed, reply: Result<Vec<u8>, RunError>) -> (r: Result<
        Vec<Session>,
        RunError,
    >)
        ensures
            found_view(r) == listing_of(self@.kind, known@, decoded(reply)),
    {
        let text_reply = match reply {
            Ok(b) => Ok(text::from_utf8_lossy(b.as_slice())),
            Err(e) => Err(e),
        };
        proof {
            assert(reply_view(text_reply) == decoded(reply));
        }
        self.read_listing(known, text_reply)
    }

    /// What a poll reports: the sessions, or why there are none to show.
    pub fn poll_once(&self, source: &str, known: &Listed, reply: Result<Vec<u8>, RunError>) -> (e:
        HostEvent)
        ensures
            e@ == polled(source@, listing_of(self@.kind, known@, decoded(reply))),
    {
        poll_event(source, self.enumerate(known, reply))
    }
}

/// What a poll reports of what was found.
pub open spec fn polled(source: Seq<char>, found: Result<Seq<SessionView>, RunErrorView>) -> HostEventView {
    match found {
        Ok(sessions) => HostEventView::Sessions { source, sessions, err: None },
        Err(e) => HostEventView::Sessions {
            source,
            sessions: Seq::empty(),
            err: Some(error_text(e)),
        },
    }
}

/// What a poll reports of what was found.
pub fn poll_event(source: &str, found: Result<Vec<Session>, RunError>) -> (e: HostEvent)
    ensures
        e@ == polled(source@, found_view(found)),
{
    match found {
        Ok(sessions) => HostEvent::Sessions { source: source.to_owned(), sessions, err: None },
        Err(err) => {
            let none: Vec<Session> = Vec::new();
            proof {
                assert(session_views(none@) =~= Seq::empty());
            }
            HostEvent::Sessions {
                source: source.to_owned(),
                sessions: none,
                err: Some(err.message()),
            }
        },
    }
}

impl Mux for AnyMux {
    open spec fn kind_text(&self) -> Seq<char> {
        kind_name(self@.kind)
    }

    open spec fn bin_text(&self) -> Seq<char> {
        self@.bin
    }

    open spec fn probe_words(&self) -> Seq<Seq<Seq<char>>> {
        probes_of(self@)
    }

    open spec fn named_by(&self, outputs: Seq<Option<Seq<char>>>) -> Option<Seq<char>> {
        named_of(self@.kind, outputs)
    }

    open spec fn serves(&self) -> ServerModel {
        serves_of(self@.kind)
    }

    open spec fn knows_sockets(&self) -> bool {
        like_tmux(self@.kind)
    }

    open spec fn names_sessions(&self) -> bool {
        like_tmux(self@.kind)
    }

    open spec fn listing(
        &self,
        known: ListedView,
        reply: Result<Seq<char>, RunErrorView>,
    ) -> Result<Seq<SessionView>, RunErrorView> {
        listing_of(self@.kind, known, reply)
    }

    open spec fn attach_words(&self, session: Seq<char>) -> Seq<Seq<char>> {
        attach_of(self@, session)
    }

    open spec fn control_words(&self) -> Option<Seq<Seq<char>>> {
        control_of(self@)
    }

    open spec fn dies_by(&self) -> DeathSignal {
        dies_of(self@.kind)
    }

    open spec fn changes_by(&self) -> EventSource {
        changes_of(self@.kind)
    }

    fn kind(&self) -> (k: &str)
{
        match self {
            AnyMux::Tmux(m) => m.kind(),
            AnyMux::Abduco(m) => m.kind(),
            AnyMux::Psmux(m) => m.kind(),
            AnyMux::Zellij(m) => m.kind(),
            AnyMux::Screen(m) => m.kind(),
        }
    }

    fn bin(&self) -> (b: &str)
{
        match self {
            AnyMux::Tmux(m) => m.bin(),
            AnyMux::Abduco(m) => m.bin(),
            AnyMux::Psmux(m) => m.bin(),
            AnyMux::Zellij(m) => m.bin(),
            AnyMux::Screen(m) => m.bin(),
        }
    }

    fn identity_probes(&self) -> (v: Vec<Vec<String>>)
{
        match self {
            AnyMux::Tmux(m) => m.identity_probes(),
            AnyMux::Abduco(m) => m.identity_probes(),
            AnyMux::Psmux(m) => m.identity_probes(),
            AnyMux::Zellij(m) => m.identity_probes(),
            AnyMux::Screen(m) => m.identity_probes(),
        }
    }

    fn classify_identity(&self, outputs: &[Option<String>]) -> (k: Option<&'static str>)
{
        match self {
            AnyMux::Tmux(m) => m.classify_identity(outputs),
            AnyMux::Abduco(m) => m.classify_identity(outputs),
            AnyMux::Psmux(m) => m.classify_identity(outputs),
            AnyMux::Zellij(m) => m.classify_identity(outputs),
            AnyMux::Screen(m) => m.classify_identity(outputs),
        }
    }

    fn server_model(&self) -> (m: ServerModel)
{
        match self {
            AnyMux::Tmux(m) => m.server_model(),
            AnyMux::Abduco(m) => m.server_model(),
            AnyMux::Psmux(m) => m.server_model(),
            AnyMux::Zellij(m) => m.server_model(),
            AnyMux::Screen(m) => m.server_model(),
        }
    }

    fn takes_server_socket(&self) -> (r: bool)
{
        match self {
            AnyMux::Tmux(m) => m.takes_server_socket(),
            AnyMux::Abduco(m) => m.takes_server_socket(),
            AnyMux::Psmux(m) => m.takes_server_socket(),
            AnyMux::Zellij(m) => m.takes_server_socket(),
            AnyMux::Screen(m) => m.takes_server_socket(),
        }
    }

    fn assigns_new_session_name(&self) -> (r: bool)
{
        match self {
            AnyMux::Tmux(m) => m.assigns_new_session_name(),
            AnyMux::Abduco(m) => m.assigns_new_session_name(),
            AnyMux::Psmux(m) => m.assigns_new_session_name(),
            AnyMux::Zellij(m) => m.assigns_new_session_name(),
            AnyMux::Screen(m) => m.assigns_new_session_name(),
        }
    }

    fn list_sessions_plan(&self) -> (v: Vec<String>)
        ensures
            text::texts(v@) == listing_words_of(self@),
    {
        match self {
            AnyMux::Tmux(m) => m.list_sessions_plan(),
            AnyMux::Abduco(m) => m.list_sessions_plan(),
            AnyMux::Psmux(m) => m.list_sessions_plan(),
            AnyMux::Zellij(m) => m.list_sessions_plan(),
            AnyMux::Screen(m) => m.list_sessions_plan(),
        }
    }

    fn read_listing(&self, known: &Listed, reply: Result<String, RunError>) -> (r: Result<
        Vec<Session>,
        RunError,
    >) {
        assert(self.listing(known@, reply_view(reply)) == listing_of(
            self@.kind,
            known@,
            reply_view(reply),
        ));
        match self {
            AnyMux::Tmux(m) => m.read_listing(known, reply),
            AnyMux::Abduco(m) => m.read_listing(known, reply),
            AnyMux::Psmux(m) => m.read_listing(known, reply),
            AnyMux::Zellij(m) => m.read_listing(known, reply),
            AnyMux::Screen(m) => m.read_listing(known, reply),
        }
    }

    fn attach_plan(&self, session: &str) -> (v: Vec<String>)
{
        match self {
            AnyMux::Tmux(m) => m.attach_plan(session),
            AnyMux::Abduco(m) => m.attach_plan(session),
            AnyMux::Psmux(m) => m.attach_plan(session),
            AnyMux::Zellij(m) => m.attach_plan(session),
            AnyMux::Screen(m) => m.attach_plan(session),
        }
    }

    fn switch_in_place(&self, host_key: &str, session: &str, display_tty: Option<&str>) -> (p:
        Option<SwitchPlan>)
        ensures
            match p {
                Some(s) => switch_of(self@, host_key@, session@) == Some(s@),
                None => switch_of(self@, host_key@, session@) is None,
            },
    {
        match self {
            AnyMux::Tmux(m) => m.switch_in_place(host_key, session, display_tty),
            AnyMux::Abduco(m) => m.switch_in_place(host_key, session, display_tty),
            AnyMux::Psmux(m) => m.switch_in_place(host_key, session, display_tty),
            AnyMux::Zellij(m) => m.switch_in_place(host_key, session, display_tty),
            AnyMux::Screen(m) => m.switch_in_place(host_key, session, display_tty),
        }
    }

    fn display_session_env(&self) -> (r: Option<&str>)
        ensures
            text::opt_str(r) == session_var_of(self@.kind),
    {
        match self {
            AnyMux::Tmux(m) => m.display_session_env(),
            AnyMux::Abduco(m) => m.display_session_env(),
            AnyMux::Psmux(m) => m.display_session_env(),
            AnyMux::Zellij(m) => m.display_session_env(),
            AnyMux::Screen(m) => m.display_session_env(),
        }
    }

    fn control_argv(&self) -> (r: Option<Vec<String>>)
{
        match self {
            AnyMux::Tmux(m) => m.control_argv(),
            AnyMux::Abduco(m) => m.control_argv(),
            AnyMux::Psmux(m) => m.control_argv(),
            AnyMux::Zellij(m) => m.control_argv(),
            AnyMux::Screen(m) => m.control_argv(),
        }
    }

    fn control_protocol(&self) -> (r: Option<TmuxControl>)
        ensures
            r is Some == (self@.kind == Kind::Tmux),
    {
        match self {
            AnyMux::Tmux(m) => m.control_protocol(),
            AnyMux::Abduco(m) => m.control_protocol(),
            AnyMux::Psmux(m) => m.control_protocol(),
            AnyMux::Zellij(m) => m.control_protocol(),
            AnyMux::Screen(m) => m.control_protocol(),
        }
    }

    fn death_signal(&self) -> (d: DeathSignal)
{
        match self {
            AnyMux::Tmux(m) => m.death_signal(),
            AnyMux::Abduco(m) => m.death_signal(),
            AnyMux::Psmux(m) => m.death_signal(),
            AnyMux::Zellij(m) => m.death_signal(),
            AnyMux::Screen(m) => m.death_signal(),
        }
    }

    fn event_source(&self) -> (e: EventSource)
{
        match self {
            AnyMux::Tmux(m) => m.event_source(),
            AnyMux::Abduco(m) => m.event_source(),
            AnyMux::Psmux(m) => m.event_source(),
            AnyMux::Zellij(m) => m.event_source(),
            AnyMux::Screen(m) => m.event_source(),
        }
    }

    fn new_session_plan(&self, name: &str) -> (v: Vec<String>)
        ensures
            text::texts(v@) == new_session_of(self@, name@),
    {
        match self {
            AnyMux::Tmux(m) => m.new_session_plan(name),
            AnyMux::Abduco(m) => m.new_session_plan(name),
            AnyMux::Psmux(m) => m.new_session_plan(name),
            AnyMux::Zellij(m) => m.new_session_plan(name),
            AnyMux::Screen(m) => m.new_session_plan(name),
        }
    }

    fn select_window_plan(&self, target: &str) -> (v: Vec<String>)
        ensures
            text::texts(v@) == select_window_of(self@, target@),
    {
        match self {
            AnyMux::Tmux(m) => m.select_window_plan(target),
            AnyMux::Abduco(m) => m.select_window_plan(target),
            AnyMux::Psmux(m) => m.select_window_plan(target),
            AnyMux::Zellij(m) => m.select_window_plan(target),
            AnyMux::Screen(m) => m.select_window_plan(target),
        }
    }

    fn list_panes_plan(&self, session: &str) -> (v: Vec<String>)
        ensures
            text::texts(v@) == list_panes_of(self@, session@),
    {
        match self {
            AnyMux::Tmux(m) => m.list_panes_plan(session),
            AnyMux::Abduco(m) => m.list_panes_plan(session),
            AnyMux::Psmux(m) => m.list_panes_plan(session),
            AnyMux::Zellij(m) => m.list_panes_plan(session),
            AnyMux::Screen(m) => m.list_panes_plan(session),
        }
    }
}

/// The mux whose binary is called `bin` by convention; `None` for a name that no kind
/// has.
pub fn for_binary(bin: &str) -> (r: Option<AnyMux>)
    ensures
        match kind_called(bin@) {
            Some(kind) => r matches Some(m) && m@ == (MuxView { kind, bin: bin@ }),
            None => r is None,
        },
{
    match kind_of(bin) {
        Some(kind) => Some(AnyMux::make(kind, bin)),
        None => None,
    }
}

/// The mux of the kind that is called `kind`, run by the binary `bin`; `None` for an
/// unknown kind.
pub fn for_kind(kind: &str, bin: &str) -> (r: Option<AnyMux>)
    ensures
        match kind_called(kind@) {
            Some(k) => r matches Some(m) && m@ == (MuxView { kind: k, bin: bin@ }),
            None => r is None,
        },
{
    match kind_of(kind) {
        Some(k) => Some(AnyMux::make(k, bin)),
        None => None,
    }
}

/// The socket that the mux binary `bin` is addressed over: the one that is named,
/// where the mux takes one.
pub open spec fn socket_for(bin: Seq<char>, socket: Option<Seq<char>>) -> Option<Seq<char>> {
    match kind_called(bin) {
        Some(k) => if like_tmux(k) {
            socket
        } else {
            None
        },
        None => None,
    }
}

/// The socket that the mux binary `bin` is addressed over. A mux that takes none, or
/// that no one knows, is never given one.
pub fn server_socket_for(bin: &str, socket: Option<String>) -> (r: Option<String>)
    ensures
        text::opt_text(r) == socket_for(bin@, text::opt_text(socket)),
{
    match for_binary(bin) {
        Some(m) => if m.takes_server_socket() {
            socket
        } else {
            None
        },
        None => None,
    }
}

/// Each probe runs a binary.
proof fn probes_are_commands(m: MuxView, i: int)
    requires
        0 <= i < probes_of(m).len(),
    ensures
        probes_of(m)[i].len() > 0,
{
    if i == 1 {
        assert(m.kind == Kind::Tmux);
    }
}

/// The commands that ask a mux to name itself over a transport.
pub fn probe_plan(transport: &Transport, mux: &AnyMux) -> (v: Vec<(String, Vec<String>)>)
    ensures
        v@.len() == probes_of(mux@).len(),
        forall|i: int|
            0 <= i < v@.len() ==> ((#[trigger] v@[i]).0@, text::texts(v@[i].1@)) == exec_words(
                transport@,
                false,
                probes_of(mux@)[i],
            ),
{
    let probes = mux.identity_probes();
    let mut v: Vec<(String, Vec<String>)> = Vec::new();
    let mut i: usize = 0;
    proof {
        assert(argvs(probes@).len() == probes@.len());
    }
    while i < probes.len()
        invariant
            i <= probes@.len(),
            argvs(probes@) == probes_of(mux@),
            v@.len() == i,
            forall|j: int|
                0 <= j < i ==> ((#[trigger] v@[j]).0@, text::texts(v@[j].1@)) == exec_words(
                    transport@,
                    false,
                    probes_of(mux@)[j],
                ),
        decreases probes.len() - i,
    {
        proof {
            assert(argvs(probes@)[i as int] == text::texts(probes@[i as int]@));
            probes_are_commands(mux@, i as int);
            assert(text::texts(probes@[i as int]@).len() == probes@[i as int]@.len());
        }
        v.push(transport.exec_argv(false, probes[i].as_slice()));
        i += 1;
    }
    v
}

/// What a probe answered: its output in lower case, or nothing.
pub open spec fn heard(replies: Seq<Result<Vec<u8>, RunError>>) -> Seq<Option<Seq<char>>> {
    replies.map_values(
        |r: Result<Vec<u8>, RunError>|
            match r {
                Ok(b) => Some(text::lowercase(text::utf8_lossy(b@))),
                Err(_) => None,
            },
    )
}

/// The outputs of probes in lower case, `None` where one failed.
pub fn probe_answers(replies: &Vec<Result<Vec<u8>, RunError>>) -> (v: Vec<Option<String>>)
    ensures
        answers(v@) == heard(replies@),
{
    let mut v: Vec<Option<String>> = Vec::new();
    let mut i: usize = 0;
    while i < replies.len()
        invariant
            i <= replies@.len(),
            v@.len() == i,
            forall|j: int|
                0 <= j < i ==> text::opt_text(#[trigger] v@[j]) == heard(replies@)[j],
        decreases replies.len() - i,
    {
        let said = match &replies[i] {
            Ok(b) => Some(
                text::to_lowercase(text::from_utf8_lossy(b.as_slice()).as_str()),
            ),
            Err(_) => None,
        };
        v.push(said);
        i += 1;
    }
    proof {
        assert(answers(v@) =~= heard(replies@));
    }
    v
}

/// The mux that the binary `bin` turns out to be, from what its probes answered: the
/// kind that they name, run by that binary.
pub open spec fn detected(bin: Seq<char>, outputs: Seq<Option<Seq<char>>>) -> Option<MuxView> {
    match kind_called(bin) {
        None => None,
        Some(k) => match named_of(k, outputs) {
            None => None,
            Some(name) => match kind_called(name) {
                None => None,
                Some(kind) => Some(MuxView { kind, bin }),
            },
        },
    }
}

/// The mux that the binary `bin` turns out to be, from the answers to its probes, each
/// in lower case. `None` where the binary is unknown or the answers are inconclusive.
pub fn detect_from(bin: &str, outputs: &[Option<String>]) -> (r: Option<AnyMux>)
    ensures
        match r {
            Some(m) => detected(bin@, answers(outputs@)) == Some(m@),
            None => detected(bin@, answers(outputs@)) is None,
        },
{
    match for_binary(bin) {
        None => None,
        Some(mux) => match mux.classify_identity(outputs) {
            None => None,
            Some(kind) => for_kind(kind, bin),
        },
    }
}

/// The mux that the binary `bin` turns out to be, from what its probes printed.
pub fn detect_backend(bin: &str, replies: &Vec<Result<Vec<u8>, RunError>>) -> (r: Option<AnyMux>)
    ensures
        match r {
            Some(m) => detected(bin@, heard(replies@)) == Some(m@),
            None => detected(bin@, heard(replies@)) is None,
        },
{
    let outputs = probe_answers(replies);
    detect_from(bin, outputs.as_slice())
}

/// Whether the kind is installed, from the answers to its probes: its binary answers
/// as that kind, and as no other.
pub open spec fn answers_as_itself(k: Kind, outputs: Seq<Option<Seq<char>>>) -> bool {
    named_of(k, outputs) == Some(kind_name(k))
}

/// The names of the kinds before the `n`th that are installed.
pub open spec fn installed(replies: Seq<Vec<Option<String>>>, n: int) -> Seq<Seq<char>>
    decreases n,
{
    if n <= 0 {
        Seq::empty()
    } else if n <= replies.len() && answers_as_itself(kinds()[n - 1], answers(replies[n - 1]@)) {
        installed(replies, n - 1).push(kind_names()[n - 1])
    } else {
        installed(replies, n - 1)
    }
}

/// The muxes that are installed on a machine, from the answers that the conventional
/// binary of each supported mux gave to its own probes, in the order of
/// [`supported_muxes`]. One that did not answer in time has no answers. A binary that
/// carries the name of one mux and answers as another is not that mux.
pub fn installed_muxes(replies: &Vec<Vec<Option<String>>>) -> (v: Vec<String>)
    ensures
        text::texts(v@) == installed(replies@, 5),
{
    let names = supported_muxes();
    let mut v: Vec<String> = Vec::new();
    let mut i: usize = 0;
    proof {
        assert(text::texts(v@) =~= installed(replies@, 0));
        assert(kind_names().len() == 5);
        assert(names@.len() == text::strs(names@).len());
    }
    while i < 5
        invariant
            i <= 5,
            names@.len() == 5,
            text::strs(names@) == kind_names(),
            text::texts(v@) == installed(replies@, i as int),
        decreases 5 - i,
    {
        let ghost before = v@;
        let name = names[i];
        proof {
            assert(text::strs(names@)[i as int] == name@);
            candidates_can_be_driven(i as int);
        }
        if i < replies.len() {
            if let Some(mux) = for_binary(name) {
                let hit = match mux.classify_identity(replies[i].as_slice()) {
                    Some(kind) => text::same(kind, name),
                    None => false,
                };
                if hit {
                    v.push(name.to_owned());
                    proof {
                        text::texts_push(before, v@.last());
                    }
                }
            }
        }
        i += 1;
    }
    v
}

/// No two kinds share a name.
pub proof fn names_differ()
    ensures
        forall|k: Kind| kind_called(#[trigger] kind_name(k)) == Some(k),
{
    reveal_strlit("tmux");
    reveal_strlit("abduco");
    reveal_strlit("psmux");
    reveal_strlit("zellij");
    reveal_strlit("screen");
    assert("tmux"@.len() == 4);
    assert("psmux"@.len() == 5);
    assert("abduco"@[0] == 'a');
    assert("zellij"@[0] == 'z');
    assert("screen"@[0] == 's');
}

// ---------------------------------------------------------------------------
// Laws of the registry
// ---------------------------------------------------------------------------

/// Every mux that discovery looks for can be driven, and as the kind it is called by.
pub proof fn candidates_can_be_driven(i: int)
    requires
        0 <= i < kind_names().len(),
    ensures
        kind_called(kind_names()[i]) == Some(kinds()[i]),
        kind_name(kinds()[i]) == kind_names()[i],
{
    names_differ();
}

/// An unreachable machine is never taken for an idle mux: an error that is not the
/// end of a command stays an error, for every mux.
pub proof fn unreachable_is_an_error(k: Kind, known: ListedView, said: Seq<char>)
    requires
        k != Kind::Psmux || known.remote,
    ensures
        listing_of(k, known, Err(RunErrorView::Other(said))) == Err::<
            Seq<SessionView>,
            RunErrorView,
        >(RunErrorView::Other(said)),
{
}

/// A detection keeps the binary that was asked, and settles on a known kind only.
pub proof fn detection_keeps_the_binary(bin: Seq<char>, outputs: Seq<Option<Seq<char>>>)
    ensures
        detected(bin, outputs) matches Some(m) ==> m.bin == bin && kind_called(bin) is Some,
        (forall|i: int| 0 <= i < outputs.len() ==> outputs[i] is None) ==> detected(bin, outputs)
            is None,
{
}

/// A binary that is called tmux and whose help names psmux is psmux, whatever version
/// it claims.
pub proof fn alias_is_never_tmux(help: Seq<char>, version: Option<Seq<char>>)
    requires
        first_named(kind_names(), help, "tmux"@) == Some("psmux"@),
    ensures
        named_of(Kind::Tmux, seq![Some(help), version]) == Some("psmux"@),
        !answers_as_itself(Kind::Tmux, seq![Some(help), version]),
{
    names_differ();
    assert(kind_called(kind_name(Kind::Tmux)) == Some(Kind::Tmux));
    assert(kind_called(kind_name(Kind::Psmux)) == Some(Kind::Psmux));
}

// ---------------------------------------------------------------------------
// Laws of idle muxes
// ---------------------------------------------------------------------------

/// Whether a line, in lower case, is a mux saying that it has nothing to show.
pub open spec fn says_idle(line: Seq<char>) -> bool {
    let t = text::trimmed(line);
    ||| t.len() >= 17 && t.take(17) == "no server running"@
    ||| t.len() >= 11 && t.take(11) == "no sessions"@
    ||| t.len() >= 25 && t.take(25) == "no active zellij sessions"@
}

/// A text says that a mux is idle exactly where one of its lines does, wherever it stands.
pub proof fn idle_is_told_by_a_line(a: Seq<char>, b: Seq<char>)
    ensures
        idle_text(a + seq!['\n'] + b) <==> idle_text(a) || idle_text(b),
        !a.contains('\n') ==> (idle_text(a) <==> says_idle(a)),
{
    reveal_strlit("no server running");
    reveal_strlit("no sessions");
    reveal_strlit("no active zellij sessions");
    let x = text::pieces(a, '\n');
    let y = text::pieces(b, '\n');
    text::pieces_of_join(a, '\n', b);
    let all = x + y;
    if idle_text(a) {
        let i = choose|i: int| 0 <= i < x.len() && idle_line(#[trigger] x[i]);
        assert(idle_line(all[i]));
    }
    if idle_text(b) {
        let i = choose|i: int| 0 <= i < y.len() && idle_line(#[trigger] y[i]);
        assert(all[x.len() + i] == y[i]);
        assert(idle_line(all[x.len() + i]));
    }
    if idle_text(a + seq!['\n'] + b) {
        let i = choose|i: int| 0 <= i < all.len() && idle_line(#[trigger] all[i]);
        if i < x.len() {
            assert(idle_line(x[i]));
        } else {
            assert(idle_line(y[i - x.len()]));
        }
    }
    if !a.contains('\n') {
        text::pieces_without(a, '\n');
        assert(x =~= seq![a]);
        assert(idle_line(a) <==> says_idle(a));
        if idle_line(a) {
            assert(idle_line(x[0]));
        }
    }
}

/// A command that ended and says that its mux is idle is no error, and lists no session;
/// every other error stays that error. One that was not found, could not be run or did not
/// reach its machine is never taken for an idle mux. Where screen ends with 1 it has no
/// sessions.
pub proof fn idle_mux_has_no_sessions(k: Kind, known: ListedView, stderr: Seq<char>, code: int)
    requires
        !(k is Psmux) || known.remote,
    ensures
        ({
            let e = RunErrorView::Exit { stderr, code };
            let r = listing_of(k, known, Err(e));
            let idle = code != 126 && code != 127 && code != 255 && idle_text(
                text::lowercase(stderr),
            );
            &&& idle || (k is Screen && code == 1) ==> r == Ok::<Seq<SessionView>, RunErrorView>(
                Seq::empty(),
            )
            &&& !idle && !(k is Screen && code == 1) ==> r == Err::<Seq<SessionView>, RunErrorView>(
                e,
            )
        }),
{
}

/// What a listing prints is read as the rows of its own mux, under the source that was
/// asked.
pub proof fn listing_is_read_as_its_mux_prints(known: ListedView, out: Seq<char>)
    ensures
        listing_of(Kind::Tmux, known, Ok(out)) == Ok::<Seq<SessionView>, RunErrorView>(
            vocab::listed_sessions(known.source, "tmux"@, out),
        ),
        listing_of(Kind::Abduco, known, Ok(out)) == Ok::<Seq<SessionView>, RunErrorView>(
            abduco::listed_sessions(known.source, "abduco"@, out),
        ),
        listing_of(Kind::Zellij, known, Ok(out)) == Ok::<Seq<SessionView>, RunErrorView>(
            zellij::parse::listed_sessions(known.source, out),
        ),
        listing_of(Kind::Screen, known, Ok(out)) == Ok::<Seq<SessionView>, RunErrorView>(
            screen::vocab::listed_sessions(known.source, "screen"@, out),
        ),
        known.remote ==> listing_of(Kind::Psmux, known, Ok(out)) == Ok::<
            Seq<SessionView>,
            RunErrorView,
        >(vocab::listed_sessions(known.source, "psmux"@, out)),
{
}

/// On this machine a listing of psmux never fails: what it describes stands in front, every
/// session of the registry is offered, and where the listing failed the registry alone.
pub proof fn local_psmux_offers_its_registry(
    known: ListedView,
    reply: Result<Seq<char>, RunErrorView>,
    name: Seq<char>,
)
    requires
        !known.remote,
    ensures
        listing_of(Kind::Psmux, known, reply) is Ok,
        known.registry.contains(name) ==> psmux::registry::covered(
            listing_of(Kind::Psmux, known, reply)->Ok_0,
            name,
        ),
        ({
            let detail = match reply {
                Ok(out) => vocab::listed_sessions(known.source, "psmux"@, out),
                Err(_) => Seq::empty(),
            };
            let all = listing_of(Kind::Psmux, known, reply)->Ok_0;
            known.registry.len() > 0 ==> detail.len() <= all.len() && all.take(
                detail.len() as int,
            ) == detail
        }),
{
    let detail = match reply {
        Ok(out) => vocab::listed_sessions(known.source, "psmux"@, out),
        Err(_) => Seq::empty(),
    };
    if known.registry.contains(name) {
        psmux::registry::registry_is_offered(known.source, known.registry, detail, name);
    }
    if known.registry.len() > 0 {
        assert(known.registry.contains(known.registry[0]));
        psmux::registry::registry_is_offered(
            known.source,
            known.registry,
            detail,
            known.registry[0],
        );
    }
}

/// What a poll reports: the sessions that were found and no error, or no session and the
/// error in words.
pub proof fn poll_reports_what_was_found(
    source: Seq<char>,
    sessions: Seq<SessionView>,
    e: RunErrorView,
)
    ensures
        polled(source, Ok(sessions)) == (HostEventView::Sessions { source, sessions, err: None }),
        polled(source, Err(e)) == (HostEventView::Sessions {
            source,
            sessions: Seq::empty(),
            err: Some(error_text(e)),
        }),
{
}

// ---------------------------------------------------------------------------
// Laws of detection
// ---------------------------------------------------------------------------

/// The mux that a text names is one of the names, not the one left out, that the text
/// holds, with none before it that the text holds; where none is named, the text holds
/// none.
pub proof fn first_named_is_the_first(names: Seq<Seq<char>>, s: Seq<char>, skip: Seq<char>) -> (at:
    int)
    ensures
        match first_named(names, s, skip) {
            Some(name) => {
                &&& 0 <= at < names.len()
                &&& names[at] == name
                &&& name != skip
                &&& text::holds(s, name)
                &&& forall|i: int|
                    0 <= i < at ==> #[trigger] names[i] == skip || !text::holds(s, names[i])
            },
            None => forall|i: int|
                0 <= i < names.len() ==> #[trigger] names[i] == skip || !text::holds(s, names[i]),
        },
    decreases names.len(),
{
    if names.len() == 0 {
        0
    } else if names[0] != skip && text::holds(s, names[0]) {
        0
    } else {
        let rest = names.drop_first();
        let at = first_named_is_the_first(rest, s, skip);
        match first_named(names, s, skip) {
            Some(name) => {
                assert(names[at + 1] == rest[at]);
                assert forall|i: int| 0 <= i < at + 1 implies #[trigger] names[i] == skip
                    || !text::holds(s, names[i]) by {
                    if i > 0 {
                        assert(rest[i - 1] == names[i]);
                    }
                }
            },
            None => {
                assert forall|i: int| 0 <= i < names.len() implies #[trigger] names[i] == skip
                    || !text::holds(s, names[i]) by {
                    if i > 0 {
                        assert(rest[i - 1] == names[i]);
                    }
                }
            },
        }
        at + 1
    }
}

/// Whether a text holds this name of a mux and no other.
pub open spec fn names_only(s: Seq<char>, name: Seq<char>) -> bool {
    &&& text::holds(s, name)
    &&& forall|i: int|
        0 <= i < 5 && #[trigger] kind_names()[i] != name ==> !text::holds(s, kind_names()[i])
}

/// A binary is what its answer names: whichever mux it is called after, the answer to its
/// only probe tells the kind, and the binary stays.
pub proof fn answer_tells_the_kind(bin: Seq<char>, k: Kind, said: Seq<char>)
    requires
        bin == "abduco"@ || bin == "zellij"@ || bin == "screen"@,
        names_only(said, kind_name(k)),
    ensures
        detected(bin, seq![Some(said)]) == Some(MuxView { kind: k, bin }),
{
    names_differ();
    reveal_strlit("");
    let name = kind_name(k);
    let at = first_named_is_the_first(kind_names(), said, ""@);
    let i = kind_index(k);
    assert(kind_names()[i] == name);
    name_is_not_empty(k);
    if first_named(kind_names(), said, ""@) is Some {
        assert(kind_names()[at] == name);
    }
    name_of_bin(bin);
}

/// A binary called tmux is what its help names, tmux aside; without help that names one, it
/// is what its version names. One called psmux is what its help names, tmux aside.
pub proof fn help_tells_tmux_and_psmux_apart(
    k: Kind,
    help: Seq<char>,
    version: Seq<char>,
    no_help: Option<Seq<char>>,
)
    requires
        names_only(version, kind_name(k)),
        no_help matches Some(s) ==> forall|i: int|
            0 <= i < 5 && #[trigger] kind_names()[i] != "tmux"@ ==> !text::holds(
                s,
                kind_names()[i],
            ),
        !(k is Tmux) ==> text::holds(help, kind_name(k)) && forall|i: int|
            0 <= i < 5 && #[trigger] kind_names()[i] != kind_name(k) && kind_names()[i] != "tmux"@
                ==> !text::holds(help, kind_names()[i]),
    ensures
        detected("tmux"@, seq![no_help, Some(version)]) == Some(MuxView { kind: k, bin: "tmux"@ }),
        !(k is Tmux) ==> detected("tmux"@, seq![Some(help), Some(version)]) == Some(
            MuxView { kind: k, bin: "tmux"@ },
        ),
        !(k is Tmux) ==> detected("psmux"@, seq![Some(help)]) == Some(
            MuxView { kind: k, bin: "psmux"@ },
        ),
        detected("psmux"@, seq![no_help]) is None,
{
    names_differ();
    reveal_strlit("");
    let name = kind_name(k);
    let i = kind_index(k);
    assert(kind_names()[i] == name);
    name_is_not_empty(k);
    assert(kind_called(kind_name(Kind::Tmux)) == Some(Kind::Tmux));
    assert(kind_called(kind_name(Kind::Psmux)) == Some(Kind::Psmux));
    let at = first_named_is_the_first(kind_names(), version, ""@);
    if first_named(kind_names(), version, ""@) is Some {
        assert(kind_names()[at] == name);
    }
    if no_help is Some {
        let none = first_named_is_the_first(kind_names(), no_help->0, "tmux"@);
    }
    if !(k is Tmux) {
        assert(kind_called(name) == Some(k));
        let other = first_named_is_the_first(kind_names(), help, "tmux"@);
        if first_named(kind_names(), help, "tmux"@) is Some {
            assert(kind_names()[other] == name);
        }
    }
}

spec fn kind_index(k: Kind) -> int {
    match k {
        Kind::Tmux => 0,
        Kind::Abduco => 1,
        Kind::Psmux => 2,
        Kind::Zellij => 3,
        Kind::Screen => 4,
    }
}

proof fn name_is_not_empty(k: Kind)
    ensures
        kind_name(k) != ""@,
{
    reveal_strlit("");
    reveal_strlit("tmux");
    reveal_strlit("abduco");
    reveal_strlit("psmux");
    reveal_strlit("zellij");
    reveal_strlit("screen");
    assert(kind_name(k).len() > 0);
    assert(""@.len() == 0);
}

proof fn name_of_bin(bin: Seq<char>)
    requires
        bin == "abduco"@ || bin == "zellij"@ || bin == "screen"@,
    ensures
        kind_called(bin) is Some,
        !(kind_called(bin)->0 is Tmux),
        !(kind_called(bin)->0 is Psmux),
{
    names_differ();
    assert(kind_called(kind_name(Kind::Abduco)) == Some(Kind::Abduco));
    assert(kind_called(kind_name(Kind::Zellij)) == Some(Kind::Zellij));
    assert(kind_called(kind_name(Kind::Screen)) == Some(Kind::Screen));
}

/// A supported mux is offered exactly where its own binary answers as itself, and the muxes
/// stand in the order of the registry.
pub proof fn installed_answer_as_themselves(replies: Seq<Vec<Option<String>>>, n: int, i: int)
    requires
        0 <= i < n <= 5,
    ensures
        installed(replies, n).contains(kind_names()[i]) <==> i < replies.len()
            && answers_as_itself(kinds()[i], answers(replies[i]@)),
        forall|p: int|
            0 <= p < installed(replies, n).len() ==> installed(replies, n)[p] == kind_names()[
                #[trigger] place(replies, n, p)] && 0 <= place(replies, n, p) < n,
        forall|p: int, q: int|
            0 <= p < q < installed(replies, n).len() ==> #[trigger] place(replies, n, p)
                < #[trigger] place(replies, n, q),
    decreases n,
{
    names_differ();
    let less = installed(replies, n - 1);
    let all = installed(replies, n);
    if n > 1 {
        installed_answer_as_themselves(
            replies,
            n - 1,
            if i < n - 1 {
                i
            } else {
                0
            },
        );
    } else {
        assert(less.len() == 0);
    }
    let hit = n <= replies.len() && answers_as_itself(kinds()[n - 1], answers(replies[n - 1]@));
    assert forall|p: int| 0 <= p < all.len() implies all[p] == kind_names()[
        #[trigger] place(replies, n, p)] && 0 <= place(replies, n, p) < n by {
        if p < less.len() {
            assert(less[p] == kind_names()[place(replies, n - 1, p)]);
        }
    }
    assert forall|p: int, q: int| 0 <= p < q < all.len() implies #[trigger] place(replies, n, p)
        < #[trigger] place(replies, n, q) by {
        if q < less.len() {
            assert(place(replies, n - 1, p) < place(replies, n - 1, q));
        } else {
            assert(less[p] == kind_names()[place(replies, n - 1, p)]);
        }
    }
    if all.contains(kind_names()[i]) {
        let p = choose|p: int| 0 <= p < all.len() && all[p] == kind_names()[i];
        let at = place(replies, n, p);
        assert(all[p] == kind_names()[at]);
        candidates_can_be_driven(i);
        candidates_can_be_driven(at);
        assert(kinds()[i] == kinds()[at]);
        assert(i == at);
        if i < n - 1 {
            assert(p < less.len());
            assert(less[p] == kind_names()[i]);
            assert(less.contains(less[p]));
        } else if p < less.len() {
            assert(less[p] == kind_names()[place(replies, n - 1, p)]);
        }
    }
    if i < n - 1 && less.contains(kind_names()[i]) {
        let p = choose|p: int| 0 <= p < less.len() && less[p] == kind_names()[i];
        assert(all[p] == kind_names()[i]);
    }
    if i == n - 1 && hit {
        assert(all[less.len() as int] == kind_names()[i]);
    }
}

/// The place in the registry of the `p`th mux that is installed.
pub open spec fn place(replies: Seq<Vec<Option<String>>>, n: int, p: int) -> int
    decreases n,
{
    if n <= 0 {
        -1
    } else if p < installed(replies, n - 1).len() {
        place(replies, n - 1, p)
    } else {
        n - 1
    }
}

// ---------------------------------------------------------------------------
// Laws of what each mux is
// ---------------------------------------------------------------------------

/// Only tmux has one server for all sessions, pushes its changes over a control stream and
/// reports the clients that detach; the others are looked at from time to time, and only
/// tmux and psmux take a socket and print the names they give.
pub proof fn muxes_differ_in_what_they_offer(k: Kind, bin: Seq<char>)
    ensures
        serves_of(k) is Shared <==> k is Tmux,
        like_tmux(k) <==> k is Tmux || k is Psmux,
        control_of(MuxView { kind: k, bin }) == if k is Tmux {
            Some(seq![bin, "-CC"@, "attach"@])
        } else {
            None
        },
        changes_of(k) is Control <==> k is Tmux,
        dies_of(k) is ControlNotice <==> k is Tmux,
        dies_of(k) == (DeathSignal::PathStat { dir_is_psmux_registry: true }) <==> k is Psmux,
        dies_of(k) is Eof <==> k is Abduco || k is Zellij || k is Screen,
        switch_of(MuxView { kind: k, bin }, bin, bin) is Some <==> k is Tmux,
        session_var_of(k) == if k is Zellij {
            Some("ZELLIJ_SESSION_NAME"@)
        } else {
            None
        },
        k is Psmux || k is Screen ==> changes_of(k) == (EventSource::Poll { interval_ms: 1500 }),
        k is Abduco ==> changes_of(k) == (EventSource::Poll { interval_ms: 2000 }),
        k is Zellij ==> changes_of(k) == (EventSource::Poll { interval_ms: 3000 }),
{
}

/// Each mux is asked to list, attach, create and name itself in its own words, by the binary
/// it is run by, with the session it is asked about unchanged.
pub proof fn muxes_are_asked_in_their_words(bin: Seq<char>, session: Seq<char>)
    requires
        session.len() > 0,
    ensures
        attach_of(MuxView { kind: Kind::Tmux, bin }, session) == seq![
            bin,
            "attach"@,
            "-t"@,
            session,
        ],
        attach_of(MuxView { kind: Kind::Abduco, bin }, session) == seq![bin, "-a"@, session],
        attach_of(MuxView { kind: Kind::Psmux, bin }, session) == seq![
            bin,
            "new-session"@,
            "-A"@,
            "-s"@,
            session,
        ],
        attach_of(MuxView { kind: Kind::Zellij, bin }, session) == seq![bin, "attach"@, session],
        attach_of(MuxView { kind: Kind::Screen, bin }, session) == seq![bin, "-x"@, session],
        listing_words_of(MuxView { kind: Kind::Abduco, bin }) == seq![bin],
        listing_words_of(MuxView { kind: Kind::Zellij, bin }) == seq![
            bin,
            "list-sessions"@,
            "-n"@,
        ],
        listing_words_of(MuxView { kind: Kind::Screen, bin }) == seq![bin, "-ls"@],
        listing_words_of(MuxView { kind: Kind::Psmux, bin }) == listing_words_of(
            MuxView { kind: Kind::Tmux, bin },
        ),
        listing_words_of(MuxView { kind: Kind::Tmux, bin }).take(2) == seq![
            bin,
            "list-sessions"@,
        ],
        new_session_of(MuxView { kind: Kind::Abduco, bin }, session) == seq![bin, "-n"@, session],
        new_session_of(MuxView { kind: Kind::Zellij, bin }, session) == seq![
            bin,
            "attach"@,
            "-b"@,
            session,
        ],
        new_session_of(MuxView { kind: Kind::Screen, bin }, session) == seq![
            bin,
            "-dmS"@,
            session,
        ],
        new_session_of(MuxView { kind: Kind::Tmux, bin }, session) == new_session_of(
            MuxView { kind: Kind::Psmux, bin },
            session,
        ),
        new_session_of(MuxView { kind: Kind::Tmux, bin }, session).last() == session,
        list_panes_of(MuxView { kind: Kind::Screen, bin }, session) == seq![
            bin,
            "-S"@,
            session,
            "-Q"@,
            "windows"@,
        ],
        probes_of(MuxView { kind: Kind::Tmux, bin }) == seq![
            seq![bin, "help"@],
            seq![bin, "-V"@],
        ],
        probes_of(MuxView { kind: Kind::Abduco, bin }) == seq![seq![bin, "-v"@]],
        probes_of(MuxView { kind: Kind::Psmux, bin }) == seq![seq![bin, "help"@]],
        probes_of(MuxView { kind: Kind::Zellij, bin }) == seq![seq![bin, "help"@]],
        probes_of(MuxView { kind: Kind::Screen, bin }) == seq![seq![bin, "-v"@]],
{
    assert(listing_words_of(MuxView { kind: Kind::Tmux, bin }).take(2) =~= seq![
        bin,
        "list-sessions"@,
    ]);
}

/// The window that is asked for is the one that becomes active, whatever the session is
/// called: zellij counts its tabs from one on, screen its windows as they are.
pub proof fn asked_window_is_selected(bin: Seq<char>, session: Seq<char>, index: i64)
    requires
        0 <= index < i64::MAX,
    ensures
        ({
            let target = vocab::window_target_text(session, index as int);
            &&& select_window_of(MuxView { kind: Kind::Zellij, bin }, target) == seq![
                bin,
                "--session"@,
                session,
                "action"@,
                "go-to-tab"@,
                number::decimal((index + 1) as nat),
            ]
            &&& select_window_of(MuxView { kind: Kind::Screen, bin }, target) == seq![
                bin,
                "-S"@,
                session,
                "-X"@,
                "select"@,
                number::decimal(index as nat),
            ]
            &&& select_window_of(MuxView { kind: Kind::Tmux, bin }, target) == seq![
                bin,
                "select-window"@,
                "-t"@,
                session + ":"@ + number::decimal(index as nat),
            ]
            &&& select_window_of(MuxView { kind: Kind::Psmux, bin }, target) == select_window_of(
                MuxView { kind: Kind::Tmux, bin },
                target,
            )
        }),
{
    vocab::target_reads_back(session, index);
}

/// A socket is handed on to tmux and psmux, and to no other.
pub proof fn sockets_are_for_those_that_take_them(bin: Seq<char>, socket: Option<Seq<char>>)
    ensures
        bin == "tmux"@ || bin == "psmux"@ ==> socket_for(bin, socket) == socket,
        bin != "tmux"@ && bin != "psmux"@ ==> socket_for(bin, socket) is None,
{
    names_differ();
    assert(kind_called(kind_name(Kind::Psmux)) == Some(Kind::Psmux));
}

/// A probe that answered is heard in lower case, and one that failed not at all.
pub proof fn probes_are_heard_in_order(replies: Seq<Result<Vec<u8>, RunError>>, i: int)
    requires
        0 <= i < replies.len(),
    ensures
        heard(replies).len() == replies.len(),
        replies[i] is Err ==> heard(replies)[i] is None,
        replies[i] matches Ok(b) ==> heard(replies)[i] == Some(
            text::lowercase(text::utf8_lossy(b@)),
        ),
{
}

} // verus!
