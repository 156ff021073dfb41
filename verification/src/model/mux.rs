//! The muxes that manage windows as tmux does: tmux, and psmux behind the same
//! commands.
use crate::model::plan::{DeathSignal, SwitchPlan, SwitchPlanView};
use crate::model::server_model::ServerModel;
use crate::model::source::RunError;
use crate::mux::vocab::{self, argv};
use crate::mux::{
    changes_of, control_of, decoded, dies_of, found_view, kind_name, listing_of, serves_of, AnyMux,
    EventSource, Kind, Listed, MuxView,
};
use crate::session::Session;
use crate::text;
use vstd::prelude::*;

verus! {

/// The argv that moves a client.
pub open spec fn switch_client_words(bin: Seq<char>, tty: Seq<char>, session: Seq<char>) -> Seq<
    Seq<char>,
> {
    seq![bin, "switch-client"@, "-c"@, tty, "-t"@, vocab::target_text(session)]
}

/// The argv that moves the client on `display_tty` to `session`.
fn switch_client(bin: &str, display_tty: &str, session: &str) -> (v: Vec<String>)
    ensures
        text::texts(v@) == switch_client_words(bin@, display_tty@, session@),
{
    let target = vocab::quote_target(session);
    let v = argv(&[bin, "switch-client", "-c", display_tty, "-t", target.as_str()]);
    proof {
        assert(text::texts(v@) =~= switch_client_words(bin@, display_tty@, session@));
    }
    v
}

/// A mux that manages windows as tmux does.
pub trait Mux {
    /// The kind, and the binary.
    spec fn view_of(&self) -> MuxView;

    /// The kind, whatever the binary is called.
    fn kind(&self) -> (k: &str)
        ensures
            k@ == kind_name(self.view_of().kind),
    ;

    /// The name of the binary.
    fn bin(&self) -> (b: &str)
        ensures
            b@ == self.view_of().bin,
    ;

    /// One server for all sessions, or one for each.
    fn server_model(&self) -> (m: ServerModel)
        ensures
            m == serves_of(self.view_of().kind),
    ;

    /// The sessions that the listing names.
    fn enumerate(&self, known: &Listed, reply: Result<Vec<u8>, RunError>) -> (r: Result<
        Vec<Session>,
        RunError,
    >)
        ensures
            found_view(r) == listing_of(self.view_of().kind, known@, decoded(reply)),
    ;

    /// The argv of an attach. A window is selected by itself.
    fn attach_plan(&self, session: &str, window: Option<i64>) -> (v: Vec<String>)
        ensures
            text::texts(v@) == vocab::attach_argv(self.view_of().bin, session@),
    ;

    /// Whether the one attachment of a host is moved to `session`: so it is where one
    /// server holds all sessions.
    fn switch_plan(&self, session: &str) -> (p: SwitchPlan)
        ensures
            p@ == if serves_of(self.view_of().kind) == ServerModel::Shared {
                SwitchPlanView::Switch { session: session@ }
            } else {
                SwitchPlanView::PerSessionNoOp
            },
    ;

    /// The argv that moves the client on `display_tty` to `session`.
    fn switch_client_argv(&self, display_tty: &str, session: &str) -> (v: Vec<String>)
        ensures
            text::texts(v@) == switch_client_words(self.view_of().bin, display_tty@, session@),
    ;

    /// The argv of a control-mode child; `None` for a mux that has no such stream.
    fn control_argv(&self) -> (r: Option<Vec<String>>)
        ensures
            match r {
                Some(v) => control_of(self.view_of()) == Some(text::texts(v@)),
                None => control_of(self.view_of()) is None,
            },
    ;

    /// How the death of a session is noticed.
    fn death_signal(&self) -> (d: DeathSignal)
        ensures
            d == dies_of(self.view_of().kind),
    ;

    /// Where change events come from.
    fn event_source(&self) -> (e: EventSource)
        ensures
            e == changes_of(self.view_of().kind),
    ;

    fn list_panes_plan(&self, session: &str) -> (v: Vec<String>)
        ensures
            text::texts(v@) == vocab::list_panes_argv(self.view_of().bin, session@),
    ;

    fn new_window_plan(&self, session: &str, name: &str) -> (v: Vec<String>)
        ensures
            text::texts(v@) == vocab::new_window_argv(self.view_of().bin, session@, name@),
    ;

    fn split_window_plan(&self, target: &str, vertical: bool) -> (v: Vec<String>)
        ensures
            text::texts(v@) == vocab::split_window_argv(self.view_of().bin, target@, vertical),
    ;

    fn select_window_plan(&self, target: &str) -> (v: Vec<String>)
        ensures
            text::texts(v@) == vocab::select_window_argv(self.view_of().bin, target@),
    ;

    fn kill_window_plan(&self, target: &str) -> (v: Vec<String>)
        ensures
            text::texts(v@) == vocab::kill_window_argv(self.view_of().bin, target@),
    ;

    fn rename_window_plan(&self, target: &str, new: &str) -> (v: Vec<String>)
        ensures
            text::texts(v@) == vocab::rename_window_argv(self.view_of().bin, target@, new@),
    ;
}

/// tmux: one server for all sessions.
pub struct Tmux {
    pub bin: String,
}

impl Mux for Tmux {
    open spec fn view_of(&self) -> MuxView {
        MuxView { kind: Kind::Tmux, bin: self.bin@ }
    }

    fn kind(&self) -> (k: &str) {
        "tmux"
    }

    fn bin(&self) -> (b: &str) {
        self.bin.as_str()
    }

    fn server_model(&self) -> (m: ServerModel) {
        ServerModel::Shared
    }

    fn enumerate(&self, known: &Listed, reply: Result<Vec<u8>, RunError>) -> (r: Result<
        Vec<Session>,
        RunError,
    >) {
        AnyMux::make(Kind::Tmux, self.bin.as_str()).enumerate(known, reply)
    }

    fn attach_plan(&self, session: &str, window: Option<i64>) -> (v: Vec<String>) {
        vocab::attach(self.bin.as_str(), session)
    }

    fn switch_plan(&self, session: &str) -> (p: SwitchPlan) {
        SwitchPlan::Switch { session: session.to_owned() }
    }

    fn switch_client_argv(&self, display_tty: &str, session: &str) -> (v: Vec<String>) {
        switch_client(self.bin.as_str(), display_tty, session)
    }

    fn control_argv(&self) -> (r: Option<Vec<String>>) {
        let v = argv(&[self.bin.as_str(), "-CC", "attach"]);
        proof {
            assert(text::texts(v@) =~= seq![self.bin@, "-CC"@, "attach"@]);
        }
        Some(v)
    }

    fn death_signal(&self) -> (d: DeathSignal) {
        DeathSignal::ControlNotice
    }

    fn event_source(&self) -> (e: EventSource) {
        EventSource::Control
    }

    fn list_panes_plan(&self, session: &str) -> (v: Vec<String>) {
        vocab::list_panes(self.bin.as_str(), session)
    }

    fn new_window_plan(&self, session: &str, name: &str) -> (v: Vec<String>) {
        vocab::new_window(self.bin.as_str(), session, name)
    }

    fn split_window_plan(&self, target: &str, vertical: bool) -> (v: Vec<String>) {
        vocab::split_window(self.bin.as_str(), target, vertical)
    }

    fn select_window_plan(&self, target: &str) -> (v: Vec<String>) {
        vocab::select_window(self.bin.as_str(), target)
    }

    fn kill_window_plan(&self, target: &str) -> (v: Vec<String>) {
        vocab::kill_window(self.bin.as_str(), target)
    }

    fn rename_window_plan(&self, target: &str, new: &str) -> (v: Vec<String>) {
        vocab::rename_window(self.bin.as_str(), target, new)
    }
}

/// psmux: one server per session.
pub struct Psmux {
    pub bin: String,
}

impl Mux for Psmux {
    open spec fn view_of(&self) -> MuxView {
        MuxView { kind: Kind::Psmux, bin: self.bin@ }
    }

    fn kind(&self) -> (k: &str) {
        "psmux"
    }

    fn bin(&self) -> (b: &str) {
        self.bin.as_str()
    }

    fn server_model(&self) -> (m: ServerModel) {
        ServerModel::PerSession
    }

    fn enumerate(&self, known: &Listed, reply: Result<Vec<u8>, RunError>) -> (r: Result<
        Vec<Session>,
        RunError,
    >) {
        AnyMux::make(Kind::Psmux, self.bin.as_str()).enumerate(known, reply)
    }

    fn attach_plan(&self, session: &str, window: Option<i64>) -> (v: Vec<String>) {
        vocab::attach(self.bin.as_str(), session)
    }

    fn switch_plan(&self, session: &str) -> (p: SwitchPlan) {
        SwitchPlan::PerSessionNoOp
    }

    fn switch_client_argv(&self, display_tty: &str, session: &str) -> (v: Vec<String>) {
        switch_client(self.bin.as_str(), display_tty, session)
    }

    fn control_argv(&self) -> (r: Option<Vec<String>>) {
        None
    }

    fn death_signal(&self) -> (d: DeathSignal) {
        DeathSignal::PathStat { dir_is_psmux_registry: true }
    }

    fn event_source(&self) -> (e: EventSource) {
        EventSource::Poll { interval_ms: 1500 }
    }

    fn list_panes_plan(&self, session: &str) -> (v: Vec<String>) {
        vocab::list_panes(self.bin.as_str(), session)
    }

    fn new_window_plan(&self, session: &str, name: &str) -> (v: Vec<String>) {
        vocab::new_window(self.bin.as_str(), session, name)
    }

    fn split_window_plan(&self, target: &str, vertical: bool) -> (v: Vec<String>) {
        vocab::split_window(self.bin.as_str(), target, vertical)
    }

    fn select_window_plan(&self, target: &str) -> (v: Vec<String>) {
        vocab::select_window(self.bin.as_str(), target)
    }

    fn kill_window_plan(&self, target: &str) -> (v: Vec<String>) {
        vocab::kill_window(self.bin.as_str(), target)
    }

    fn rename_window_plan(&self, target: &str, new: &str) -> (v: Vec<String>) {
        vocab::rename_window(self.bin.as_str(), target, new)
    }
}

/// One of the two.
pub enum Backend {
    Tmux(Tmux),
    Psmux(Psmux),
}

impl View for Backend {
    type V = MuxView;

    open spec fn view(&self) -> MuxView {
        match self {
            Backend::Tmux(m) => m.view_of(),
            Backend::Psmux(m) => m.view_of(),
        }
    }
}

impl Backend {
    pub fn kind(&self) -> (k: &str)
        ensures
            k@ == kind_name(self@.kind),
    {
        match self {
            Backend::Tmux(m) => m.kind(),
            Backend::Psmux(m) => m.kind(),
        }
    }

    pub fn bin(&self) -> (b: &str)
        ensures
            b@ == self@.bin,
    {
        match self {
            Backend::Tmux(m) => m.bin(),
            Backend::Psmux(m) => m.bin(),
        }
    }

    pub fn server_model(&self) -> (m: ServerModel)
        ensures
            m == serves_of(self@.kind),
    {
        match self {
            Backend::Tmux(m) => m.server_model(),
            Backend::Psmux(m) => m.server_model(),
        }
    }

    pub fn attach_plan(&self, session: &str, window: Option<i64>) -> (v: Vec<String>)
        ensures
            text::texts(v@) == vocab::attach_argv(self@.bin, session@),
    {
        match self {
            Backend::Tmux(m) => m.attach_plan(session, window),
            Backend::Psmux(m) => m.attach_plan(session, window),
        }
    }

    pub fn event_source(&self) -> (e: EventSource)
        ensures
            e == changes_of(self@.kind),
    {
        match self {
            Backend::Tmux(m) => m.event_source(),
            Backend::Psmux(m) => m.event_source(),
        }
    }
}

/// The kind that goes by a name: psmux by its own, tmux by any other.
pub open spec fn backend_kind(name: Seq<char>) -> Kind {
    if name == "psmux"@ {
        Kind::Psmux
    } else {
        Kind::Tmux
    }
}

/// The mux of the kind that goes by the name `kind`, run by `bin`.
pub fn for_kind(kind: &str, bin: &str) -> (b: Backend)
    ensures
        b@ == (MuxView { kind: backend_kind(kind@), bin: bin@ }),
{
    if text::same(kind, "psmux") {
        Backend::Psmux(Psmux { bin: bin.to_owned() })
    } else {
        Backend::Tmux(Tmux { bin: bin.to_owned() })
    }
}

/// The mux of the kind that goes by the name of its binary.
pub fn for_binary(bin: &str) -> (b: Backend)
    ensures
        b@ == (MuxView { kind: backend_kind(bin@), bin: bin@ }),
{
    for_kind(bin, bin)
}

/// The mux that a binary turns out to be: psmux names itself in its help; else a
/// version that is printed is that of a tmux; and without either nothing is known.
pub open spec fn backend_of(bin: Seq<char>, help: Option<Seq<char>>, versioned: bool) -> Option<
    MuxView,
> {
    if help matches Some(s) && text::holds(s, "psmux"@) {
        Some(MuxView { kind: Kind::Psmux, bin })
    } else if versioned {
        Some(MuxView { kind: Kind::Tmux, bin })
    } else {
        None
    }
}

/// The mux that the binary `bin` turns out to be, from what it printed for `help`, in
/// lower case, and whether it printed a version.
pub fn detect_from(bin: &str, help: Option<String>, versioned: bool) -> (r: Option<Backend>)
    ensures
        match r {
            Some(b) => backend_of(bin@, text::opt_text(help), versioned) == Some(b@),
            None => backend_of(bin@, text::opt_text(help), versioned) is None,
        },
{
    if let Some(s) = help {
        if text::contains(s.as_str(), "psmux") {
            return Some(Backend::Psmux(Psmux { bin: bin.to_owned() }));
        }
    }
    if versioned {
        Some(Backend::Tmux(Tmux { bin: bin.to_owned() }))
    } else {
        None
    }
}

/// The mux that the binary `bin` turns out to be, from what it answered to `help` and
/// to `-V`.
pub fn detect_backend(
    bin: &str,
    help: Result<Vec<u8>, RunError>,
    version: Result<Vec<u8>, RunError>,
) -> (r: Option<Backend>)
    ensures
        ({
            let said = match help {
                Ok(b) => Some(text::lowercase(text::utf8_lossy(b@))),
                Err(_) => None,
            };
            match r {
                Some(b) => backend_of(bin@, said, version is Ok) == Some(b@),
                None => backend_of(bin@, said, version is Ok) is None,
            }
        }),
{
    let said = match help {
        Ok(b) => Some(text::to_lowercase(text::from_utf8_lossy(b.as_slice()).as_str())),
        Err(_) => None,
    };
    detect_from(bin, said, version.is_ok())
}

/// A name is that of psmux where it is `psmux`, and that of tmux elsewhere.
pub proof fn backends_go_by_name(name: Seq<char>)
    ensures
        backend_kind(name) is Psmux <==> name == "psmux"@,
        backend_kind(name) is Tmux <==> name != "psmux"@,
{
}

/// A binary whose help names psmux is psmux, whatever version it prints; one that prints a
/// version is else tmux, and nothing is known of one that prints neither. It stays the binary
/// that was asked.
pub proof fn help_and_version_tell_the_backend(bin: Seq<char>, help: Seq<char>, versioned: bool)
    ensures
        text::holds(help, "psmux"@) ==> backend_of(bin, Some(help), versioned) == Some(
            MuxView { kind: Kind::Psmux, bin },
        ),
        !text::holds(help, "psmux"@) ==> backend_of(bin, Some(help), true) == Some(
            MuxView { kind: Kind::Tmux, bin },
        ),
        !text::holds(help, "psmux"@) ==> backend_of(bin, Some(help), false) is None,
        backend_of(bin, None, true) == Some(MuxView { kind: Kind::Tmux, bin }),
        backend_of(bin, None, false) is None,
{
}

/// A client is moved by its tty to the session, which the mux reads back as one word.
pub proof fn client_is_moved_by_its_tty(bin: Seq<char>, tty: Seq<char>, session: Seq<char>)
    ensures
        switch_client_words(bin, tty, session).take(5) == seq![
            bin,
            "switch-client"@,
            "-c"@,
            tty,
            "-t"@,
        ],
        switch_client_words(bin, tty, session).len() == 6,
        crate::shell::shell_words(switch_client_words(bin, tty, session)[5]) == seq![session],
{
    vocab::target_is_one_word(session);
    assert(switch_client_words(bin, tty, session).take(5) =~= seq![
        bin,
        "switch-client"@,
        "-c"@,
        tty,
        "-t"@,
    ]);
}

} // verus!
