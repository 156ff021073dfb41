//! GNU screen: every query a process of its own, no control mode, and a client that
//! attaches anew for each session.
use crate::model::plan::DeathSignal;
use crate::model::server_model::ServerModel;
use crate::model::source::{RunError, RunErrorView};
use crate::mux::vocab::{argv, split_target};
use crate::mux::{
    answers, argvs, attach_of, changes_of, control_of, dies_of, is_no_sessions, like_tmux,
    listing_of, named_of, probes_of, reply_view, serves_of, EventSource, Kind, Listed, ListedView,
    Mux, MuxView, idle_error, lowered_error, named_mux,
};
use crate::session::{session_views, Session, SessionView};
use crate::text;
use vstd::prelude::*;

pub mod vocab;

verus! {

/// The time between two looks at the sessions of screen, in milliseconds.
pub const SCREEN_POLL_MS: u64 = 1500;

/// GNU screen.
pub struct Screen {
    pub bin: String,
}

/// What the listing says. With exit code 1 screen is reachable, and has no sessions.
pub open spec fn screen_listing(
    known: ListedView,
    reply: Result<Seq<char>, RunErrorView>,
) -> Result<Seq<SessionView>, RunErrorView> {
    match reply {
        Ok(out) => Ok(vocab::listed_sessions(known.source, "screen"@, out)),
        Err(e) => if (e matches RunErrorView::Exit { code, .. } && code == 1) || idle_error(
            e,
            lowered_error(e),
        ) {
            Ok(Seq::empty())
        } else {
            Err(e)
        },
    }
}

impl Mux for Screen {
    open spec fn kind_text(&self) -> Seq<char> {
        "screen"@
    }

    open spec fn bin_text(&self) -> Seq<char> {
        self.bin@
    }

    open spec fn probe_words(&self) -> Seq<Seq<Seq<char>>> {
        probes_of(MuxView { kind: Kind::Screen, bin: self.bin@ })
    }

    open spec fn named_by(&self, outputs: Seq<Option<Seq<char>>>) -> Option<Seq<char>> {
        named_of(Kind::Screen, outputs)
    }

    open spec fn serves(&self) -> ServerModel {
        serves_of(Kind::Screen)
    }

    open spec fn knows_sockets(&self) -> bool {
        like_tmux(Kind::Screen)
    }

    open spec fn names_sessions(&self) -> bool {
        like_tmux(Kind::Screen)
    }

    open spec fn listing(
        &self,
        known: ListedView,
        reply: Result<Seq<char>, RunErrorView>,
    ) -> Result<Seq<SessionView>, RunErrorView> {
        listing_of(Kind::Screen, known, reply)
    }

    open spec fn attach_words(&self, session: Seq<char>) -> Seq<Seq<char>> {
        attach_of(MuxView { kind: Kind::Screen, bin: self.bin@ }, session)
    }

    open spec fn control_words(&self) -> Option<Seq<Seq<char>>> {
        control_of(MuxView { kind: Kind::Screen, bin: self.bin@ })
    }

    open spec fn dies_by(&self) -> DeathSignal {
        dies_of(Kind::Screen)
    }

    open spec fn changes_by(&self) -> EventSource {
        changes_of(Kind::Screen)
    }

    fn kind(&self) -> (k: &str) {
        "screen"
    }

    fn bin(&self) -> (b: &str) {
        self.bin.as_str()
    }

    /// screen names itself in `-v`.
    fn identity_probes(&self) -> (v: Vec<Vec<String>>) {
        let mut v: Vec<Vec<String>> = Vec::new();
        v.push(argv(&[self.bin.as_str(), "-v"]));
        proof {
            assert(text::texts(v@[0]@) =~= seq![self.bin@, "-v"@]);
            assert(argvs(v@) =~= self.probe_words());
        }
        v
    }

    fn classify_identity(&self, outputs: &[Option<String>]) -> (k: Option<&'static str>) {
        if outputs.len() == 0 {
            return None;
        }
        proof {
            assert(answers(outputs@)[0] == text::opt_text(outputs@[0]));
        }
        match &outputs[0] {
            Some(said) => named_mux(said.as_str()),
            None => None,
        }
    }

    fn server_model(&self) -> (m: ServerModel) {
        ServerModel::PerSession
    }

    /// The `-S` of screen names a session.
    fn takes_server_socket(&self) -> (r: bool) {
        false
    }

    /// A detached create prints nothing.
    fn assigns_new_session_name(&self) -> (r: bool) {
        false
    }

    fn list_sessions_plan(&self) -> (v: Vec<String>)
        ensures
            text::texts(v@) == seq![self.bin@, "-ls"@],
    {
        vocab::list_sessions(self.bin.as_str())
    }

    fn read_listing(&self, known: &Listed, reply: Result<String, RunError>) -> (r: Result<
        Vec<Session>,
        RunError,
    >) {
        assert(self.listing(known@, reply_view(reply)) == listing_of(
            Kind::Screen,
            known@,
            reply_view(reply),
        ));
        match reply {
            Ok(out) => Ok(vocab::parse_sessions(known.source.as_str(), "screen", out.as_str())),
            Err(e) => {
                let empty = match &e {
                    RunError::Exit { code, .. } => *code == 1,
                    RunError::Other(_) => false,
                };
                if empty || is_no_sessions(&e) {
                    let none: Vec<Session> = Vec::new();
                    proof {
                        assert(session_views(none@) =~= Seq::empty());
                    }
                    Ok(none)
                } else {
                    Err(e)
                }
            },
        }
    }

    fn attach_plan(&self, session: &str) -> (v: Vec<String>) {
        vocab::attach(self.bin.as_str(), session)
    }

    fn control_argv(&self) -> (r: Option<Vec<String>>) {
        None
    }

    /// The client attaches anew for each session: its end is that of the session.
    fn death_signal(&self) -> (d: DeathSignal) {
        DeathSignal::Eof
    }

    fn event_source(&self) -> (e: EventSource) {
        EventSource::Poll { interval_ms: SCREEN_POLL_MS }
    }

    fn new_session_plan(&self, name: &str) -> (v: Vec<String>)
        ensures
            text::texts(v@) == vocab::new_session_argv(self.bin@, name@),
    {
        vocab::new_session(self.bin.as_str(), name)
    }

    fn select_window_plan(&self, target: &str) -> (v: Vec<String>)
        ensures
            text::texts(v@) == vocab::select_target_argv(self.bin@, target@),
    {
        let (session, index) = split_target(target);
        vocab::select_window(self.bin.as_str(), session.as_str(), index)
    }

    fn list_panes_plan(&self, session: &str) -> (v: Vec<String>)
        ensures
            text::texts(v@) == vocab::windows_argv(self.bin@, session@),
    {
        vocab::windows(self.bin.as_str(), session)
    }
}

} // verus!
