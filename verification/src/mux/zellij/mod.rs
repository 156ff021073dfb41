//! zellij: one server per session, no control mode, and every query a command of its
//! own. It shares no argv with tmux.
use crate::model::plan::DeathSignal;
use crate::model::server_model::ServerModel;
use crate::model::source::{RunError, RunErrorView};
use crate::mux::vocab::{self, argv};
use crate::mux::{
    answers, argvs, attach_of, changes_of, control_of, dies_of, is_no_sessions, like_tmux, listing_of,
    named_of, probes_of, reply_view, serves_of, EventSource, Kind, Listed, ListedView, Mux, MuxView, named_mux,
};
use crate::session::{session_views, Session, SessionView};
use crate::text;
use vstd::prelude::*;
use crate::number;

pub mod display;
pub mod parse;

verus! {

/// The time between two looks at the sessions of zellij, in milliseconds.
pub const ZELLIJ_POLL_MS: u64 = 3000;

/// zellij.
pub struct Zellij {
    pub bin: String,
}

/// The number that zellij counts the tab with this index by: from one on, and from
/// one on for an index below zero too.
pub open spec fn tab_number(index: int) -> int {
    if index < 0 {
        1
    } else if index == i64::MAX {
        index
    } else {
        index + 1
    }
}

/// The argv that makes a tab the active one.
pub open spec fn select_window_argv(bin: Seq<char>, target: Seq<char>) -> Seq<Seq<char>> {
    let (session, index) = vocab::target_parts(target);
    seq![
        bin,
        "--session"@,
        session,
        "action"@,
        "go-to-tab"@,
        number::signed_decimal(tab_number(index)),
    ]
}

impl Mux for Zellij {
    open spec fn kind_text(&self) -> Seq<char> {
        "zellij"@
    }

    open spec fn bin_text(&self) -> Seq<char> {
        self.bin@
    }

    open spec fn probe_words(&self) -> Seq<Seq<Seq<char>>> {
        probes_of(MuxView { kind: Kind::Zellij, bin: self.bin@ })
    }

    open spec fn named_by(&self, outputs: Seq<Option<Seq<char>>>) -> Option<Seq<char>> {
        named_of(Kind::Zellij, outputs)
    }

    open spec fn serves(&self) -> ServerModel {
        serves_of(Kind::Zellij)
    }

    open spec fn knows_sockets(&self) -> bool {
        like_tmux(Kind::Zellij)
    }

    open spec fn names_sessions(&self) -> bool {
        like_tmux(Kind::Zellij)
    }

    open spec fn listing(
        &self,
        known: ListedView,
        reply: Result<Seq<char>, RunErrorView>,
    ) -> Result<Seq<SessionView>, RunErrorView> {
        listing_of(Kind::Zellij, known, reply)
    }

    open spec fn attach_words(&self, session: Seq<char>) -> Seq<Seq<char>> {
        attach_of(MuxView { kind: Kind::Zellij, bin: self.bin@ }, session)
    }

    open spec fn control_words(&self) -> Option<Seq<Seq<char>>> {
        control_of(MuxView { kind: Kind::Zellij, bin: self.bin@ })
    }

    open spec fn dies_by(&self) -> DeathSignal {
        dies_of(Kind::Zellij)
    }

    open spec fn changes_by(&self) -> EventSource {
        changes_of(Kind::Zellij)
    }

    fn kind(&self) -> (k: &str) {
        "zellij"
    }

    fn bin(&self) -> (b: &str) {
        self.bin.as_str()
    }

    /// zellij names itself in its help.
    fn identity_probes(&self) -> (v: Vec<Vec<String>>) {
        let mut v: Vec<Vec<String>> = Vec::new();
        v.push(argv(&[self.bin.as_str(), "help"]));
        proof {
            assert(text::texts(v@[0]@) =~= seq![self.bin@, "help"@]);
            assert(argvs(v@) =~= self.probe_words());
        }
        v
    }

    fn classify_identity(&self, outputs: &[Option<String>]) -> (k: Option<&'static str>) {
        if outputs.len() == 0 {
            return None;
        }
        proof {
            assert(answers(outputs@)[0] == text::opt_text(outputs@[0]));
        }
        match &outputs[0] {
            Some(said) => named_mux(said.as_str()),
            None => None,
        }
    }

    fn server_model(&self) -> (m: ServerModel) {
        ServerModel::PerSession
    }

    /// zellij has no such flag, and refuses an unexpected one before it reads the verb.
    fn takes_server_socket(&self) -> (r: bool) {
        false
    }

    /// A detached create needs the name, and prints nothing.
    fn assigns_new_session_name(&self) -> (r: bool) {
        false
    }

    /// `-n` prints no colours, and keeps the marker of a session that is gone.
    fn list_sessions_plan(&self) -> (v: Vec<String>)
        ensures
            text::texts(v@) == seq![self.bin@, "list-sessions"@, "-n"@],
    {
        let v = argv(&[self.bin.as_str(), "list-sessions", "-n"]);
        proof {
            assert(text::texts(v@) =~= seq![self.bin@, "list-sessions"@, "-n"@]);
        }
        v
    }

    fn read_listing(&self, known: &Listed, reply: Result<String, RunError>) -> (r: Result<
        Vec<Session>,
        RunError,
    >) {
        assert(self.listing(known@, reply_view(reply)) == listing_of(
            Kind::Zellij,
            known@,
            reply_view(reply),
        ));
        match reply {
            Ok(out) => Ok(parse::parse_sessions(known.source.as_str(), out.as_str())),
            Err(e) => if is_no_sessions(&e) {
                let none: Vec<Session> = Vec::new();
                proof {
                    assert(session_views(none@) =~= Seq::empty());
                }
                Ok(none)
            } else {
                Err(e)
            },
        }
    }

    /// A plain `attach`: to show a session must not create it.
    fn attach_plan(&self, session: &str) -> (v: Vec<String>) {
        let v = argv(&[self.bin.as_str(), "attach", session]);
        proof {
            assert(text::texts(v@) =~= seq![self.bin@, "attach"@, session@]);
        }
        v
    }

    /// A client that moves to another session rewrites this variable, and no server
    /// sees the move.
    fn display_session_env(&self) -> (r: Option<&str>)
        ensures
            text::opt_str(r) == Some("ZELLIJ_SESSION_NAME"@),
    {
        Some("ZELLIJ_SESSION_NAME")
    }

    fn control_argv(&self) -> (r: Option<Vec<String>>) {
        None
    }

    /// There is a server per session: the end of the attachment is that of the session.
    fn death_signal(&self) -> (d: DeathSignal) {
        DeathSignal::Eof
    }

    fn event_source(&self) -> (e: EventSource) {
        EventSource::Poll { interval_ms: ZELLIJ_POLL_MS }
    }

    /// `go-to-tab` counts from one.
    fn select_window_plan(&self, target: &str) -> (v: Vec<String>)
        ensures
            text::texts(v@) == select_window_argv(self.bin@, target@),
    {
        let (session, index) = vocab::split_target(target);
        let tab: i64 = if index < 0 {
            1
        } else if index == i64::MAX {
            index
        } else {
            index + 1
        };
        let n = number::print_i64(tab);
        let v = argv(
            &[self.bin.as_str(), "--session", session.as_str(), "action", "go-to-tab", n.as_str()],
        );
        proof {
            assert(text::texts(v@) =~= select_window_argv(self.bin@, target@));
        }
        v
    }

    /// `attach -b` starts the server of a session without attaching to it.
    fn new_session_plan(&self, name: &str) -> (v: Vec<String>)
        ensures
            text::texts(v@) == seq![self.bin@, "attach"@, "-b"@, name@],
    {
        let v = argv(&[self.bin.as_str(), "attach", "-b", name]);
        proof {
            assert(text::texts(v@) =~= seq![self.bin@, "attach"@, "-b"@, name@]);
        }
        v
    }
}

} // verus!
