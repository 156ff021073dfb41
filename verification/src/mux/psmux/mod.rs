//! psmux: one server per session, found in a registry of files, polled for change, and
//! a client that attaches anew for each session.
use crate::model::plan::DeathSignal;
use crate::model::server_model::ServerModel;
use crate::model::source::{RunError, RunErrorView};
use crate::mux::vocab::{self, argv};
use crate::mux::{
    answers, argvs, attach_of, changes_of, control_of, dies_of, is_no_sessions, like_tmux, listing_of,
    named_of, probes_of, reply_view, serves_of, EventSource, Kind, Listed, ListedView, Mux, MuxView, listed,
    named_mux_excluding,
};
use crate::session::{session_views, Session, SessionView};
use crate::text;
use vstd::prelude::*;
use crate::mux::psmux::registry::{merge_psmux_sessions, merged};

pub mod display;
pub mod registry;

verus! {

/// The time between two looks at the sessions of psmux, in milliseconds.
pub const PSMUX_POLL_MS: u64 = 1500;

/// psmux.
pub struct Psmux {
    pub bin: String,
}

/// What the listing says. On another machine the listing is all there is. On this one
/// the registry says which sessions there are, and the listing, where it was printed,
/// describes them.
pub open spec fn psmux_listing(
    known: ListedView,
    reply: Result<Seq<char>, RunErrorView>,
) -> Result<Seq<SessionView>, RunErrorView> {
    if known.remote {
        listed(reply, |out: Seq<char>| vocab::listed_sessions(known.source, "psmux"@, out))
    } else {
        Ok(
            merged(
                known.source,
                known.registry,
                match reply {
                    Ok(out) => vocab::listed_sessions(known.source, "psmux"@, out),
                    Err(_) => Seq::empty(),
                },
            ),
        )
    }
}

impl Mux for Psmux {
    open spec fn kind_text(&self) -> Seq<char> {
        "psmux"@
    }

    open spec fn bin_text(&self) -> Seq<char> {
        self.bin@
    }

    open spec fn probe_words(&self) -> Seq<Seq<Seq<char>>> {
        probes_of(MuxView { kind: Kind::Psmux, bin: self.bin@ })
    }

    open spec fn named_by(&self, outputs: Seq<Option<Seq<char>>>) -> Option<Seq<char>> {
        named_of(Kind::Psmux, outputs)
    }

    open spec fn serves(&self) -> ServerModel {
        serves_of(Kind::Psmux)
    }

    open spec fn knows_sockets(&self) -> bool {
        like_tmux(Kind::Psmux)
    }

    open spec fn names_sessions(&self) -> bool {
        like_tmux(Kind::Psmux)
    }

    open spec fn listing(
        &self,
        known: ListedView,
        reply: Result<Seq<char>, RunErrorView>,
    ) -> Result<Seq<SessionView>, RunErrorView> {
        listing_of(Kind::Psmux, known, reply)
    }

    open spec fn attach_words(&self, session: Seq<char>) -> Seq<Seq<char>> {
        attach_of(MuxView { kind: Kind::Psmux, bin: self.bin@ }, session)
    }

    open spec fn control_words(&self) -> Option<Seq<Seq<char>>> {
        control_of(MuxView { kind: Kind::Psmux, bin: self.bin@ })
    }

    open spec fn dies_by(&self) -> DeathSignal {
        dies_of(Kind::Psmux)
    }

    open spec fn changes_by(&self) -> EventSource {
        changes_of(Kind::Psmux)
    }

    fn kind(&self) -> (k: &str) {
        "psmux"
    }

    fn bin(&self) -> (b: &str) {
        self.bin.as_str()
    }

    /// psmux names itself in its help.
    fn identity_probes(&self) -> (v: Vec<Vec<String>>) {
        let mut v: Vec<Vec<String>> = Vec::new();
        v.push(argv(&[self.bin.as_str(), "help"]));
        proof {
            assert(text::texts(v@[0]@) =~= seq![self.bin@, "help"@]);
            assert(argvs(v@) =~= self.probe_words());
        }
        v
    }

    /// The help of psmux presents it as an alternative to tmux: that name means nothing.
    fn classify_identity(&self, outputs: &[Option<String>]) -> (k: Option<&'static str>) {
        if outputs.len() == 0 {
            return None;
        }
        proof {
            assert(answers(outputs@)[0] == text::opt_text(outputs@[0]));
        }
        match &outputs[0] {
            Some(said) => named_mux_excluding(said.as_str(), "tmux"),
            None => None,
        }
    }

    fn server_model(&self) -> (m: ServerModel) {
        ServerModel::PerSession
    }

    fn takes_server_socket(&self) -> (r: bool) {
        true
    }

    fn assigns_new_session_name(&self) -> (r: bool) {
        true
    }

    fn read_listing(&self, known: &Listed, reply: Result<String, RunError>) -> (r: Result<
        Vec<Session>,
        RunError,
    >) {
        assert(self.listing(known@, reply_view(reply)) == listing_of(
            Kind::Psmux,
            known@,
            reply_view(reply),
        ));
        let none: Vec<Session> = Vec::new();
        proof {
            assert(session_views(none@) =~= Seq::empty());
        }
        if known.remote {
            match reply {
                Ok(out) => Ok(vocab::parse_sessions(known.source.as_str(), "psmux", out.as_str())),
                Err(e) => if is_no_sessions(&e) {
                    Ok(none)
                } else {
                    Err(e)
                },
            }
        } else {
            let detail = match reply {
                Ok(out) => vocab::parse_sessions(known.source.as_str(), "psmux", out.as_str()),
                Err(_) => none,
            };
            Ok(merge_psmux_sessions(known.source.as_str(), &known.registry, detail))
        }
    }

    /// `new-session -A` reaches the server of the session; a bare `attach` would reach
    /// the default one.
    fn attach_plan(&self, session: &str) -> (v: Vec<String>) {
        let v = argv(&[self.bin.as_str(), "new-session", "-A", "-s", session]);
        proof {
            assert(text::texts(v@) =~= seq![
                self.bin@,
                "new-session"@,
                "-A"@,
                "-s"@,
                session@,
            ]);
        }
        v
    }

    fn control_argv(&self) -> (r: Option<Vec<String>>) {
        None
    }

    /// A session lives as long as its file in the registry.
    fn death_signal(&self) -> (d: DeathSignal) {
        DeathSignal::PathStat { dir_is_psmux_registry: true }
    }

    fn event_source(&self) -> (e: EventSource) {
        EventSource::Poll { interval_ms: PSMUX_POLL_MS }
    }
}

} // verus!
