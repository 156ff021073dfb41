//! A host: one machine reached by one transport and running one mux, with its sessions,
//! the record of what its attachments show, and whether it answers.
use crate::model::death::{self, is_own_detach};
use crate::model::plan::{DeathSignal, DisplayTty};
use crate::model::source::RunError;
use crate::model::transport::{interactive_words, transport_id, Transport, TransportView};
use crate::mux::vocab::{window_target, window_target_text};
use crate::mux::{
    attach_of, decoded, detect_backend, detected, dies_of, heard, listing_of, select_window_of,
    AnyMux, Listed, ListedView, Mux, MuxView,
};
use crate::session::{session_views, Session, SessionView};
use crate::table::{without_text, IdTable, Table};
use crate::text;
use std::collections::HashSet;
use vstd::prelude::*;

verus! {

/// Whether a host answers.
#[derive(Clone, Copy, Debug, PartialEq, Eq, Structural)]
pub enum Liveness {
    Connecting,
    Live,
    Unreachable,
}

impl Liveness {
    /// Whether a host answers, from the error of a scan.
    pub fn from_scan_err(err: &Option<String>) -> (l: Liveness)
        ensures
            l == if *err is Some {
                Liveness::Unreachable
            } else {
                Liveness::Live
            },
    {
        if err.is_some() {
            Liveness::Unreachable
        } else {
            Liveness::Live
        }
    }
}

// ---------------------------------------------------------------------------
// The display
// ---------------------------------------------------------------------------

/// The record of what the attachments of a host show, and of those that are being
/// started. The attachments themselves are elsewhere.
pub struct HostDisplay {
    /// The session that the attachment under a key shows.
    current: Table<String>,
    /// The number of the start that is under way for a key.
    in_flight: Table<u64>,
    /// Attachments whose child ended before they were reported as ready.
    reaped_ids: HashSet<u64>,
    /// The keys of the attachments that are being started.
    pending: IdTable,
}

/// What a [`HostDisplay`] records.
#[verifier::ext_equal]
pub struct DisplayView {
    pub current: Map<Seq<char>, Seq<char>>,
    pub in_flight: Map<Seq<char>, u64>,
    pub reaped: Set<u64>,
    pub pending: Map<u64, Seq<char>>,
}

/// What becomes of an attachment that is reported as ready.
#[derive(Clone, Debug, PartialEq, Eq)]
pub enum ReadyOutcome {
    /// Its child has ended already: it is let go.
    TearDownReaped,
    /// It is the latest that was asked for: it is shown.
    Install { shown: String },
    /// Another was asked for since: it is let go.
    TearDownStale,
}

/// A [`ReadyOutcome`] with its text as a sequence.
pub enum ReadyView {
    TearDownReaped,
    Install { shown: Seq<char> },
    TearDownStale,
}

impl View for ReadyOutcome {
    type V = ReadyView;

    open spec fn view(&self) -> ReadyView {
        match self {
            ReadyOutcome::TearDownReaped => ReadyView::TearDownReaped,
            ReadyOutcome::Install { shown } => ReadyView::Install { shown: shown@ },
            ReadyOutcome::TearDownStale => ReadyView::TearDownStale,
        }
    }
}

/// A record of nothing.
pub open spec fn blank_display() -> DisplayView {
    DisplayView {
        current: Map::empty(),
        in_flight: Map::empty(),
        reaped: Set::empty(),
        pending: Map::empty(),
    }
}

/// Whether the start with this number is the latest for the key.
pub open spec fn is_current(d: DisplayView, key: Seq<char>, seq: u64) -> bool {
    d.in_flight.dom().contains(key) && d.in_flight[key] == seq
}

/// The record without anything of a key.
pub open spec fn cleared(d: DisplayView, key: Seq<char>) -> DisplayView {
    DisplayView {
        current: d.current.remove(key),
        in_flight: d.in_flight.remove(key),
        pending: without_text(d.pending, key),
        ..d
    }
}

/// What becomes of an attachment that is reported as ready.
pub open spec fn ready_outcome(d: DisplayView, key: Seq<char>, seq: u64, id: u64) -> ReadyView {
    if d.reaped.contains(id) {
        ReadyView::TearDownReaped
    } else if is_current(d, key, seq) {
        ReadyView::Install {
            shown: if d.current.dom().contains(key) {
                d.current[key]
            } else {
                Seq::empty()
            },
        }
    } else {
        ReadyView::TearDownStale
    }
}

/// The record once an attachment was reported as ready. A report that came too late
/// does not touch the start that is under way.
pub open spec fn after_ready(d: DisplayView, key: Seq<char>, seq: u64, id: u64) -> DisplayView {
    DisplayView {
        in_flight: if d.reaped.contains(id) || is_current(d, key, seq) {
            d.in_flight.remove(key)
        } else {
            d.in_flight
        },
        reaped: d.reaped.remove(id),
        pending: d.pending.remove(id),
        ..d
    }
}

/// The record once a start has failed.
pub open spec fn after_failed(d: DisplayView, key: Seq<char>, seq: u64) -> DisplayView {
    if is_current(d, key, seq) {
        DisplayView {
            in_flight: d.in_flight.remove(key),
            pending: without_text(d.pending, key),
            ..d
        }
    } else {
        d
    }
}

/// The record once the child of an attachment has ended: noted, if it is one that is
/// being started.
pub open spec fn after_exit(d: DisplayView, id: u64) -> DisplayView {
    if d.pending.dom().contains(id) {
        DisplayView { reaped: d.reaped.insert(id), ..d }
    } else {
        d
    }
}

impl View for HostDisplay {
    type V = DisplayView;

    closed spec fn view(&self) -> DisplayView {
        DisplayView {
            current: self.current@.map_values(|s: String| s@),
            in_flight: self.in_flight@,
            reaped: self.reaped_ids@,
            pending: self.pending@,
        }
    }
}

impl Default for HostDisplay {
    fn default() -> (d: HostDisplay)
        ensures
            d@ == blank_display(),
    {
        let d = HostDisplay {
            current: Table::new(),
            in_flight: Table::new(),
            reaped_ids: HashSet::new(),
            pending: IdTable::new(),
        };
        proof {
            assert(d@ =~= blank_display());
        }
        d
    }
}

impl HostDisplay {
    /// The session that the attachment under `key` shows.
    pub fn shows(&self, key: &str) -> (r: Option<&str>)
        ensures
            match r {
                Some(s) => self@.current.dom().contains(key@) && self@.current[key@] == s@,
                None => !self@.current.dom().contains(key@),
            },
    {
        match self.current.get(key) {
            Some(s) => Some(s.as_str()),
            None => None,
        }
    }

    /// Notes that the attachment under `key` shows `session`.
    pub fn set_shows(&mut self, key: &str, session: &str)
        ensures
            final(self)@ == (DisplayView {
                current: old(self)@.current.insert(key@, session@),
                ..old(self)@
            }),
    {
        self.current.insert(key, session.to_owned());
        proof {
            assert(self@.current =~= old(self)@.current.insert(key@, session@));
        }
    }

    /// Notes that the start numbered `seq` is under way for `key`.
    pub fn mark_in_flight(&mut self, key: &str, seq: u64)
        ensures
            final(self)@ == (DisplayView {
                in_flight: old(self)@.in_flight.insert(key@, seq),
                ..old(self)@
            }),
    {
        self.in_flight.insert(key, seq);
    }

    /// Notes that the attachment `id` is being started for `key`.
    pub fn mark_pending(&mut self, id: u64, key: &str)
        ensures
            final(self)@ == (DisplayView {
                pending: old(self)@.pending.insert(id, key@),
                ..old(self)@
            }),
    {
        self.pending.insert(id, key);
    }

    /// Forgets everything about `key`, whose attachment is gone, the ids that are being
    /// started for it with the rest.
    pub fn clear(&mut self, key: &str)
        ensures
            final(self)@ == cleared(old(self)@, key@),
    {
        self.current.remove(key);
        self.in_flight.remove(key);
        self.pending.forget(key);
        proof {
            assert(self@.current =~= old(self)@.current.remove(key@));
        }
    }

    /// Whether a start is under way for `key`.
    pub fn in_flight_contains(&self, key: &str) -> (r: bool)
        ensures
            r == self@.in_flight.dom().contains(key@),
    {
        self.in_flight.contains_key(key)
    }

    /// Whether no start is under way.
    pub fn in_flight_is_empty(&self) -> (r: bool)
        ensures
            r == (self@.in_flight == Map::<Seq<char>, u64>::empty()),
    {
        let r = self.in_flight.len() == 0;
        proof {
            if r {
                assert forall|k: Seq<char>| !#[trigger] self.in_flight@.dom().contains(k) by {
                    if self.in_flight@.dom().contains(k) {
                        assert(self.in_flight.order().contains(k));
                    }
                }
                assert(self@.in_flight =~= Map::empty());
            } else {
                let k = self.in_flight.order()[0];
                assert(self.in_flight.order().contains(k));
                assert(self.in_flight@.dom().contains(k));
            }
        }
        r
    }

    /// The number of the start that is under way for `key`.
    pub fn in_flight_seq(&self, key: &str) -> (r: Option<u64>)
        ensures
            match r {
                Some(seq) => is_current(self@, key@, seq),
                None => !self@.in_flight.dom().contains(key@),
            },
    {
        match self.in_flight.get(key) {
            Some(seq) => Some(*seq),
            None => None,
        }
    }

    /// The key that the attachment `id` is being started for.
    pub fn pending_key(&self, id: u64) -> (r: Option<&str>)
        ensures
            match r {
                Some(k) => self@.pending.dom().contains(id) && self@.pending[id] == k@,
                None => !self@.pending.dom().contains(id),
            },
    {
        self.pending.get(id)
    }

    /// Whether no attachment is being started.
    pub fn pending_is_empty(&self) -> (r: bool)
        ensures
            r == (self@.pending == Map::<u64, Seq<char>>::empty()),
    {
        self.pending.is_empty()
    }

    /// Whether the child of the attachment `id` ended before it was ready.
    pub fn is_reaped(&self, id: u64) -> (r: bool)
        ensures
            r == self@.reaped.contains(id),
    {
        broadcast use vstd::std_specs::hash::group_hash_axioms;

        self.reaped_ids.contains(&id)
    }

    /// Whether a report on the start `seq` is one on the latest for `key`.
    pub fn reply_is_current(&self, key: &str, seq: u64) -> (r: bool)
        ensures
            r == is_current(self@, key@, seq),
    {
        match self.in_flight.get(key) {
            Some(s) => *s == seq,
            None => false,
        }
    }

    /// Says what becomes of the attachment `id` that is reported as ready, and notes it.
    pub fn resolve_ready(&mut self, key: &str, seq: u64, id: u64) -> (r: ReadyOutcome)
        ensures
            r@ == ready_outcome(old(self)@, key@, seq, id),
            final(self)@ == after_ready(old(self)@, key@, seq, id),
    {
        broadcast use vstd::std_specs::hash::group_hash_axioms;

        let was_reaped = self.reaped_ids.remove(&id);
        if was_reaped {
            self.in_flight.remove(key);
            self.pending.remove(id);
            proof {
                assert(self@ =~= after_ready(old(self)@, key@, seq, id));
            }
            return ReadyOutcome::TearDownReaped;
        }
        proof {
            assert(self@.reaped =~= old(self)@.reaped.remove(id));
        }
        if self.reply_is_current(key, seq) {
            self.in_flight.remove(key);
            self.pending.remove(id);
            let shown = match self.current.get(key) {
                Some(s) => s.clone(),
                None => String::new(),
            };
            proof {
                assert(shown@ =~= ready_outcome(old(self)@, key@, seq, id)->shown);
            }
            ReadyOutcome::Install { shown }
        } else {
            self.pending.remove(id);
            ReadyOutcome::TearDownStale
        }
    }

    /// Notes that the start `seq` for `key` has failed, and says whether it was the
    /// latest.
    pub fn resolve_failed(&mut self, key: &str, seq: u64) -> (r: bool)
        ensures
            r == is_current(old(self)@, key@, seq),
            final(self)@ == after_failed(old(self)@, key@, seq),
    {
        if self.reply_is_current(key, seq) {
            self.in_flight.remove(key);
            self.pending.forget(key);
            true
        } else {
            false
        }
    }

    /// Notes that the child of the attachment `id` has ended, if it is one that is being
    /// started, and says whether it is.
    pub fn mark_reaped_if_pending(&mut self, id: u64) -> (r: bool)
        ensures
            r == old(self)@.pending.dom().contains(id),
            final(self)@ == after_exit(old(self)@, id),
    {
        broadcast use vstd::std_specs::hash::group_hash_axioms;

        if self.pending.get(id).is_some() {
            self.reaped_ids.insert(id);
            true
        } else {
            false
        }
    }
}

// ---------------------------------------------------------------------------
// The host
// ---------------------------------------------------------------------------

/// The sessions of a host.
pub struct HostInventory {
    pub sessions: Vec<Session>,
}

/// A host.
pub struct Host {
    pub transport: Transport,
    pub mux: AnyMux,
    pub inventory: HostInventory,
    pub display: HostDisplay,
    /// The tty of this program's own client on the host.
    pub display_tty: DisplayTty,
    pub liveness: Liveness,
    /// Whether the mux has told what it is.
    pub detected: bool,
}

/// What a [`Host`] is.
#[verifier::ext_equal]
pub struct HostView {
    pub transport: TransportView,
    pub mux: MuxView,
    pub sessions: Seq<SessionView>,
    pub display: DisplayView,
    pub tty: Option<Seq<char>>,
    pub liveness: Liveness,
    pub detected: bool,
}

impl View for Host {
    type V = HostView;

    open spec fn view(&self) -> HostView {
        HostView {
            transport: self.transport@,
            mux: self.mux@,
            sessions: session_views(self.inventory.sessions@),
            display: self.display@,
            tty: self.display_tty@,
            liveness: self.liveness,
            detected: self.detected,
        }
    }
}

/// A host of which nothing is known yet.
pub open spec fn new_host(transport: TransportView, mux: MuxView) -> HostView {
    HostView {
        transport,
        mux,
        sessions: Seq::empty(),
        display: blank_display(),
        tty: None,
        liveness: Liveness::Connecting,
        detected: false,
    }
}

/// What is known when the listing of a host is read.
pub open spec fn known_of(h: HostView, registry: Seq<Seq<char>>) -> ListedView {
    ListedView { source: transport_id(h.transport), remote: h.transport is Ssh, registry }
}

/// The host once its mux has answered, or not, what it is. Another kind replaces the
/// one that was believed; the binary stays.
pub open spec fn corrected(h: HostView, outputs: Seq<Option<Seq<char>>>) -> HostView {
    if h.detected {
        h
    } else {
        match detected(h.mux.bin, outputs) {
            None => h,
            Some(mux) => HostView { mux, detected: true, ..h },
        }
    }
}

impl Host {
    /// A host of which nothing is known yet.
    pub fn new(transport: Transport, mux: AnyMux) -> (h: Host)
        ensures
            h@ == new_host(transport@, mux@),
    {
        let h = Host {
            transport,
            mux,
            inventory: HostInventory { sessions: Vec::new() },
            display: HostDisplay::default(),
            display_tty: DisplayTty(None),
            liveness: Liveness::Connecting,
            detected: false,
        };
        proof {
            assert(h@.sessions =~= Seq::empty());
        }
        h
    }

    /// The id: `local`, or the ssh alias.
    pub fn id(&self) -> (id: &str)
        ensures
            id@ == transport_id(self@.transport),
    {
        self.transport.host_id()
    }

    /// Takes in what the mux answered to its probes. Once it has told what it is, it is
    /// not asked again; until then, it is.
    pub fn detect_and_correct(&mut self, replies: &Vec<Result<Vec<u8>, RunError>>)
        ensures
            final(self)@ == corrected(old(self)@, heard(replies@)),
    {
        if self.detected {
            return ;
        }
        let bin = self.mux.bin().to_owned();
        match detect_backend(bin.as_str(), replies) {
            None => {},
            Some(mux) => {
                self.mux = mux;
                self.detected = true;
            },
        }
    }

    /// Takes in what the listing printed: the sessions, and that the host answers; or
    /// that it does not.
    pub fn enumerate_with(&mut self, registry: Vec<String>, reply: Result<Vec<u8>, RunError>) -> (r:
        Result<(), RunError>)
        ensures
            match listing_of(
                old(self)@.mux.kind,
                known_of(old(self)@, text::texts(registry@)),
                decoded(reply),
            ) {
                Ok(sessions) => r is Ok && final(self)@ == (HostView {
                    sessions,
                    liveness: Liveness::Live,
                    ..old(self)@
                }),
                Err(e) => (r matches Err(x) && x@ == e) && final(self)@ == (HostView {
                    liveness: Liveness::Unreachable,
                    ..old(self)@
                }),
            },
    {
        let known = Listed {
            source: self.transport.host_id().to_owned(),
            remote: self.transport.is_remote(),
            registry,
        };
        match self.mux.enumerate(&known, reply) {
            Ok(sessions) => {
                self.inventory.sessions = sessions;
                self.liveness = Liveness::Live;
                Ok(())
            },
            Err(e) => {
                self.liveness = Liveness::Unreachable;
                Err(e)
            },
        }
    }

    /// The argv that hands the terminal over to the session `name`, at `window` where one
    /// is asked for.
    pub fn interactive_attach_command(&self, name: &str, window: Option<i64>) -> (v: Vec<String>)
        ensures
            ({
                let (command, args) = interactive_words(
                    self@.transport,
                    attach_of(self@.mux, name@),
                    match window {
                        Some(w) => Some(
                            select_window_of(self@.mux, window_target_text(name@, w as int)),
                        ),
                        None => None,
                    },
                );
                text::texts(v@) == seq![command] + args
            }),
    {
        let attach = self.mux.attach_plan(name);
        let pre_select = match window {
            Some(w) => Some(self.mux.select_window_plan(window_target(name, w).as_str())),
            None => None,
        };
        proof {
            assert(text::texts(attach@).len() == attach@.len());
        }
        let (command, args) = self.transport.interactive_attach_argv(attach.as_slice(), pre_select);
        let v = prepend(command, args);
        v
    }

    /// Notes the tty of this program's own client.
    pub fn record_display_tty(&mut self, tty: Option<String>)
        ensures
            final(self)@ == (HostView { tty: text::opt_text(tty), ..old(self)@ }),
    {
        self.display_tty = DisplayTty(tty);
    }

    /// Forgets the tty: its client is gone.
    pub fn clear_display_tty(&mut self)
        ensures
            final(self)@ == (HostView { tty: None, ..old(self)@ }),
    {
        self.display_tty = DisplayTty(None);
    }

    /// Whether a client that has detached is this program's own.
    pub fn matches_display_tty(&self, client: &str) -> (r: bool)
        ensures
            r == is_own_detach(dies_of(self@.mux.kind), client@, self@.tty),
    {
        death::matches_display_tty(&self.mux.death_signal(), client, &self.display_tty)
    }

    /// Whether a session still lives, given whether its file in the registry exists. Only
    /// a mux with such files is asked for them; the sessions of any other count as alive
    /// until their end is reported.
    pub fn session_is_live(&self, port_file_exists: bool) -> (r: bool)
        ensures
            r == (dies_of(self@.mux.kind) != (DeathSignal::PathStat { dir_is_psmux_registry: true })
                || port_file_exists),
    {
        match self.mux.death_signal() {
            DeathSignal::PathStat { dir_is_psmux_registry: true } => port_file_exists,
            _ => true,
        }
    }
}

/// The words with one more in front.
pub fn prepend(first: String, rest: Vec<String>) -> (v: Vec<String>)
    ensures
        text::texts(v@) == seq![first@] + text::texts(rest@),
{
    let mut v = rest;
    v.insert(0, first);
    proof {
        assert(text::texts(v@) =~= seq![first@] + text::texts(rest@));
    }
    v
}

// ---------------------------------------------------------------------------
// Laws of the display record
// ---------------------------------------------------------------------------

/// Clearing a key leaves nothing of it: no session, no start, and no id that is being
/// started for it.
pub proof fn clearing_forgets(d: DisplayView, key: Seq<char>)
    ensures
        !cleared(d, key).current.dom().contains(key),
        !cleared(d, key).in_flight.dom().contains(key),
        forall|id: u64| #[trigger]
            cleared(d, key).pending.dom().contains(id) ==> cleared(d, key).pending[id] != key,
        cleared(cleared(d, key), key) == cleared(d, key),
{
    assert(cleared(cleared(d, key), key) =~= cleared(d, key));
}

/// Clearing one key leaves the others as they are.
pub proof fn clearing_keeps_the_rest(d: DisplayView, key: Seq<char>, other: Seq<char>)
    requires
        other != key,
    ensures
        cleared(d, key).current.dom().contains(other) == d.current.dom().contains(other),
        cleared(d, key).in_flight.dom().contains(other) == d.in_flight.dom().contains(other),
        d.current.dom().contains(other) ==> cleared(d, key).current[other] == d.current[other],
        d.in_flight.dom().contains(other) ==> cleared(d, key).in_flight[other]
            == d.in_flight[other],
{
}

/// An attachment whose child ended while it was being started is never shown: once the
/// end is noted, its report as ready has it let go.
pub proof fn dead_attachment_is_never_shown(
    d: DisplayView,
    id: u64,
    key: Seq<char>,
    seq: u64,
)
    requires
        d.pending.dom().contains(id),
    ensures
        ready_outcome(after_exit(d, id), key, seq, id) == ReadyView::TearDownReaped,
        !after_ready(after_exit(d, id), key, seq, id).pending.dom().contains(id),
        !after_ready(after_exit(d, id), key, seq, id).reaped.contains(id),
{
}

/// Only the latest start is shown, and a report on an earlier one does not touch it.
pub proof fn only_the_latest_is_shown(d: DisplayView, key: Seq<char>, old_seq: u64, new_seq: u64, id: u64)
    requires
        old_seq != new_seq,
        !d.reaped.contains(id),
    ensures
        ({
            let asked = DisplayView { in_flight: d.in_flight.insert(key, new_seq), ..d };
            &&& ready_outcome(asked, key, old_seq, id) == ReadyView::TearDownStale
            &&& after_ready(asked, key, old_seq, id).in_flight == asked.in_flight
            &&& after_failed(asked, key, old_seq) == asked
            &&& ready_outcome(asked, key, new_seq, id) is Install
            &&& !after_ready(asked, key, new_seq, id).in_flight.dom().contains(key)
        }),
{
}

/// A mux that has told what it is stays what it is.
pub proof fn detection_is_settled_once(
    h: HostView,
    first: Seq<Option<Seq<char>>>,
    more: Seq<Option<Seq<char>>>,
)
    requires
        corrected(h, first).detected,
    ensures
        corrected(corrected(h, first), more) == corrected(h, first),
{
}

/// What an attachment shows once it is ready is the session that was noted last under its
/// key.
pub proof fn ready_shows_what_was_noted(
    d: DisplayView,
    key: Seq<char>,
    session: Seq<char>,
    seq: u64,
    id: u64,
)
    requires
        !d.reaped.contains(id),
        d.in_flight.dom().contains(key),
        d.in_flight[key] == seq,
    ensures
        ready_outcome(
            DisplayView { current: d.current.insert(key, session), ..d },
            key,
            seq,
            id,
        ) == (ReadyView::Install { shown: session }),
{
}

/// A report that an attachment is ready takes its id off the record and ends its start; what
/// is shown, and what belongs to other keys and ids, stays.
pub proof fn ready_touches_its_own(
    d: DisplayView,
    key: Seq<char>,
    seq: u64,
    id: u64,
    other: Seq<char>,
    other_id: u64,
)
    requires
        other != key,
        other_id != id,
    ensures
        ({
            let after = after_ready(d, key, seq, id);
            &&& after.current == d.current
            &&& !after.pending.dom().contains(id)
            &&& !after.reaped.contains(id)
            &&& after.pending.dom().contains(other_id) == d.pending.dom().contains(other_id)
            &&& d.pending.dom().contains(other_id) ==> after.pending[other_id]
                == d.pending[other_id]
            &&& after.reaped.contains(other_id) == d.reaped.contains(other_id)
            &&& after.in_flight.dom().contains(other) == d.in_flight.dom().contains(other)
            &&& d.in_flight.dom().contains(other) ==> after.in_flight[other] == d.in_flight[other]
            &&& after.in_flight.dom().contains(key) ==> !d.reaped.contains(id)
                && after.in_flight[key] != seq && after.in_flight[key] == d.in_flight[key]
            &&& d.in_flight.dom().contains(key) && !d.reaped.contains(id) && d.in_flight[key] != seq
                ==> after.in_flight.dom().contains(key)
        }),
{
}

/// A start that fails, where it is the latest, leaves neither a start nor an id for its key;
/// what is shown, and what belongs to other keys, stays.
pub proof fn failed_start_is_forgotten(
    d: DisplayView,
    key: Seq<char>,
    seq: u64,
    other: Seq<char>,
    id: u64,
)
    requires
        d.in_flight.dom().contains(key),
        d.in_flight[key] == seq,
        other != key,
    ensures
        ({
            let after = after_failed(d, key, seq);
            &&& !after.in_flight.dom().contains(key)
            &&& after.current == d.current
            &&& after.reaped == d.reaped
            &&& after.in_flight.dom().contains(other) == d.in_flight.dom().contains(other)
            &&& d.in_flight.dom().contains(other) ==> after.in_flight[other] == d.in_flight[other]
            &&& after.pending.dom().contains(id) <==> d.pending.dom().contains(id)
                && d.pending[id] != key
            &&& after.pending.dom().contains(id) ==> after.pending[id] == d.pending[id]
        }),
{
}

/// The end of a child is noted where it is being started, and changes nothing otherwise.
pub proof fn early_end_is_noted(d: DisplayView, id: u64, other: u64)
    ensures
        ({
            let after = after_exit(d, id);
            &&& d.pending.dom().contains(id) ==> after.reaped.contains(id)
            &&& !d.pending.dom().contains(id) ==> after == d
            &&& other != id ==> after.reaped.contains(other) == d.reaped.contains(other)
            &&& after.current == d.current
            &&& after.in_flight == d.in_flight
            &&& after.pending == d.pending
        }),
{
}

/// Clearing a key keeps the ids that are being started for others.
pub proof fn clearing_keeps_other_ids(d: DisplayView, key: Seq<char>, id: u64)
    requires
        d.pending.dom().contains(id),
        d.pending[id] != key,
    ensures
        cleared(d, key).pending.dom().contains(id),
        cleared(d, key).pending[id] == d.pending[id],
        cleared(d, key).reaped == d.reaped,
{
}

/// A mux that has not told what it is takes what its probes say, under the binary it has;
/// the rest of the host stays, and where they say nothing all of it.
pub proof fn probes_correct_the_mux(h: HostView, outputs: Seq<Option<Seq<char>>>)
    requires
        !h.detected,
    ensures
        ({
            let after = corrected(h, outputs);
            &&& detected(h.mux.bin, outputs) is None ==> after == h
            &&& detected(h.mux.bin, outputs) matches Some(mux) ==> after.mux == mux
                && after.detected
            &&& after.transport == h.transport
            &&& after.sessions == h.sessions
            &&& after.display == h.display
            &&& after.tty == h.tty
            &&& after.liveness == h.liveness
        }),
{
}

} // verus!
