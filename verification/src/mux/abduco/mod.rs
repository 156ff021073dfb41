//! abduco: one server per session, no control mode, no windows. Its own listing is
//! polled.
use crate::model::plan::DeathSignal;
use crate::model::server_model::ServerModel;
use crate::model::source::{RunError, RunErrorView};
use crate::mux::vocab::{self, argv};
use crate::mux::{
    answers, argvs, attach_of, changes_of, control_of, dies_of, is_no_sessions, like_tmux, listing_of,
    named_of, probes_of, reply_view, serves_of, EventSource, Kind, Listed, ListedView, Mux, MuxView, named_mux,
};
use crate::session::{session_views, session_views_push, Session, SessionView};
use crate::text;
use vstd::prelude::*;

verus! {

/// The time between two looks at the sessions of abduco, in milliseconds.
pub const ABDUCO_POLL_MS: u64 = 2000;

/// abduco.
pub struct Abduco {
    pub bin: String,
}

impl Mux for Abduco {
    open spec fn kind_text(&self) -> Seq<char> {
        "abduco"@
    }

    open spec fn bin_text(&self) -> Seq<char> {
        self.bin@
    }

    open spec fn probe_words(&self) -> Seq<Seq<Seq<char>>> {
        probes_of(MuxView { kind: Kind::Abduco, bin: self.bin@ })
    }

    open spec fn named_by(&self, outputs: Seq<Option<Seq<char>>>) -> Option<Seq<char>> {
        named_of(Kind::Abduco, outputs)
    }

    open spec fn serves(&self) -> ServerModel {
        serves_of(Kind::Abduco)
    }

    open spec fn knows_sockets(&self) -> bool {
        like_tmux(Kind::Abduco)
    }

    open spec fn names_sessions(&self) -> bool {
        like_tmux(Kind::Abduco)
    }

    open spec fn listing(
        &self,
        known: ListedView,
        reply: Result<Seq<char>, RunErrorView>,
    ) -> Result<Seq<SessionView>, RunErrorView> {
        listing_of(Kind::Abduco, known, reply)
    }

    open spec fn attach_words(&self, session: Seq<char>) -> Seq<Seq<char>> {
        attach_of(MuxView { kind: Kind::Abduco, bin: self.bin@ }, session)
    }

    open spec fn control_words(&self) -> Option<Seq<Seq<char>>> {
        control_of(MuxView { kind: Kind::Abduco, bin: self.bin@ })
    }

    open spec fn dies_by(&self) -> DeathSignal {
        dies_of(Kind::Abduco)
    }

    open spec fn changes_by(&self) -> EventSource {
        changes_of(Kind::Abduco)
    }

    fn kind(&self) -> (k: &str) {
        "abduco"
    }

    fn bin(&self) -> (b: &str) {
        self.bin.as_str()
    }

    /// abduco names itself in `-v`, and refuses `-V`.
    fn identity_probes(&self) -> (v: Vec<Vec<String>>) {
        let mut v: Vec<Vec<String>> = Vec::new();
        v.push(argv(&[self.bin.as_str(), "-v"]));
        proof {
            assert(text::texts(v@[0]@) =~= seq![self.bin@, "-v"@]);
            assert(argvs(v@) =~= self.probe_words());
        }
        v
    }

    fn classify_identity(&self, outputs: &[Option<String>]) -> (k: Option<&'static str>) {
        if outputs.len() == 0 {
            return None;
        }
        proof {
            assert(answers(outputs@)[0] == text::opt_text(outputs@[0]));
        }
        match &outputs[0] {
            Some(said) => named_mux(said.as_str()),
            None => None,
        }
    }

    fn server_model(&self) -> (m: ServerModel) {
        ServerModel::PerSession
    }

    /// abduco has no such flag; its sessions live below `~/.abduco`.
    fn takes_server_socket(&self) -> (r: bool) {
        false
    }

    /// `abduco -n` needs the name, and prints nothing.
    fn assigns_new_session_name(&self) -> (r: bool) {
        false
    }

    /// The bare binary is the listing.
    fn list_sessions_plan(&self) -> (v: Vec<String>)
        ensures
            text::texts(v@) == seq![self.bin@],
    {
        let v = argv(&[self.bin.as_str()]);
        proof {
            assert(text::texts(v@) =~= seq![self.bin@]);
        }
        v
    }

    fn read_listing(&self, known: &Listed, reply: Result<String, RunError>) -> (r: Result<
        Vec<Session>,
        RunError,
    >) {
        assert(self.listing(known@, reply_view(reply)) == listing_of(
            Kind::Abduco,
            known@,
            reply_view(reply),
        ));
        match reply {
            Ok(out) => Ok(parse_sessions(known.source.as_str(), "abduco", out.as_str())),
            Err(e) => if is_no_sessions(&e) {
                let none: Vec<Session> = Vec::new();
                proof {
                    assert(session_views(none@) =~= Seq::empty());
                }
                Ok(none)
            } else {
                Err(e)
            },
        }
    }

    fn attach_plan(&self, session: &str) -> (v: Vec<String>) {
        let v = argv(&[self.bin.as_str(), "-a", session]);
        proof {
            assert(text::texts(v@) =~= seq![self.bin@, "-a"@, session@]);
        }
        v
    }

    fn control_argv(&self) -> (r: Option<Vec<String>>) {
        None
    }

    /// There is a server per session: the end of the attachment is that of the session.
    fn death_signal(&self) -> (d: DeathSignal) {
        DeathSignal::Eof
    }

    fn event_source(&self) -> (e: EventSource) {
        EventSource::Poll { interval_ms: ABDUCO_POLL_MS }
    }

    /// `-n` creates a session without attaching to it.
    fn new_session_plan(&self, name: &str) -> (v: Vec<String>)
        ensures
            text::texts(v@) == seq![self.bin@, "-n"@, name@],
    {
        let v = argv(&[self.bin.as_str(), "-n", name]);
        proof {
            assert(text::texts(v@) =~= seq![self.bin@, "-n"@, name@]);
        }
        v
    }
}

/// The session that a row of the listing names: a status, the day, the time, the pid
/// and the name, with tabs between the last four. The status `*` means that a client is
/// attached. A header or a banner holds no tabs.
pub open spec fn session_row(source: Seq<char>, mux: Seq<char>, line: Seq<char>) -> Option<
    SessionView,
> {
    let fields = text::pieces(text::without_cr(line), '\t');
    if fields.len() < 4 {
        None
    } else {
        let name = text::joined(fields.skip(3), "\t"@);
        if name.len() == 0 {
            None
        } else {
            Some(
                SessionView {
                    source,
                    name,
                    mux,
                    windows: 1,
                    attached: fields[0].len() > 0 && fields[0][0] == '*',
                },
            )
        }
    }
}

/// The session that a row of the listing names.
pub fn parse_row(source: &str, mux: &str, line: &str) -> (r: Option<Session>)
    ensures
        match r {
            Some(s) => session_row(source@, mux@, line@) == Some(s@),
            None => session_row(source@, mux@, line@) is None,
        },
{
    let ln = text::strip_cr(line);
    let fields = text::split(ln.as_str(), '\t');
    proof {
        assert(text::texts(fields@).len() == fields@.len());
    }
    if fields.len() < 4 {
        return None;
    }
    let name = text::join_from(&fields, 3, "\t");
    if name.as_str().is_empty() {
        return None;
    }
    let status = text::chars_of(fields[0].as_str());
    proof {
        assert(text::texts(fields@)[0] == fields@[0]@);
    }
    Some(
        Session {
            source: source.to_owned(),
            name,
            mux: mux.to_owned(),
            windows: 1,
            attached: status.len() > 0 && status[0] == '*',
        },
    )
}

/// The sessions of the listing.
pub open spec fn listed_sessions(source: Seq<char>, mux: Seq<char>, out: Seq<char>) -> Seq<
    SessionView,
> {
    vocab::found_rows(
        text::pieces(out, '\n'),
        |line: Seq<char>| session_row(source, mux, line),
    )
}

/// Parses the listing. Lines that are no rows are skipped; the order is kept.
pub fn parse_sessions(source: &str, mux: &str, out: &str) -> (r: Vec<Session>)
    ensures
        session_views(r@) == listed_sessions(source@, mux@, out@),
{
    let lines = text::split(out, '\n');
    let ghost all = text::texts(lines@);
    let ghost row = |line: Seq<char>| session_row(source@, mux@, line);
    let mut sessions: Vec<Session> = Vec::new();
    let mut i: usize = 0;
    proof {
        assert(session_views(sessions@) =~= vocab::found_rows(all.take(0), row));
    }
    while i < lines.len()
        invariant
            i <= lines@.len(),
            all == text::texts(lines@),
            row == (|line: Seq<char>| session_row(source@, mux@, line)),
            session_views(sessions@) == vocab::found_rows(all.take(i as int), row),
        decreases lines.len() - i,
    {
        let ghost before = sessions@;
        proof {
            let head = all.take(i + 1);
            assert(head.drop_last() =~= all.take(i as int));
            assert(head.last() == lines@[i as int]@);
        }
        if let Some(s) = parse_row(source, mux, lines[i].as_str()) {
            sessions.push(s);
            proof {
                session_views_push(before, s);
            }
        }
        i += 1;
    }
    proof {
        assert(all.take(i as int) =~= all);
    }
    sessions
}

// ---------------------------------------------------------------------------
// Laws
// ---------------------------------------------------------------------------

/// A row of a status, a day and time, a pid and a name is read back as that session, though
/// the name holds tabs: attached exactly where the status begins with `*`.
pub proof fn row_reads_back(
    source: Seq<char>,
    mux: Seq<char>,
    status: Seq<char>,
    time: Seq<char>,
    pid: Seq<char>,
    name: Seq<char>,
)
    requires
        !status.contains('\t'),
        !time.contains('\t'),
        !pid.contains('\t'),
        name.len() > 0,
        name.last() != '\r',
    ensures
        session_row(
            source,
            mux,
            status + seq!['\t'] + time + seq!['\t'] + pid + seq!['\t'] + name,
        ) == Some(
            SessionView {
                source,
                name,
                mux,
                windows: 1,
                attached: status.len() > 0 && status[0] == '*',
            },
        ),
{
    reveal_strlit("\t");
    let line = status + seq!['\t'] + time + seq!['\t'] + pid + seq!['\t'] + name;
    let second = pid + seq!['\t'] + name;
    let first = time + seq!['\t'] + second;
    assert(line.last() == name.last());
    assert("\t"@ =~= seq!['\t']);
    assert(line =~= status + seq!['\t'] + first);
    text::pieces_of_sum(status, '\t', first);
    text::pieces_of_sum(time, '\t', second);
    text::pieces_of_sum(pid, '\t', name);
    text::pieces_join_back(name, '\t');
    let f = text::pieces(line, '\t');
    assert(f.skip(3) =~= text::pieces(name, '\t'));
    assert(f[0] == status);
}

/// A header or a banner, which holds no tab, is no row.
pub proof fn header_is_no_row(source: Seq<char>, mux: Seq<char>, line: Seq<char>)
    requires
        !line.contains('\t'),
    ensures
        session_row(source, mux, line) is None,
{
    assert(!text::without_cr(line).contains('\t'));
    text::pieces_without(text::without_cr(line), '\t');
}

/// Two listings one below the other name the sessions of the one and then those of the
/// other, and a line the session of its row alone.
pub proof fn listings_add_up(source: Seq<char>, mux: Seq<char>, a: Seq<char>, b: Seq<char>)
    ensures
        listed_sessions(source, mux, a + seq!['\n'] + b) == listed_sessions(source, mux, a)
            + listed_sessions(source, mux, b),
        !a.contains('\n') ==> listed_sessions(source, mux, a) == match session_row(
            source,
            mux,
            a,
        ) {
            Some(s) => seq![s],
            None => Seq::empty(),
        },
{
    let row = |line: Seq<char>| session_row(source, mux, line);
    text::pieces_of_join(a, '\n', b);
    vocab::found_rows_of_sum(text::pieces(a, '\n'), text::pieces(b, '\n'), row);
    if !a.contains('\n') {
        vocab::found_rows_of_line(a, row);
    }
}

} // verus!
