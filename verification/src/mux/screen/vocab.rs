//! The argv of GNU screen, and what its listing says.
use crate::mux::vocab::{self, argv};
use crate::number;
use crate::session::{session_views, session_views_push, Session, SessionView};
use crate::text;
use vstd::prelude::*;

verus! {

/// `screen -ls`: lists the sessions. Ends with 1 where there are none.
pub fn list_sessions(bin: &str) -> (v: Vec<String>)
    ensures
        text::texts(v@) == seq![bin@, "-ls"@],
{
    let v = argv(&[bin, "-ls"]);
    proof {
        assert(text::texts(v@) =~= seq![bin@, "-ls"@]);
    }
    v
}

/// `screen -x <name>`: attaches one more display, whether or not there is another.
pub fn attach(bin: &str, name: &str) -> (v: Vec<String>)
    ensures
        text::texts(v@) == seq![bin@, "-x"@, name@],
{
    let v = argv(&[bin, "-x", name]);
    proof {
        assert(text::texts(v@) =~= seq![bin@, "-x"@, name@]);
    }
    v
}

/// The argv that starts a detached session.
pub open spec fn new_session_argv(bin: Seq<char>, name: Seq<char>) -> Seq<Seq<char>> {
    if name.len() == 0 {
        seq![bin, "-dmS"@]
    } else {
        seq![bin, "-dmS"@, name]
    }
}

/// `screen -dmS <name>`: starts a detached session, and prints nothing.
pub fn new_session(bin: &str, name: &str) -> (v: Vec<String>)
    ensures
        text::texts(v@) == new_session_argv(bin@, name@),
{
    let v = if name.is_empty() {
        argv(&[bin, "-dmS"])
    } else {
        argv(&[bin, "-dmS", name])
    };
    proof {
        assert(text::texts(v@) =~= new_session_argv(bin@, name@));
    }
    v
}

/// The argv that makes a window the active one.
pub open spec fn select_window_argv(bin: Seq<char>, name: Seq<char>, index: int) -> Seq<
    Seq<char>,
> {
    seq![bin, "-S"@, name, "-X"@, "select"@, number::signed_decimal(index)]
}

/// The argv that makes the window of a target the active one.
pub open spec fn select_target_argv(bin: Seq<char>, target: Seq<char>) -> Seq<Seq<char>> {
    let (session, index) = vocab::target_parts(target);
    select_window_argv(bin, session, index)
}

/// `screen -S <name> -X select <index>`: makes a window the active one on every
/// display.
pub fn select_window(bin: &str, name: &str, index: i64) -> (v: Vec<String>)
    ensures
        text::texts(v@) == select_window_argv(bin@, name@, index as int),
{
    let n = number::print_i64(index);
    let v = argv(&[bin, "-S", name, "-X", "select", n.as_str()]);
    proof {
        assert(text::texts(v@) =~= select_window_argv(bin@, name@, index as int));
    }
    v
}

/// The argv that lists the windows of a session.
pub open spec fn windows_argv(bin: Seq<char>, name: Seq<char>) -> Seq<Seq<char>> {
    seq![bin, "-S"@, name, "-Q"@, "windows"@]
}

/// `screen -S <name> -Q windows`: lists the windows of a session.
pub fn windows(bin: &str, name: &str) -> (v: Vec<String>)
    ensures
        text::texts(v@) == windows_argv(bin@, name@),
{
    let v = argv(&[bin, "-S", name, "-Q", "windows"]);
    proof {
        assert(text::texts(v@) =~= windows_argv(bin@, name@));
    }
    v
}

/// Whether a state column, in lower case, says that a display is attached.
pub open spec fn state_is_attached(state: Seq<char>) -> bool {
    text::holds(state, "attached"@) && !text::holds(state, "detached"@)
}

/// Whether a state column, in lower case, says that a display is attached.
pub fn says_attached(state: &str) -> (r: bool)
    ensures
        r == state_is_attached(state@),
{
    text::contains(state, "attached") && !text::contains(state, "detached")
}

/// The session that a row of the listing names, and its state column: a tab,
/// `<pid>.<name>`, the date, and the state, with tabs between them. The name is what
/// follows the first dot.
pub open spec fn row_parts(line: Seq<char>) -> Option<(Seq<char>, Seq<char>)> {
    let fields = text::pieces(text::without_cr(line), '\t');
    if fields.len() < 4 {
        None
    } else {
        match text::cut_at(fields[1], '.') {
            None => None,
            Some((pid, name)) => if pid.len() == 0 || name.len() == 0 || !number::all_digits(pid) {
                None
            } else {
                Some((name, fields[3]))
            },
        }
    }
}

/// The session that a row of the listing names, and its state column.
pub fn split_row(line: &str) -> (r: Option<(String, String)>)
    ensures
        match r {
            Some((name, state)) => row_parts(line@) == Some((name@, state@)),
            None => row_parts(line@) is None,
        },
{
    let ln = text::strip_cr(line);
    let fields = text::split(ln.as_str(), '\t');
    proof {
        assert(text::texts(fields@).len() == fields@.len());
    }
    if fields.len() < 4 {
        return None;
    }
    proof {
        assert(text::texts(fields@)[1] == fields@[1]@);
        assert(text::texts(fields@)[3] == fields@[3]@);
    }
    match text::split_once_str(fields[1].as_str(), '.') {
        None => None,
        Some((pid, name)) => {
            if pid.is_empty() || name.is_empty() || !number::are_digits(pid) {
                return None;
            }
            Some((name.to_owned(), fields[3].clone()))
        },
    }
}

/// The session that a row of the listing names. How many windows it has is not said.
pub open spec fn session_row(source: Seq<char>, mux: Seq<char>, line: Seq<char>) -> Option<
    SessionView,
> {
    match row_parts(line) {
        None => None,
        Some((name, state)) => Some(
            SessionView {
                source,
                name,
                mux,
                windows: 0,
                attached: state_is_attached(text::lowercase(state)),
            },
        ),
    }
}

/// The session that a row of the listing names.
pub fn parse_row(source: &str, mux: &str, line: &str) -> (r: Option<Session>)
    ensures
        match r {
            Some(s) => session_row(source@, mux@, line@) == Some(s@),
            None => session_row(source@, mux@, line@) is None,
        },
{
    match split_row(line) {
        None => None,
        Some((name, state)) => Some(
            Session {
                source: source.to_owned(),
                name,
                mux: mux.to_owned(),
                windows: 0,
                attached: says_attached(text::to_lowercase(state.as_str()).as_str()),
            },
        ),
    }
}

/// The sessions of the listing.
pub open spec fn listed_sessions(source: Seq<char>, mux: Seq<char>, out: Seq<char>) -> Seq<
    SessionView,
> {
    vocab::found_rows(
        text::pieces(out, '\n'),
        |line: Seq<char>| session_row(source, mux, line),
    )
}

/// Parses the listing. Lines that are no rows are skipped; the order is kept.
pub fn parse_sessions(source: &str, mux: &str, out: &str) -> (r: Vec<Session>)
    ensures
        session_views(r@) == listed_sessions(source@, mux@, out@),
{
    let lines = text::split(out, '\n');
    let ghost all = text::texts(lines@);
    let ghost row = |line: Seq<char>| session_row(source@, mux@, line);
    let mut sessions: Vec<Session> = Vec::new();
    let mut i: usize = 0;
    proof {
        assert(session_views(sessions@) =~= vocab::found_rows(all.take(0), row));
    }
    while i < lines.len()
        invariant
            i <= lines@.len(),
            all == text::texts(lines@),
            row == (|line: Seq<char>| session_row(source@, mux@, line)),
            session_views(sessions@) == vocab::found_rows(all.take(i as int), row),
        decreases lines.len() - i,
    {
        let ghost before = sessions@;
        proof {
            let head = all.take(i + 1);
            assert(head.drop_last() =~= all.take(i as int));
            assert(head.last() == lines@[i as int]@);
        }
        if let Some(s) = parse_row(source, mux, lines[i].as_str()) {
            sessions.push(s);
            proof {
                session_views_push(before, s);
            }
        }
        i += 1;
    }
    proof {
        assert(all.take(i as int) =~= all);
    }
    sessions
}

// ---------------------------------------------------------------------------
// Laws
// ---------------------------------------------------------------------------

/// A row of a pid with a dot and a name, a date and a state is read back as a session of
/// that name, though the name holds dots: attached exactly where the state says so.
pub proof fn row_reads_back(
    source: Seq<char>,
    mux: Seq<char>,
    pid: nat,
    name: Seq<char>,
    date: Seq<char>,
    state: Seq<char>,
)
    requires
        name.len() > 0,
        !name.contains('\t'),
        !date.contains('\t'),
        !state.contains('\t'),
        state.len() > 0,
        state.last() != '\r',
    ensures
        session_row(
            source,
            mux,
            seq!['\t'] + number::decimal(pid) + seq!['.'] + name + seq!['\t'] + date + seq!['\t']
                + state,
        ) == Some(
            SessionView {
                source,
                name,
                mux,
                windows: 0,
                attached: text::holds(text::lowercase(state), "attached"@) && !text::holds(
                    text::lowercase(state),
                    "detached"@,
                ),
            },
        ),
{
    let none = Seq::<char>::empty();
    let digits = number::decimal(pid);
    let id = digits + seq!['.'] + name;
    let line = seq!['\t'] + digits + seq!['.'] + name + seq!['\t'] + date + seq!['\t'] + state;
    let second = date + seq!['\t'] + state;
    let first = id + seq!['\t'] + second;
    number::decimal_reads_back(pid);
    number::decimal_holds_digits(pid, '\t');
    number::decimal_holds_digits(pid, '.');
    assert(!id.contains('\t')) by {
        if id.contains('\t') {
            let k = choose|k: int| 0 <= k < id.len() && id[k] == '\t';
            if k < digits.len() {
                assert(digits.contains(digits[k]));
            } else if k > digits.len() {
                assert(name.contains(name[k - digits.len() - 1]));
            }
        }
    }
    assert(line =~= none + seq!['\t'] + first);
    assert(line.last() == state.last());
    text::pieces_of_sum(none, '\t', first);
    text::pieces_of_sum(id, '\t', second);
    text::pieces_of_sum(date, '\t', state);
    text::pieces_without(state, '\t');
    let f = text::pieces(line, '\t');
    assert(f[1] == id);
    assert(f[3] == state);
    let n = digits.len() as int;
    assert forall|j: int| 0 <= j < n implies id[j] != '.' by {
        assert(digits.contains(digits[j]));
    }
    text::first_index_is(id, '.', n);
    assert(id.take(n) =~= digits);
    assert(id.skip(n + 1) =~= name);
}

/// A line without the columns of a row, or whose second column is not a number with a dot
/// and a name behind it, is no row.
pub proof fn other_lines_are_no_rows(source: Seq<char>, mux: Seq<char>, line: Seq<char>)
    ensures
        !line.contains('\t') ==> session_row(source, mux, line) is None,
        session_row(source, mux, line) matches Some(s) ==> {
            let fields = text::pieces(text::without_cr(line), '\t');
            &&& s.source == source && s.mux == mux && s.windows == 0 && s.name.len() > 0
            &&& fields.len() >= 4
            &&& exists|pid: Seq<char>| pid.len() > 0 && #[trigger] number::all_digits(pid)
                && fields[1] == pid + seq!['.'] + s.name
        },
{
    let ln = text::without_cr(line);
    if !line.contains('\t') {
        assert(!ln.contains('\t'));
        text::pieces_without(ln, '\t');
    }
    if session_row(source, mux, line) is Some {
        let id = text::pieces(ln, '\t')[1];
        let i = text::first_index(id, '.');
        text::first_index_bounds(id, '.');
        assert(id =~= id.take(i) + seq!['.'] + id.skip(i + 1));
        assert(number::all_digits(id.take(i)));
    }
}

/// Two listings one below the other name the sessions of the one and then those of the
/// other, and a line the session of its row alone.
pub proof fn listings_add_up(source: Seq<char>, mux: Seq<char>, a: Seq<char>, b: Seq<char>)
    ensures
        listed_sessions(source, mux, a + seq!['\n'] + b) == listed_sessions(source, mux, a)
            + listed_sessions(source, mux, b),
        !a.contains('\n') ==> listed_sessions(source, mux, a) == match session_row(
            source,
            mux,
            a,
        ) {
            Some(s) => seq![s],
            None => Seq::empty(),
        },
{
    let row = |line: Seq<char>| session_row(source, mux, line);
    text::pieces_of_join(a, '\n', b);
    vocab::found_rows_of_sum(text::pieces(a, '\n'), text::pieces(b, '\n'), row);
    if !a.contains('\n') {
        vocab::found_rows_of_line(a, row);
    }
}

} // verus!
