//! The argv of tmux-compatible subcommands, and what their output says. `argv[0]` is
//! the mux binary; no shell is involved.
use crate::number;
use crate::session::{session_views, session_views_push, Session, SessionView};
use crate::shell;
use crate::text;
use vstd::prelude::*;

verus! {

/// The `list-sessions -F` template. The name stands last, so that a tab inside it
/// cannot shift the columns before it.
pub const SESSION_FORMAT: &'static str =
    "#{session_windows}\t#{session_attached}\t#{session_name}";

/// The `list-panes -F` template. The name stands last, as in [`SESSION_FORMAT`].
pub const PANE_FORMAT: &'static str =
    "#{window_index}\t#{window_active}\t#{pane_index}\t#{pane_active}\t#{window_name}";

// ---------------------------------------------------------------------------
// The environment
// ---------------------------------------------------------------------------

/// Whether a variable marks a mux session: tmux's two markers, and any of psmux. Not
/// every name that begins with `TMUX`: `TMUX_TMPDIR` selects the socket directory,
/// and `TMUXP_*` belongs to another tool.
pub open spec fn mux_var(key: Seq<char>) -> bool {
    key == "TMUX"@ || key == "TMUX_PANE"@ || text::begins(key, "PSMUX"@)
}

/// Whether `key` is a mux session variable that a child must not inherit.
pub fn is_mux_var(key: &str) -> (r: bool)
    ensures
        r == mux_var(key@),
{
    text::same(key, "TMUX") || text::same(key, "TMUX_PANE") || text::starts_with(key, "PSMUX")
}

/// The mux session variables among `keys`, in order.
pub open spec fn mux_vars(keys: Seq<Seq<char>>) -> Seq<Seq<char>> {
    keys.filter(|k: Seq<char>| mux_var(k))
}

/// The names among `keys` that a child must have cleared.
pub fn mux_env_keys_to_clear(keys: Vec<String>) -> (out: Vec<String>)
    ensures
        text::texts(out@) == mux_vars(text::texts(keys@)),
{
    let mut out: Vec<String> = Vec::new();
    let mut i: usize = 0;
    let ghost f = |k: Seq<char>| mux_var(k);
    let ghost all = text::texts(keys@);
    proof {
        reveal(Seq::filter);
        assert(text::texts(out@) =~= all.take(0).filter(f));
    }
    while i < keys.len()
        invariant
            i <= keys@.len(),
            all == text::texts(keys@),
            f == (|k: Seq<char>| mux_var(k)),
            text::texts(out@) == all.take(i as int).filter(f),
        decreases keys.len() - i,
    {
        let ghost before = out@;
        proof {
            let head = all.take(i + 1);
            assert(head.drop_last() =~= all.take(i as int));
            reveal(Seq::filter);
            assert(head.last() == keys@[i as int]@);
        }
        if is_mux_var(keys[i].as_str()) {
            out.push(keys[i].clone());
            proof {
                text::texts_push(before, out@.last());
            }
        }
        i += 1;
    }
    proof {
        assert(all.take(i as int) =~= all);
    }
    out
}

// ---------------------------------------------------------------------------
// Commands
// ---------------------------------------------------------------------------

/// Owned words.
pub fn argv(parts: &[&str]) -> (out: Vec<String>)
    ensures
        text::texts(out@) == text::strs(parts@),
{
    let mut out: Vec<String> = Vec::new();
    let mut i: usize = 0;
    while i < parts.len()
        invariant
            i <= parts@.len(),
            out@.len() == i,
            forall|j: int| 0 <= j < i ==> (#[trigger] out@[j])@ == parts@[j]@,
        decreases parts.len() - i,
    {
        out.push(parts[i].to_owned());
        i += 1;
    }
    proof {
        assert(text::texts(out@) =~= text::strs(parts@));
    }
    out
}

/// Lists the sessions of the server.
pub open spec fn list_sessions_argv(bin: Seq<char>) -> Seq<Seq<char>> {
    seq![bin, "list-sessions"@, "-F"@, SESSION_FORMAT@]
}

/// Lists the sessions of the server in [`SESSION_FORMAT`].
pub fn list_sessions(bin: &str) -> (out: Vec<String>)
    ensures
        text::texts(out@) == list_sessions_argv(bin@),
{
    let out = argv(&[bin, "list-sessions", "-F", SESSION_FORMAT]);
    proof {
        assert(text::texts(out@) =~= list_sessions_argv(bin@));
    }
    out
}

/// Attaches the client to a session.
pub open spec fn attach_argv(bin: Seq<char>, name: Seq<char>) -> Seq<Seq<char>> {
    seq![bin, "attach"@, "-t"@, name]
}

/// Attaches the client to session `name`.
pub fn attach(bin: &str, name: &str) -> (out: Vec<String>)
    ensures
        text::texts(out@) == attach_argv(bin@, name@),
{
    let out = argv(&[bin, "attach", "-t", name]);
    proof {
        assert(text::texts(out@) =~= attach_argv(bin@, name@));
    }
    out
}

/// Creates a detached session, or finds it, and prints its name.
pub open spec fn new_session_argv(bin: Seq<char>, name: Seq<char>) -> Seq<Seq<char>> {
    let asked = seq![
        bin,
        "new-session"@,
        "-A"@,
        "-d"@,
        "-P"@,
        "-F"@,
        "#{session_name}"@,
    ];
    if name.len() == 0 {
        asked
    } else {
        asked + seq!["-s"@, name]
    }
}

/// Creates a detached session, or finds it (`-A`), and prints its name. A name is
/// asked for with `-s`; without one the mux names the session.
pub fn new_session(bin: &str, name: &str) -> (out: Vec<String>)
    ensures
        text::texts(out@) == new_session_argv(bin@, name@),
{
    let out = if name.is_empty() {
        argv(&[bin, "new-session", "-A", "-d", "-P", "-F", "#{session_name}"])
    } else {
        argv(&[bin, "new-session", "-A", "-d", "-P", "-F", "#{session_name}", "-s", name])
    };
    proof {
        assert(text::texts(out@) =~= new_session_argv(bin@, name@));
    }
    out
}

/// Lists the panes of a session.
pub open spec fn list_panes_argv(bin: Seq<char>, session: Seq<char>) -> Seq<Seq<char>> {
    seq![bin, "list-panes"@, "-s"@, "-t"@, session, "-F"@, PANE_FORMAT@]
}

/// Lists the panes of `session` in [`PANE_FORMAT`].
pub fn list_panes(bin: &str, session: &str) -> (out: Vec<String>)
    ensures
        text::texts(out@) == list_panes_argv(bin@, session@),
{
    let out = argv(&[bin, "list-panes", "-s", "-t", session, "-F", PANE_FORMAT]);
    proof {
        assert(text::texts(out@) =~= list_panes_argv(bin@, session@));
    }
    out
}

/// Opens a window in a session.
pub open spec fn new_window_argv(bin: Seq<char>, session: Seq<char>, name: Seq<char>) -> Seq<
    Seq<char>,
> {
    seq![bin, "new-window"@, "-t"@, session, "-n"@, name]
}

/// Opens a window called `name` in `session`.
pub fn new_window(bin: &str, session: &str, name: &str) -> (out: Vec<String>)
    ensures
        text::texts(out@) == new_window_argv(bin@, session@, name@),
{
    let out = argv(&[bin, "new-window", "-t", session, "-n", name]);
    proof {
        assert(text::texts(out@) =~= new_window_argv(bin@, session@, name@));
    }
    out
}

/// Splits a window.
pub open spec fn split_window_argv(bin: Seq<char>, target: Seq<char>, vertical: bool) -> Seq<
    Seq<char>,
> {
    seq![
        bin,
        "split-window"@,
        if vertical {
            "-v"@
        } else {
            "-h"@
        },
        "-t"@,
        target,
    ]
}

/// Splits the window `target`, its panes one above the other or side by side.
pub fn split_window(bin: &str, target: &str, vertical: bool) -> (out: Vec<String>)
    ensures
        text::texts(out@) == split_window_argv(bin@, target@, vertical),
{
    let way = if vertical {
        "-v"
    } else {
        "-h"
    };
    let out = argv(&[bin, "split-window", way, "-t", target]);
    proof {
        assert(text::texts(out@) =~= split_window_argv(bin@, target@, vertical));
    }
    out
}

/// Makes a window the active one.
pub open spec fn select_window_argv(bin: Seq<char>, target: Seq<char>) -> Seq<Seq<char>> {
    seq![bin, "select-window"@, "-t"@, target]
}

/// Makes the window `target` the active one.
pub fn select_window(bin: &str, target: &str) -> (out: Vec<String>)
    ensures
        text::texts(out@) == select_window_argv(bin@, target@),
{
    let out = argv(&[bin, "select-window", "-t", target]);
    proof {
        assert(text::texts(out@) =~= select_window_argv(bin@, target@));
    }
    out
}

/// Closes a window.
pub open spec fn kill_window_argv(bin: Seq<char>, target: Seq<char>) -> Seq<Seq<char>> {
    seq![bin, "kill-window"@, "-t"@, target]
}

/// Closes the window `target`.
pub fn kill_window(bin: &str, target: &str) -> (out: Vec<String>)
    ensures
        text::texts(out@) == kill_window_argv(bin@, target@),
{
    let out = argv(&[bin, "kill-window", "-t", target]);
    proof {
        assert(text::texts(out@) =~= kill_window_argv(bin@, target@));
    }
    out
}

/// Gives a window another name.
pub open spec fn rename_window_argv(bin: Seq<char>, target: Seq<char>, new: Seq<char>) -> Seq<
    Seq<char>,
> {
    seq![bin, "rename-window"@, "-t"@, target, new]
}

/// Gives the window `target` the name `new`.
pub fn rename_window(bin: &str, target: &str, new: &str) -> (out: Vec<String>)
    ensures
        text::texts(out@) == rename_window_argv(bin@, target@, new@),
{
    let out = argv(&[bin, "rename-window", "-t", target, new]);
    proof {
        assert(text::texts(out@) =~= rename_window_argv(bin@, target@, new@));
    }
    out
}

/// `session:index`.
pub open spec fn window_target_text(session: Seq<char>, index: int) -> Seq<char> {
    session + ":"@ + number::signed_decimal(index)
}

/// The target `session:index`.
pub fn window_target(session: &str, index: i64) -> (t: String)
    ensures
        t@ == window_target_text(session@, index as int),
{
    let mut t = session.to_owned();
    t.append(":");
    t.append(number::print_i64(index).as_str());
    t
}

/// What a `-t` target names: the session, and the index behind the last colon. A
/// target without a colon names the session at index 0, as does one whose index is
/// no number.
pub open spec fn target_parts(target: Seq<char>) -> (Seq<char>, int) {
    let i = text::last_index(target, ':');
    if i < 0 {
        (target, 0)
    } else {
        (
            target.take(i),
            match number::read_i64(target.skip(i + 1)) {
                Some(n) => n,
                None => 0,
            },
        )
    }
}

/// What a `-t` target names.
pub fn split_target(target: &str) -> (r: (String, i64))
    ensures
        (r.0@, r.1 as int) == target_parts(target@),
{
    let cs = text::chars_of(target);
    match text::rfind(cs.as_slice(), ':') {
        Some(i) => {
            let len: usize = cs.len();
            let tail = vstd::slice::slice_subrange(cs.as_slice(), i + 1, len);
            proof {
                assert(tail@ =~= target@.skip(i + 1));
            }
            let n: i64 = match number::parse_i64(tail) {
                Some(n) => n,
                None => 0,
            };
            let head = vstd::slice::slice_subrange(cs.as_slice(), 0, i);
            proof {
                assert(head@ =~= target@.take(i as int));
            }
            (text::string_of(head), n)
        },
        None => (target.to_owned(), 0),
    }
}

/// Whether a character needs no quotes in a control-mode target.
pub open spec fn bare(c: char) -> bool {
    shell::alphanumeric(c) || c == '_' || c == '-' || c == '.' || c == ':' || c == '/' || c == '@'
        || c == '%'
}

/// A target for a control-mode command line.
pub open spec fn target_text(t: Seq<char>) -> Seq<char> {
    if t.len() > 0 && forall|i: int| 0 <= i < t.len() ==> bare(#[trigger] t[i]) {
        t
    } else {
        shell::single_quoted(t)
    }
}

/// Quotes a `-t` target for a control-mode command line. A name of safe characters
/// stays bare; any other stands in single quotes, a single quote in it as `'\''`.
pub fn quote_target(t: &str) -> (out: String)
    ensures
        out@ == target_text(t@),
{
    let cs = text::chars_of(t);
    let mut safe = cs.len() > 0;
    let mut i: usize = 0;
    while i < cs.len()
        invariant
            cs@ == t@,
            i <= cs@.len(),
            safe == (cs@.len() > 0 && forall|j: int| 0 <= j < i ==> bare(#[trigger] cs@[j])),
        decreases cs.len() - i,
    {
        let c = cs[i];
        if !(shell::is_alphanumeric(c) || c == '_' || c == '-' || c == '.' || c == ':' || c == '/'
            || c == '@' || c == '%') {
            safe = false;
        }
        i += 1;
    }
    if safe {
        t.to_owned()
    } else {
        shell::single_quote(t)
    }
}

// ---------------------------------------------------------------------------
// Listings
// ---------------------------------------------------------------------------

/// The sessions that `row` finds in the lines of a listing, in order. A line in which
/// it finds none is skipped.
pub open spec fn found_rows(
    lines: Seq<Seq<char>>,
    row: spec_fn(Seq<char>) -> Option<SessionView>,
) -> Seq<SessionView>
    decreases lines.len(),
{
    if lines.len() == 0 {
        Seq::empty()
    } else {
        match row(lines.last()) {
            Some(s) => found_rows(lines.drop_last(), row).push(s),
            None => found_rows(lines.drop_last(), row),
        }
    }
}

/// The session that a row of [`SESSION_FORMAT`] names: the number of windows, the
/// number of clients, and the name, which may hold tabs. A row that is short, whose
/// numbers are none, or whose name is empty names none.
pub open spec fn session_row(source: Seq<char>, mux: Seq<char>, line: Seq<char>) -> Option<
    SessionView,
> {
    let fields = text::pieces(text::without_cr(line), '\t');
    if fields.len() < 3 {
        None
    } else {
        let name = text::joined(fields.skip(2), "\t"@);
        match (number::read_i64(fields[0]), number::read_i64(fields[1])) {
            (Some(windows), Some(attached)) => if name.len() == 0 {
                None
            } else {
                Some(SessionView { source, name, mux, windows, attached: attached > 0 })
            },
            _ => None,
        }
    }
}

/// The session that a row of [`SESSION_FORMAT`] names.
pub fn parse_row(source: &str, mux: &str, line: &str) -> (r: Option<Session>)
    ensures
        match r {
            Some(s) => session_row(source@, mux@, line@) == Some(s@),
            None => session_row(source@, mux@, line@) is None,
        },
{
    let ln = text::strip_cr(line);
    let fields = text::split(ln.as_str(), '\t');
    proof {
        assert(text::texts(fields@).len() == fields@.len());
    }
    if fields.len() < 3 {
        return None;
    }
    let windows: i64 = match number::parse_i64(text::chars_of(fields[0].as_str()).as_slice()) {
        Some(n) => n,
        None => return None,
    };
    let attached: i64 = match number::parse_i64(text::chars_of(fields[1].as_str()).as_slice()) {
        Some(n) => n,
        None => return None,
    };
    let name = text::join_from(&fields, 2, "\t");
    if name.as_str().is_empty() {
        return None;
    }
    Some(
        Session {
            source: source.to_owned(),
            name,
            mux: mux.to_owned(),
            windows,
            attached: attached > 0,
        },
    )
}

/// The sessions of a `list-sessions` listing.
pub open spec fn listed_sessions(source: Seq<char>, mux: Seq<char>, out: Seq<char>) -> Seq<
    SessionView,
> {
    found_rows(text::pieces(out, '\n'), |line: Seq<char>| session_row(source, mux, line))
}

/// Parses `list-sessions` output in [`SESSION_FORMAT`]. Lines that are no rows are
/// skipped, so that a banner cannot poison the list; the order is kept.
pub fn parse_sessions(source: &str, mux: &str, out: &str) -> (r: Vec<Session>)
    ensures
        session_views(r@) == listed_sessions(source@, mux@, out@),
{
    let lines = text::split(out, '\n');
    let ghost all = text::texts(lines@);
    let ghost row = |line: Seq<char>| session_row(source@, mux@, line);
    let mut sessions: Vec<Session> = Vec::new();
    let mut i: usize = 0;
    proof {
        assert(session_views(sessions@) =~= found_rows(all.take(0), row));
    }
    while i < lines.len()
        invariant
            i <= lines@.len(),
            all == text::texts(lines@),
            row == (|line: Seq<char>| session_row(source@, mux@, line)),
            session_views(sessions@) == found_rows(all.take(i as int), row),
        decreases lines.len() - i,
    {
        let ghost before = sessions@;
        proof {
            let head = all.take(i + 1);
            assert(head.drop_last() =~= all.take(i as int));
            assert(head.last() == lines@[i as int]@);
        }
        if let Some(s) = parse_row(source, mux, lines[i].as_str()) {
            sessions.push(s);
            proof {
                session_views_push(before, s);
            }
        }
        i += 1;
    }
    proof {
        assert(all.take(i as int) =~= all);
    }
    sessions
}

// ---------------------------------------------------------------------------
// Laws
// ---------------------------------------------------------------------------

/// A target reads back as what it names, whatever the session is called.
pub proof fn target_reads_back(session: Seq<char>, index: i64)
    ensures
        target_parts(window_target_text(session, index as int)) == (session, index as int),
{
    let digits = number::signed_decimal(index as int);
    let t = window_target_text(session, index as int);
    reveal_strlit(":");
    number::signed_decimal_reads_back(index);
    assert(t.skip(session.len() as int + 1) =~= digits);
    assert(t.take(session.len() as int) =~= session);
    assert forall|j: int| session.len() < j < t.len() implies t[j] != ':' by {
        let k = j - session.len() - 1;
        assert(t[j] == digits[k]);
        assert(digits.contains(digits[k]));
    }
    text::last_index_is(t, ':', session.len() as int);
}

/// The control-mode parser reads a quoted target back as that one word.
pub proof fn target_is_one_word(t: Seq<char>)
    ensures
        shell::shell_words(target_text(t)) == seq![t],
{
    let start = shell::Reading {
        words: Seq::empty(),
        word: None,
        mode: shell::Mode::Outside,
    };
    if t.len() > 0 && forall|i: int| 0 <= i < t.len() ==> bare(#[trigger] t[i]) {
        assert forall|i: int| 0 <= i < t.len() implies (#[trigger] t[i]) != ' ' && t[i] != '\''
            && t[i] != '\\' by {
            assert(bare(t[i]));
        }
        shell::read_literal(start, t);
        assert(Seq::<char>::empty() + t =~= t);
    } else {
        shell::read_single_quoted(start, t);
    }
    assert(Seq::<Seq<char>>::empty().push(t) =~= seq![t]);
}

/// A row that a server prints for a session is read back as that session, though the
/// name holds tabs.
pub proof fn row_reads_back(
    source: Seq<char>,
    mux: Seq<char>,
    windows: u32,
    clients: u32,
    name: Seq<char>,
)
    requires
        name.len() > 0,
        name.last() != '\r',
    ensures
        session_row(
            source,
            mux,
            number::decimal(windows as nat) + "\t"@ + number::decimal(clients as nat) + "\t"@ + name,
        ) == Some(
            SessionView { source, name, mux, windows: windows as int, attached: clients > 0 },
        ),
{
    reveal_strlit("\t");
    let a = number::decimal(windows as nat);
    let b = number::decimal(clients as nat);
    let line = a + "\t"@ + b + "\t"@ + name;
    assert(line.last() == name.last());
    number::decimal_holds_digits(windows as nat, '\t');
    number::decimal_holds_digits(clients as nat, '\t');
    number::decimal_is_i64(windows as nat);
    number::decimal_is_i64(clients as nat);
    assert("\t"@ =~= seq!['\t']);
    assert(line =~= a + seq!['\t'] + (b + seq!['\t'] + name));
    text::pieces_of_sum(a, '\t', b + seq!['\t'] + name);
    text::pieces_of_sum(b, '\t', name);
    text::pieces_join_back(name, '\t');
    let f = text::pieces(line, '\t');
    assert(f.skip(2) =~= text::pieces(name, '\t'));
    assert(f[0] == a);
    assert(f[1] == b);
}

/// What is found in two lists of lines is what is found in the one and then in the other.
pub proof fn found_rows_of_sum(
    a: Seq<Seq<char>>,
    b: Seq<Seq<char>>,
    row: spec_fn(Seq<char>) -> Option<SessionView>,
)
    ensures
        found_rows(a + b, row) == found_rows(a, row) + found_rows(b, row),
    decreases b.len(),
{
    if b.len() == 0 {
        assert(a + b =~= a);
        assert(found_rows(a, row) + found_rows(b, row) =~= found_rows(a, row));
    } else {
        assert((a + b).drop_last() =~= a + b.drop_last());
        found_rows_of_sum(a, b.drop_last(), row);
        assert(found_rows(a + b, row) =~= found_rows(a, row) + found_rows(b, row));
    }
}

/// One line gives the session that is found in it, or none.
pub proof fn found_rows_of_line(line: Seq<char>, row: spec_fn(Seq<char>) -> Option<SessionView>)
    requires
        !line.contains('\n'),
    ensures
        found_rows(text::pieces(line, '\n'), row) == match row(line) {
            Some(s) => seq![s],
            None => Seq::empty(),
        },
{
    text::pieces_without(line, '\n');
    reveal_with_fuel(found_rows, 2);
    assert(seq![line].drop_last() =~= Seq::empty());
    assert(Seq::<SessionView>::empty().push(row(line)->0) =~= seq![row(line)->0]);
}

/// Two listings one below the other name the sessions of the one and then those of the
/// other, however many there are.
pub proof fn listings_add_up(source: Seq<char>, mux: Seq<char>, a: Seq<char>, b: Seq<char>)
    ensures
        listed_sessions(source, mux, a + seq!['\n'] + b) == listed_sessions(source, mux, a)
            + listed_sessions(source, mux, b),
{
    text::pieces_of_join(a, '\n', b);
    found_rows_of_sum(
        text::pieces(a, '\n'),
        text::pieces(b, '\n'),
        |line: Seq<char>| session_row(source, mux, line),
    );
}

/// A line of a listing names the session of its row alone.
pub proof fn line_is_one_row(source: Seq<char>, mux: Seq<char>, line: Seq<char>)
    requires
        !line.contains('\n'),
    ensures
        session_row(source, mux, line) matches Some(s) ==> listed_sessions(source, mux, line)
            == seq![s],
        session_row(source, mux, line) is None ==> listed_sessions(source, mux, line).len() == 0,
{
    found_rows_of_line(line, |line: Seq<char>| session_row(source, mux, line));
}

/// What a server prints for sessions of so many windows, so many clients and this name
/// each: a row for each, with a newline behind it.
pub open spec fn printed(rows: Seq<(u32, u32, Seq<char>)>) -> Seq<char>
    decreases rows.len(),
{
    if rows.len() == 0 {
        Seq::empty()
    } else {
        number::decimal(rows[0].0 as nat) + "\t"@ + number::decimal(rows[0].1 as nat) + "\t"@
            + rows[0].2 + "\n"@ + printed(rows.drop_first())
    }
}

/// A listing of any length is read back as the sessions it was printed for, all of them, in
/// order.
pub proof fn listing_reads_back(
    source: Seq<char>,
    mux: Seq<char>,
    rows: Seq<(u32, u32, Seq<char>)>,
)
    requires
        forall|i: int|
            0 <= i < rows.len() ==> {
                let name = (#[trigger] rows[i]).2;
                name.len() > 0 && !name.contains('\n') && name.last() != '\r'
            },
    ensures
        listed_sessions(source, mux, printed(rows)).len() == rows.len(),
        forall|i: int|
            0 <= i < rows.len() ==> #[trigger] listed_sessions(source, mux, printed(rows))[i] == (
            SessionView {
                source,
                name: rows[i].2,
                mux,
                windows: rows[i].0 as int,
                attached: rows[i].1 > 0,
            }),
    decreases rows.len(),
{
    reveal_strlit("\n");
    reveal_strlit("\t");
    let row = |line: Seq<char>| session_row(source, mux, line);
    if rows.len() == 0 {
        let none = Seq::<char>::empty();
        found_rows_of_line(none, row);
        text::pieces_without(none, '\t');
    } else {
        let (windows, clients, name) = rows[0];
        let rest = rows.drop_first();
        let a = number::decimal(windows as nat);
        let b = number::decimal(clients as nat);
        let line = a + "\t"@ + b + "\t"@ + name;
        number::decimal_holds_digits(windows as nat, '\n');
        number::decimal_holds_digits(clients as nat, '\n');
        assert(!line.contains('\n')) by {
            if line.contains('\n') {
                let k = choose|k: int| 0 <= k < line.len() && line[k] == '\n';
                if k < a.len() {
                    assert(a.contains(a[k]));
                } else if k == a.len() {
                } else if k < a.len() + 1 + b.len() {
                    assert(b.contains(b[k - a.len() - 1]));
                } else if k == a.len() + 1 + b.len() {
                } else {
                    assert(name.contains(name[k - a.len() - b.len() - 2]));
                }
            }
        }
        row_reads_back(source, mux, windows, clients, name);
        found_rows_of_line(line, row);
        assert("\n"@ =~= seq!['\n']);
        assert(printed(rows) =~= line + seq!['\n'] + printed(rest));
        listings_add_up(source, mux, line, printed(rest));
        assert forall|i: int| 0 <= i < rest.len() implies {
            let name = (#[trigger] rest[i]).2;
            name.len() > 0 && !name.contains('\n') && name.last() != '\r'
        } by {
            assert(rest[i] == rows[i + 1]);
        }
        listing_reads_back(source, mux, rest);
        let all = listed_sessions(source, mux, printed(rows));
        let more = listed_sessions(source, mux, printed(rest));
        assert forall|i: int| 0 <= i < rows.len() implies #[trigger] all[i] == (SessionView {
            source,
            name: rows[i].2,
            mux,
            windows: rows[i].0 as int,
            attached: rows[i].1 > 0,
        }) by {
            if i > 0 {
                assert(all[i] == more[i - 1]);
                assert(rest[i - 1] == rows[i]);
            }
        }
    }
}

/// A line of two columns and a name is a session's row exactly where the columns are
/// numbers and the name is not empty; what comes of it stands in the line.
pub proof fn row_is_read_by_columns(
    source: Seq<char>,
    mux: Seq<char>,
    a: Seq<char>,
    b: Seq<char>,
    name: Seq<char>,
)
    requires
        !a.contains('\t'),
        !b.contains('\t'),
        name.len() > 0 ==> name.last() != '\r',
    ensures
        ({
            let r = session_row(source, mux, a + seq!['\t'] + b + seq!['\t'] + name);
            &&& r is Some <==> number::read_i64(a) is Some && number::read_i64(b) is Some
                && name.len() > 0
            &&& r matches Some(s) ==> {
                &&& s.source == source
                &&& s.mux == mux
                &&& s.name == name
                &&& number::read_i64(a) == Some(s.windows)
                &&& s.attached <==> number::read_i64(b)->0 > 0
            }
        }),
{
    reveal_strlit("\t");
    let line = a + seq!['\t'] + b + seq!['\t'] + name;
    assert("\t"@ =~= seq!['\t']);
    assert(line =~= a + seq!['\t'] + (b + seq!['\t'] + name));
    assert(name.len() > 0 ==> line.last() == name.last());
    text::pieces_of_sum(a, '\t', b + seq!['\t'] + name);
    text::pieces_of_sum(b, '\t', name);
    text::pieces_join_back(name, '\t');
    let f = text::pieces(line, '\t');
    assert(f.skip(2) =~= text::pieces(name, '\t'));
    assert(f[0] == a);
    assert(f[1] == b);
}

/// A line with fewer than two tabs, such as a banner, is no row.
pub proof fn banner_is_no_row(source: Seq<char>, mux: Seq<char>, a: Seq<char>, b: Seq<char>)
    requires
        !a.contains('\t'),
        !b.contains('\t'),
    ensures
        session_row(source, mux, a) is None,
        session_row(source, mux, a + seq!['\t'] + b) is None,
{
    let line = a + seq!['\t'] + b;
    let bare = text::without_cr(line);
    assert(!text::without_cr(a).contains('\t'));
    text::pieces_without(text::without_cr(a), '\t');
    assert(!text::without_cr(b).contains('\t'));
    assert(bare =~= a + seq!['\t'] + text::without_cr(b));
    text::pieces_of_sum(a, '\t', text::without_cr(b));
    text::pieces_without(text::without_cr(b), '\t');
}

/// A carriage return at the end of a row changes nothing.
pub proof fn row_may_end_in_cr(source: Seq<char>, mux: Seq<char>, line: Seq<char>)
    requires
        line.len() > 0 ==> line.last() != '\r',
    ensures
        session_row(source, mux, line.push('\r')) == session_row(source, mux, line),
{
    assert(line.push('\r').drop_last() =~= line);
}

/// A child is told to clear tmux's two markers and every variable of psmux, and no other.
pub proof fn only_markers_are_cleared(keys: Seq<Seq<char>>, key: Seq<char>)
    ensures
        mux_vars(keys).contains(key) <==> keys.contains(key) && (key == "TMUX"@ || key
            == "TMUX_PANE"@ || (key.len() >= 5 && key.take(5) == "PSMUX"@)),
{
    reveal_strlit("PSMUX");
    let f = |k: Seq<char>| mux_var(k);
    broadcast use vstd::seq_lib::group_filter_ensures;
    let kept = keys.filter(f);
    if kept.contains(key) {
        let i = choose|i: int| 0 <= i < kept.len() && kept[i] == key;
        assert(f(kept[i]));
        keys.lemma_filter_contains_rev(f, key);
    }
    if keys.contains(key) && f(key) {
        let i = choose|i: int| 0 <= i < keys.len() && keys[i] == key;
        assert(kept.contains(keys[i]));
    }
}

/// The words of each command are as the mux's manual has them: the session, window or name
/// it is asked about stands where the mux expects it, unchanged.
pub proof fn commands_name_their_target(
    bin: Seq<char>,
    session: Seq<char>,
    window: Seq<char>,
    name: Seq<char>,
)
    ensures
        list_sessions_argv(bin) == seq![
            bin,
            "list-sessions"@,
            "-F"@,
            "#{session_windows}\t#{session_attached}\t#{session_name}"@,
        ],
        attach_argv(bin, session) == seq![bin, "attach"@, "-t"@, session],
        list_panes_argv(bin, session).take(5) == seq![
            bin,
            "list-panes"@,
            "-s"@,
            "-t"@,
            session,
        ],
        new_window_argv(bin, session, name) == seq![
            bin,
            "new-window"@,
            "-t"@,
            session,
            "-n"@,
            name,
        ],
        split_window_argv(bin, window, true) == seq![bin, "split-window"@, "-v"@, "-t"@, window],
        split_window_argv(bin, window, false) == seq![bin, "split-window"@, "-h"@, "-t"@, window],
        select_window_argv(bin, window) == seq![bin, "select-window"@, "-t"@, window],
        kill_window_argv(bin, window) == seq![bin, "kill-window"@, "-t"@, window],
        rename_window_argv(bin, window, name) == seq![bin, "rename-window"@, "-t"@, window, name],
        name.len() > 0 ==> new_session_argv(bin, name).len() >= 2 && new_session_argv(
            bin,
            name,
        ).skip(new_session_argv(bin, name).len() - 2) == seq!["-s"@, name],
        name.len() > 0 ==> new_session_argv(bin, name).drop_last().drop_last() == new_session_argv(
            bin,
            Seq::empty(),
        ),
        new_session_argv(bin, Seq::empty()) == seq![
            bin,
            "new-session"@,
            "-A"@,
            "-d"@,
            "-P"@,
            "-F"@,
            "#{session_name}"@,
        ],
{
    assert(list_panes_argv(bin, session).take(5) =~= seq![
        bin,
        "list-panes"@,
        "-s"@,
        "-t"@,
        session,
    ]);
    if name.len() > 0 {
        let v = new_session_argv(bin, name);
        assert(v.skip(v.len() - 2) =~= seq!["-s"@, name]);
        assert(v.drop_last().drop_last() =~= new_session_argv(bin, Seq::empty()));
    }
}

/// A target stands bare exactly where it is not empty and each of its characters is a letter
/// or digit of ASCII or one of `_-.:/@%`; any other stands in single quotes.
pub proof fn only_plain_targets_stand_bare(t: Seq<char>)
    ensures
        (t.len() > 0 && forall|i: int|
            0 <= i < t.len() ==> {
                let c = #[trigger] t[i];
                ('a' <= c && c <= 'z') || ('A' <= c && c <= 'Z') || ('0' <= c && c <= '9') || c
                    == '_' || c == '-' || c == '.' || c == ':' || c == '/' || c == '@' || c == '%'
            }) ==> target_text(t) == t,
        !(t.len() > 0 && forall|i: int|
            0 <= i < t.len() ==> {
                let c = #[trigger] t[i];
                ('a' <= c && c <= 'z') || ('A' <= c && c <= 'Z') || ('0' <= c && c <= '9') || c
                    == '_' || c == '-' || c == '.' || c == ':' || c == '/' || c == '@' || c == '%'
            }) ==> target_text(t) == shell::single_quoted(t),
{
    if t.len() > 0 && forall|i: int| 0 <= i < t.len() ==> bare(#[trigger] t[i]) {
        assert forall|i: int| 0 <= i < t.len() implies {
            let c = #[trigger] t[i];
            ('a' <= c && c <= 'z') || ('A' <= c && c <= 'Z') || ('0' <= c && c <= '9') || c == '_'
                || c == '-' || c == '.' || c == ':' || c == '/' || c == '@' || c == '%'
        } by {
            assert(bare(t[i]));
        }
    }
}

/// The panes of a session are listed with the window's index, whether it is the active one,
/// the pane's index, whether it is the active one, and the name last.
pub proof fn panes_are_listed_by_columns(bin: Seq<char>, session: Seq<char>)
    ensures
        list_panes_argv(bin, session) == seq![
            bin,
            "list-panes"@,
            "-s"@,
            "-t"@,
            session,
            "-F"@,
            "#{window_index}\t#{window_active}\t#{pane_index}\t#{pane_active}\t#{window_name}"@,
        ],
{
}

} // verus!
