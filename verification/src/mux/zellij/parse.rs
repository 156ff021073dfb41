//! The session listing of zellij, `<name> [Created <age> ago] <suffix>`.
use crate::mux::vocab;
use crate::session::{session_views, session_views_push, Session, SessionView};
use crate::text;
use vstd::prelude::*;

verus! {

/// The session that a line of the listing names. The name may hold spaces: it ends
/// where the age begins. A session that is marked as exited is gone, and attaching to it
/// would bring it back: it is not offered. The listing has no count of tabs, of which
/// there is one at least, and it marks no session but the one that it ran in.
pub open spec fn session_row(source: Seq<char>, line: Seq<char>) -> Option<SessionView> {
    match text::cut(text::without_cr(line), " [Created "@) {
        None => None,
        Some((before, rest)) => {
            let name = text::trimmed(before);
            if name.len() == 0 {
                None
            } else {
                match text::cut(rest, " ago]"@) {
                    None => None,
                    Some((_, suffix)) => if text::holds(suffix, "EXITED"@) {
                        None
                    } else {
                        Some(
                            SessionView {
                                source,
                                name,
                                mux: "zellij"@,
                                windows: 1,
                                attached: text::holds(suffix, "(current)"@),
                            },
                        )
                    },
                }
            }
        },
    }
}

/// The session that a line of the listing names.
pub fn parse_row(source: &str, line: &str) -> (r: Option<Session>)
    ensures
        match r {
            Some(s) => session_row(source@, line@) == Some(s@),
            None => session_row(source@, line@) is None,
        },
{
    let ln = text::strip_cr(line);
    match text::split_once(ln.as_str(), " [Created ") {
        None => None,
        Some((before, rest)) => {
            let name = text::trim(before.as_str());
            if name.as_str().is_empty() {
                return None;
            }
            match text::split_once(rest.as_str(), " ago]") {
                None => None,
                Some((_, suffix)) => {
                    if text::contains(suffix.as_str(), "EXITED") {
                        return None;
                    }
                    Some(
                        Session {
                            source: source.to_owned(),
                            name,
                            mux: "zellij".to_owned(),
                            windows: 1,
                            attached: text::contains(suffix.as_str(), "(current)"),
                        },
                    )
                },
            }
        },
    }
}

/// The sessions of the listing.
pub open spec fn listed_sessions(source: Seq<char>, out: Seq<char>) -> Seq<SessionView> {
    vocab::found_rows(text::pieces(out, '\n'), |line: Seq<char>| session_row(source, line))
}

/// Parses the listing. Lines that are no rows are skipped; the order is kept.
pub fn parse_sessions(source: &str, out: &str) -> (r: Vec<Session>)
    ensures
        session_views(r@) == listed_sessions(source@, out@),
{
    let lines = text::split(out, '\n');
    let ghost all = text::texts(lines@);
    let ghost row = |line: Seq<char>| session_row(source@, line);
    let mut sessions: Vec<Session> = Vec::new();
    let mut i: usize = 0;
    proof {
        assert(session_views(sessions@) =~= vocab::found_rows(all.take(0), row));
    }
    while i < lines.len()
        invariant
            i <= lines@.len(),
            all == text::texts(lines@),
            row == (|line: Seq<char>| session_row(source@, line)),
            session_views(sessions@) == vocab::found_rows(all.take(i as int), row),
        decreases lines.len() - i,
    {
        let ghost before = sessions@;
        proof {
            let head = all.take(i + 1);
            assert(head.drop_last() =~= all.take(i as int));
            assert(head.last() == lines@[i as int]@);
        }
        if let Some(s) = parse_row(source, lines[i].as_str()) {
            sessions.push(s);
            proof {
                session_views_push(before, s);
            }
        }
        i += 1;
    }
    proof {
        assert(all.take(i as int) =~= all);
    }
    sessions
}

// ---------------------------------------------------------------------------
// Laws
// ---------------------------------------------------------------------------

/// A row of a name, an age and a suffix is read back as a session of that name, though it
/// holds spaces: none where the suffix says that it has exited, and attached exactly where
/// the suffix marks it as the current one.
pub proof fn row_reads_back(
    source: Seq<char>,
    name: Seq<char>,
    age: Seq<char>,
    suffix: Seq<char>,
)
    requires
        name.len() > 0,
        text::trimmed(name) == name,
        !text::holds(name + " "@, " [Created "@),
        !text::holds(age, " ago]"@),
        suffix.len() > 0 ==> suffix.last() != '\r',
    ensures
        session_row(source, name + " [Created "@ + age + " ago]"@ + suffix) == if text::holds(
            suffix,
            "EXITED"@,
        ) {
            None
        } else {
            Some(
                SessionView {
                    source,
                    name,
                    mux: "zellij"@,
                    windows: 1,
                    attached: text::holds(suffix, "(current)"@),
                },
            )
        },
{
    reveal_strlit(" [Created ");
    reveal_strlit(" ago]");
    let rest = age + " ago]"@ + suffix;
    let line = name + " [Created "@ + age + " ago]"@ + suffix;
    assert(line =~= name + " [Created "@ + rest);
    assert(line.last() != '\r') by {
        if suffix.len() > 0 {
            assert(line.last() == suffix.last());
        } else {
            assert(line.last() == " ago]"@[4]);
        }
    }
    name_ends_where_age_begins(name, rest);
    age_ends_where_suffix_begins(age, suffix);
}

proof fn name_ends_where_age_begins(name: Seq<char>, rest: Seq<char>)
    requires
        !text::holds(name + " "@, " [Created "@),
    ensures
        text::cut(name + " [Created "@ + rest, " [Created "@) == Some((name, rest)),
{
    reveal_strlit(" ");
    reveal_strlit(" [Created ");
    let open = " [Created "@;
    assert(name.push(open[0]) =~= name + " "@);
    text::cut_behind(name, open, rest);
}

proof fn age_ends_where_suffix_begins(age: Seq<char>, suffix: Seq<char>)
    requires
        !text::holds(age, " ago]"@),
    ensures
        text::cut(age + " ago]"@ + suffix, " ago]"@) == Some((age, suffix)),
{
    reveal_strlit(" ago]");
    let close = " ago]"@;
    let rest = age + close + suffix;
    let m = age.len() as int;
    assert(rest.subrange(m, m + 5) =~= close);
    assert forall|j: int| 0 <= j < m implies !#[trigger] text::stands_at(rest, close, j) by {
        if text::stands_at(rest, close, j) {
            let w = rest.subrange(j, j + 5);
            if j + 5 <= m {
                assert(age.subrange(j, j + 5) =~= w);
                assert(text::stands_at(age, close, j));
            } else {
                assert(w[m - j] == rest[m]);
                assert(rest[m] == close[0]);
            }
        }
    }
    text::first_match_is(rest, close, m);
    assert(rest.take(m) =~= age);
    assert(rest.skip(m + 5) =~= suffix);
}

/// A line that tells no age is no row.
pub proof fn line_without_age_is_no_row(source: Seq<char>, line: Seq<char>)
    requires
        !text::holds(line, " [Created "@),
    ensures
        session_row(source, line) is None,
{
    let ln = text::without_cr(line);
    let open = " [Created "@;
    text::first_match_least(ln, open);
    if let Some(i) = text::first_match(ln, open) {
        assert(line.subrange(i, i + open.len()) =~= ln.subrange(i, i + open.len()));
        assert(text::stands_at(line, open, i));
    }
}

/// Two listings one below the other name the sessions of the one and then those of the
/// other, and a line the session of its row alone.
pub proof fn listings_add_up(source: Seq<char>, a: Seq<char>, b: Seq<char>)
    ensures
        listed_sessions(source, a + seq!['\n'] + b) == listed_sessions(source, a)
            + listed_sessions(source, b),
        !a.contains('\n') ==> listed_sessions(source, a) == match session_row(source, a) {
            Some(s) => seq![s],
            None => Seq::empty(),
        },
{
    let row = |line: Seq<char>| session_row(source, line);
    text::pieces_of_join(a, '\n', b);
    vocab::found_rows_of_sum(text::pieces(a, '\n'), text::pieces(b, '\n'), row);
    if !a.contains('\n') {
        vocab::found_rows_of_line(a, row);
    }
}

} // verus!
