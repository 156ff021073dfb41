//! The registry of psmux, a directory that holds a file per session.
use crate::session::{session_views, session_views_push, Session, SessionView};
use crate::text;
use vstd::prelude::*;

verus! {

/// The session that a file of the registry stands for: the name before `.port`. One
/// with two underscores in it is a spare server, or belongs to another socket.
pub open spec fn session_of(file: Seq<char>) -> Option<Seq<char>> {
    match text::before_suffix(file, ".port"@) {
        Some(base) => if text::holds(base, "__"@) {
            None
        } else {
            Some(base)
        },
        None => None,
    }
}

/// Whether one of the first `n` files stands for this session.
pub open spec fn named_by_a_file(files: Seq<Seq<char>>, n: int, name: Seq<char>) -> bool {
    exists|i: int| 0 <= i < n && session_of(#[trigger] files[i]) == Some(name)
}

/// The session that a file of the registry stands for.
pub fn session_of_file(file: &str) -> (r: Option<String>)
    ensures
        text::opt_text(r) == session_of(file@),
{
    match text::strip_suffix(file, ".port") {
        Some(base) => if text::contains(base.as_str(), "__") {
            None
        } else {
            Some(base)
        },
        None => None,
    }
}

/// The names of the sessions that the files of the registry stand for, in order, each
/// once.
pub fn psmux_session_names(filenames: &[String]) -> (names: Vec<String>)
    ensures
        text::ascending(text::texts(names@)),
        forall|name: Seq<char>| #[trigger]
            text::texts(names@).contains(name) <==> named_by_a_file(
                text::texts(filenames@),
                filenames@.len() as int,
                name,
            ),
{
    let mut names: Vec<String> = Vec::new();
    let ghost files = text::texts(filenames@);
    let mut i: usize = 0;
    while i < filenames.len()
        invariant
            i <= filenames@.len(),
            files == text::texts(filenames@),
            text::ascending(text::texts(names@)),
            forall|name: Seq<char>| #[trigger]
                text::texts(names@).contains(name) <==> named_by_a_file(files, i as int, name),
        decreases filenames.len() - i,
    {
        let ghost before = text::texts(names@);
        let found = session_of_file(filenames[i].as_str());
        proof {
            assert(files[i as int] == filenames@[i as int]@);
        }
        match found {
            Some(base) => {
                text::insert_ascending(&mut names, base);
                proof {
                    assert forall|name: Seq<char>| #[trigger]
                        text::texts(names@).contains(name) <==> named_by_a_file(
                            files,
                            i + 1,
                            name,
                        ) by {
                        assert(before.contains(name) <==> named_by_a_file(files, i as int, name));
                        if name == base@ {
                            assert(session_of(files[i as int]) == Some(name));
                        }
                    }
                }
            },
            None => {
                proof {
                    assert forall|name: Seq<char>| #[trigger]
                        text::texts(names@).contains(name) <==> named_by_a_file(
                            files,
                            i + 1,
                            name,
                        ) by {
                        assert(before.contains(name) <==> named_by_a_file(files, i as int, name));
                    }
                }
            },
        }
        i += 1;
    }
    names
}

/// Whether a session of this name is among `detail`.
pub open spec fn covered(detail: Seq<SessionView>, name: Seq<char>) -> bool {
    exists|i: int| 0 <= i < detail.len() && (#[trigger] detail[i]).name == name
}

/// A session of which only the name is known.
pub open spec fn placeholder(source: Seq<char>, name: Seq<char>) -> SessionView {
    SessionView { source, name, mux: "psmux"@, windows: 1, attached: false }
}

/// The sessions that the listing describes, and behind them those that only the
/// registry knows.
pub open spec fn merged(source: Seq<char>, names: Seq<Seq<char>>, detail: Seq<SessionView>) -> Seq<
    SessionView,
>
    decreases names.len(),
{
    if names.len() == 0 {
        detail
    } else {
        let rest = merged(source, names.drop_last(), detail);
        if covered(detail, names.last()) {
            rest
        } else {
            rest.push(placeholder(source, names.last()))
        }
    }
}

/// Merges the names of the registry, which says which sessions there are, with the
/// listing, which describes them. A session that the listing leaves out is still
/// offered, so that a listing that fails blanks nothing.
pub fn merge_psmux_sessions(source: &str, names: &Vec<String>, detail: Vec<Session>) -> (r: Vec<
    Session,
>)
    ensures
        session_views(r@) == merged(source@, text::texts(names@), session_views(detail@)),
{
    let ghost known = session_views(detail@);
    let n: usize = detail.len();
    let mut out = detail;
    let mut i: usize = 0;
    let ghost all = text::texts(names@);
    proof {
        assert(all.take(0) =~= Seq::empty());
    }
    while i < names.len()
        invariant
            i <= names@.len(),
            n == known.len(),
            n <= out@.len(),
            all == text::texts(names@),
            session_views(out@).take(n as int) == known,
            session_views(out@) == merged(source@, all.take(i as int), known),
        decreases names.len() - i,
    {
        let ghost before = out@;
        let mut is_known = false;
        let mut j: usize = 0;
        while j < n
            invariant
                j <= n,
                i < names@.len(),
                n == known.len(),
                n <= out@.len(),
                out@ == before,
                session_views(out@).take(n as int) == known,
                is_known == exists|k: int|
                    0 <= k < j && (#[trigger] known[k]).name == names@[i as int]@,
            decreases n - j,
        {
            proof {
                assert(known[j as int] == session_views(out@).take(n as int)[j as int]);
                assert(known[j as int] == out@[j as int]@);
            }
            if text::same(out[j].name.as_str(), names[i].as_str()) {
                is_known = true;
            }
            j += 1;
        }
        proof {
            let head = all.take(i + 1);
            assert(head.drop_last() =~= all.take(i as int));
            assert(head.last() == names@[i as int]@);
            assert(is_known == covered(known, head.last()));
        }
        if !is_known {
            let s = Session {
                source: source.to_owned(),
                name: names[i].clone(),
                mux: "psmux".to_owned(),
                windows: 1,
                attached: false,
            };
            out.push(s);
            proof {
                session_views_push(before, s);
                assert(session_views(out@).take(n as int) =~= session_views(before).take(n as int));
            }
        }
        i += 1;
    }
    proof {
        assert(all.take(i as int) =~= all);
    }
    out
}

/// What the listing describes stays as it is, in front, and every name of the registry
/// is offered.
pub proof fn registry_is_offered(
    source: Seq<char>,
    names: Seq<Seq<char>>,
    detail: Seq<SessionView>,
    name: Seq<char>,
)
    requires
        names.contains(name),
    ensures
        covered(merged(source, names, detail), name),
        merged(source, names, detail).take(detail.len() as int) == detail,
        detail.len() <= merged(source, names, detail).len(),
    decreases names.len(),
{
    merged_keeps(source, names, detail);
    let all = merged(source, names, detail);
    if covered(detail, name) {
        let i = choose|i: int| 0 <= i < detail.len() && (#[trigger] detail[i]).name == name;
        assert(all[i] == all.take(detail.len() as int)[i]);
        assert(all[i].name == name);
    } else if names.last() == name {
        assert(all.last().name == name);
    } else {
        let k = choose|k: int| 0 <= k < names.len() && names[k] == name;
        assert(names.drop_last()[k] == name);
        registry_is_offered(source, names.drop_last(), detail, name);
        let rest = merged(source, names.drop_last(), detail);
        let i = choose|i: int| 0 <= i < rest.len() && (#[trigger] rest[i]).name == name;
        assert(all[i] == rest[i]);
    }
}

proof fn merged_keeps(source: Seq<char>, names: Seq<Seq<char>>, detail: Seq<SessionView>)
    ensures
        detail.len() <= merged(source, names, detail).len(),
        merged(source, names, detail).take(detail.len() as int) == detail,
    decreases names.len(),
{
    if names.len() == 0 {
        assert(detail.take(detail.len() as int) =~= detail);
    } else {
        merged_keeps(source, names.drop_last(), detail);
        let rest = merged(source, names.drop_last(), detail);
        assert(merged(source, names, detail).take(detail.len() as int) =~= rest.take(
            detail.len() as int,
        ));
    }
}

/// A file stands for the session it is named after, and no file whose name ends otherwise,
/// or has two underscores in a row, stands for one.
pub proof fn files_are_named_after_sessions(file: Seq<char>, name: Seq<char>)
    ensures
        session_of(name + ".port"@) == if text::holds(name, "__"@) {
            None
        } else {
            Some(name)
        },
        session_of(file) matches Some(s) ==> file == s + ".port"@ && !text::holds(s, "__"@),
{
    let whole = name + ".port"@;
    assert(whole.skip(name.len() as int) =~= ".port"@);
    assert(whole.take(name.len() as int) =~= name);
    if let Some(s) = session_of(file) {
        assert(file =~= s + ".port"@);
    }
}

/// What stands behind the listing is what only the registry knows: each a session of the
/// psmux of this source, not attached, of one window, whose name is in the registry and not
/// in the listing.
pub proof fn only_the_registry_is_added(
    source: Seq<char>,
    names: Seq<Seq<char>>,
    detail: Seq<SessionView>,
    i: int,
)
    requires
        detail.len() <= i < merged(source, names, detail).len(),
    ensures
        ({
            let s = merged(source, names, detail)[i];
            &&& s.source == source
            &&& s.mux == "psmux"@
            &&& s.windows == 1
            &&& !s.attached
            &&& names.contains(s.name)
            &&& forall|j: int| 0 <= j < detail.len() ==> (#[trigger] detail[j]).name != s.name
        }),
    decreases names.len(),
{
    let all = merged(source, names, detail);
    let rest = merged(source, names.drop_last(), detail);
    assert(names.len() > 0);
    if i < rest.len() {
        only_the_registry_is_added(source, names.drop_last(), detail, i);
        assert(all[i] == rest[i]);
        let k = choose|k: int|
            0 <= k < names.drop_last().len() && names.drop_last()[k] == rest[i].name;
        assert(names[k] == rest[i].name);
    } else {
        assert(names[names.len() - 1] == all[i].name);
    }
}

/// Names of the registry that the listing leaves out are offered in their order: two
/// registries one behind the other add their sessions one behind the other.
pub proof fn registries_add_up(
    source: Seq<char>,
    a: Seq<Seq<char>>,
    b: Seq<Seq<char>>,
    detail: Seq<SessionView>,
)
    ensures
        merged(source, a + b, detail) == merged(source, a, detail) + merged(
            source,
            b,
            detail,
        ).skip(detail.len() as int),
    decreases b.len(),
{
    merged_keeps(source, b, detail);
    let n = detail.len() as int;
    if b.len() == 0 {
        assert(a + b =~= a);
        assert(merged(source, a, detail) + detail.skip(n) =~= merged(source, a, detail));
    } else {
        assert((a + b).drop_last() =~= a + b.drop_last());
        registries_add_up(source, a, b.drop_last(), detail);
        merged_keeps(source, b.drop_last(), detail);
        assert(merged(source, a + b, detail) =~= merged(source, a, detail) + merged(
            source,
            b,
            detail,
        ).skip(n));
    }
}

} // verus!
