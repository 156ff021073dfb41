//! File name patterns: `*`, `?` and character classes.
use crate::paths;
use crate::text;
use vstd::prelude::*;

verus! {

/// Whether a pattern holds a character that stands for others.
pub open spec fn is_pattern(s: Seq<char>) -> bool {
    s.contains('*') || s.contains('?') || s.contains('[')
}

/// Whether a pattern holds a character that stands for others.
pub fn has_glob(s: &str) -> (r: bool)
    ensures
        r == is_pattern(s@),
{
    text::contains_char(s, '*') || text::contains_char(s, '?') || text::contains_char(s, '[')
}

/// What the members of a class from position `i` on make of `c`: whether it was matched,
/// and where the class ends. A `]` in the first place is a member; `a-z` is a range
/// unless it would reach the end of the class.
pub open spec fn members(p: Seq<char>, i: int, first: bool, matched: bool, c: char) -> Option<
    (bool, int),
>
    decreases p.len() - i,
{
    if i < 0 || i >= p.len() {
        None
    } else if p[i] == ']' && !first {
        Some((matched, i))
    } else if i + 2 < p.len() && p[i + 1] == '-' && p[i + 2] != ']' {
        members(p, i + 3, false, matched || (p[i] <= c && c <= p[i + 2]), c)
    } else {
        members(p, i + 1, false, matched || p[i] == c, c)
    }
}

/// Whether a class at the head of `p` is negated.
pub open spec fn negated(p: Seq<char>) -> bool {
    p.len() > 1 && (p[1] == '!' || p[1] == '^')
}

/// Whether `c` is in the class at the head of `p`, and where the pattern goes on behind
/// it; none for a class that does not end.
pub open spec fn class_of(p: Seq<char>, c: char) -> Option<(bool, int)> {
    let start = if negated(p) {
        2int
    } else {
        1int
    };
    match members(p, start, true, false, c) {
        Some((matched, end)) => Some((matched != negated(p), end + 1)),
        None => None,
    }
}

/// Whether the name `n` is one that the pattern `p` stands for.
pub open spec fn stands_for(p: Seq<char>, n: Seq<char>) -> bool
    decreases p.len(), n.len(),
{
    if p.len() == 0 {
        n.len() == 0
    } else if p[0] == '*' {
        stands_for(p.drop_first(), n) || (n.len() > 0 && stands_for(p, n.drop_first()))
    } else if n.len() == 0 {
        false
    } else if p[0] == '?' {
        stands_for(p.drop_first(), n.drop_first())
    } else if p[0] == '[' {
        match class_of(p, n[0]) {
            Some((matched, rest)) => matched && 0 < rest <= p.len() && stands_for(
                p.skip(rest),
                n.drop_first(),
            ),
            None => false,
        }
    } else {
        n[0] == p[0] && stands_for(p.drop_first(), n.drop_first())
    }
}

/// Whether `c` is in the class at the head of `p`, and where the pattern goes on behind
/// it.
pub fn parse_class(p: &[char], c: char) -> (r: Option<(bool, usize)>)
    ensures
        match r {
            Some((matched, rest)) => class_of(p@, c) == Some((matched, rest as int)) && 0 < rest
                <= p@.len(),
            None => class_of(p@, c) is None,
        },
{
    let n: usize = p.len();
    let negate = n > 1 && (p[1] == '!' || p[1] == '^');
    let start: usize = if negate {
        2
    } else {
        1
    };
    let mut i: usize = start;
    let mut matched = false;
    let mut first = true;
    while i < n
        invariant
            n == p@.len(),
            start <= i,
            start >= 1,
            negate == negated(p@),
            start == if negate {
                2int
            } else {
                1int
            },
            members(p@, start as int, true, false, c) == members(
                p@,
                i as int,
                first,
                matched,
                c,
            ),
        decreases n - i,
    {
        let ch = p[i];
        if ch == ']' && !first {
            return Some((matched != negate, i + 1));
        }
        first = false;
        if n - i > 2 && p[i + 1] == '-' && p[i + 2] != ']' {
            if ch <= c && c <= p[i + 2] {
                matched = true;
            }
            i += 3;
        } else {
            if ch == c {
                matched = true;
            }
            i += 1;
        }
    }
    None
}

/// Whether `n` is one that `p` stands for.
fn match_chars(p: &[char], n: &[char]) -> (r: bool)
    ensures
        r == stands_for(p@, n@),
    decreases p@.len(), n@.len(),
{
    if p.len() == 0 {
        return n.len() == 0;
    }
    let p_rest = vstd::slice::slice_subrange(p, 1, p.len());
    proof {
        assert(p_rest@ =~= p@.drop_first());
    }
    if p[0] == '*' {
        if match_chars(p_rest, n) {
            return true;
        }
        if n.len() == 0 {
            return false;
        }
        let n_rest = vstd::slice::slice_subrange(n, 1, n.len());
        proof {
            assert(n_rest@ =~= n@.drop_first());
        }
        return match_chars(p, n_rest);
    }
    if n.len() == 0 {
        return false;
    }
    let n_rest = vstd::slice::slice_subrange(n, 1, n.len());
    proof {
        assert(n_rest@ =~= n@.drop_first());
    }
    if p[0] == '?' {
        return match_chars(p_rest, n_rest);
    }
    if p[0] == '[' {
        return match parse_class(p, n[0]) {
            Some((matched, rest)) => {
                let behind = vstd::slice::slice_subrange(p, rest, p.len());
                proof {
                    assert(behind@ =~= p@.skip(rest as int));
                }
                matched && match_chars(behind, n_rest)
            },
            None => false,
        };
    }
    n[0] == p[0] && match_chars(p_rest, n_rest)
}

/// Whether the pattern `pat` stands for `name`: `*` for any run of characters, `?` for
/// one, `[...]` for one of a class, and any other for itself.
pub fn glob_match(pat: &str, name: &str) -> (r: bool)
    ensures
        r == stands_for(pat@, name@),
{
    let p = text::chars_of(pat);
    let n = text::chars_of(name);
    match_chars(p.as_slice(), n.as_slice())
}

// ---------------------------------------------------------------------------
// Walking
// ---------------------------------------------------------------------------

/// The directory that a path pattern begins at, and the names below it. A `.` is passed
/// over. A `..` in front belongs to the beginning, and behind a name it is one itself.
pub open spec fn split_pattern(parts: Seq<Seq<char>>, base: Seq<char>) -> (
    Seq<char>,
    Seq<Seq<char>>,
)
    decreases parts.len(),
{
    if parts.len() == 0 {
        (base, Seq::empty())
    } else {
        let (b, names) = split_pattern(parts.drop_last(), base);
        if parts.last().len() == 0 || parts.last() == "."@ {
            (b, names)
        } else if parts.last() == ".."@ && names.len() == 0 {
            (paths::below(b, ".."@), names)
        } else {
            (b, names.push(parts.last()))
        }
    }
}

/// The directory that a path pattern with slashes begins at, on the platform `os`: the
/// root, or the current directory, of the drive or share that it begins with.
pub open spec fn pattern_base(pattern: Seq<char>, os: Seq<char>) -> Seq<char> {
    let k = paths::prefix_len(pattern, os);
    pattern.take(k) + if paths::absolute(pattern.skip(k)) {
        "/"@
    } else if k > 0 {
        "."@
    } else {
        Seq::empty()
    }
}

/// The directory that a path pattern with slashes begins at, and the names below it.
pub open spec fn pattern_parts(pattern: Seq<char>, os: Seq<char>) -> (Seq<char>, Seq<Seq<char>>) {
    split_pattern(
        text::pieces(pattern.skip(paths::prefix_len(pattern, os)), '/'),
        pattern_base(pattern, os),
    )
}

/// The directory that a path pattern with slashes begins at, and the names below it.
pub fn glob_parts(pattern: &str, os: &str) -> (r: (String, Vec<String>))
    ensures
        (r.0@, text::texts(r.1@)) == pattern_parts(pattern@, os@),
{
    let cs = text::chars_of(pattern);
    let n: usize = cs.len();
    let k: usize = paths::prefix_of(cs.as_slice(), os);
    let rest = text::string_of(vstd::slice::slice_subrange(cs.as_slice(), k, n));
    let mut base = text::string_of(vstd::slice::slice_subrange(cs.as_slice(), 0, k));
    proof {
        assert(rest@ =~= pattern@.skip(k as int));
        assert(base@ =~= pattern@.take(k as int));
    }
    let parts = text::split(rest.as_str(), '/');
    let ghost all = text::texts(parts@);
    if paths::is_absolute(rest.as_str()) {
        base.append("/");
    } else if k > 0 {
        base.append(".");
    }
    let ghost start = base@;
    let mut names: Vec<String> = Vec::new();
    let mut i: usize = 0;
    proof {
        assert(text::texts(names@) =~= Seq::empty());
        assert(start =~= pattern_base(pattern@, os@));
        assert(all.take(0) =~= Seq::empty());
    }
    while i < parts.len()
        invariant
            i <= parts@.len(),
            all == text::texts(parts@),
            (base@, text::texts(names@)) == split_pattern(all.take(i as int), start),
        decreases parts.len() - i,
    {
        let part = parts[i].as_str();
        let ghost before = names@;
        proof {
            let head = all.take(i + 1);
            assert(head.drop_last() =~= all.take(i as int));
            assert(head.last() == part@);
            assert(text::texts(names@).len() == names@.len());
        }
        if part.is_empty() || text::same(part, ".") {
        } else if text::same(part, "..") && names.len() == 0 {
            base = paths::join(base.as_str(), "..");
        } else {
            names.push(part.to_owned());
            proof {
                text::texts_push(before, names@.last());
            }
        }
        i += 1;
    }
    proof {
        assert(all.take(i as int) =~= all);
    }
    (base, names)
}

/// An entry of a directory: its name, and whether it is a file.
pub struct DirEntry {
    pub name: String,
    pub is_file: bool,
}

/// The entries that a name pattern leads on to: files where it is the last, and what is
/// no file where it is not.
pub open spec fn leads_on(e: DirEntry, seg: Seq<char>, last: bool) -> bool {
    stands_for(seg, e.name@) && e.is_file == last
}

/// The paths of the entries that a name pattern leads on to, in order.
pub open spec fn paths_on(dir: Seq<char>, entries: Seq<DirEntry>, seg: Seq<char>, last: bool) -> Seq<
    Seq<char>,
>
    decreases entries.len(),
{
    if entries.len() == 0 {
        Seq::empty()
    } else {
        let rest = paths_on(dir, entries.drop_last(), seg, last);
        if leads_on(entries.last(), seg, last) {
            rest.push(paths::below(dir, entries.last().name@))
        } else {
            rest
        }
    }
}

/// The paths that the name pattern `seg` leads on to among the entries of `dir`: the
/// files that it stands for where it is the last part of a path, and else what is no
/// file.
pub fn glob_step(dir: &str, entries: &Vec<DirEntry>, seg: &str, last: bool) -> (out: Vec<String>)
    ensures
        text::texts(out@) == paths_on(dir@, entries@, seg@, last),
{
    let mut out: Vec<String> = Vec::new();
    let mut i: usize = 0;
    proof {
        assert(text::texts(out@) =~= paths_on(dir@, entries@.take(0), seg@, last));
    }
    while i < entries.len()
        invariant
            i <= entries@.len(),
            text::texts(out@) == paths_on(dir@, entries@.take(i as int), seg@, last),
        decreases entries.len() - i,
    {
        let ghost before = out@;
        proof {
            let head = entries@.take(i + 1);
            assert(head.drop_last() =~= entries@.take(i as int));
            assert(head.last() == entries@[i as int]);
        }
        if glob_match(seg, entries[i].name.as_str()) && entries[i].is_file == last {
            out.push(paths::join(dir, entries[i].name.as_str()));
            proof {
                text::texts_push(before, out@.last());
            }
        }
        i += 1;
    }
    proof {
        assert(entries@.take(i as int) =~= entries@);
    }
    out
}

// ---------------------------------------------------------------------------
// The order of paths
// ---------------------------------------------------------------------------

/// Whether a character of a path stands before another one: a slash, which ends a part,
/// stands before every other.
pub open spec fn path_char_precedes(c: char, d: char) -> bool {
    d != '/' && (c == '/' || c < d)
}

/// Whether the path `a` stands before `b`, compared part by part.
pub open spec fn path_precedes(a: Seq<char>, b: Seq<char>) -> bool
    decreases a.len(),
{
    if b.len() == 0 {
        false
    } else if a.len() == 0 {
        true
    } else if a[0] != b[0] {
        path_char_precedes(a[0], b[0])
    } else {
        path_precedes(a.drop_first(), b.drop_first())
    }
}

/// Whether no path stands before one in front of it.
pub open spec fn in_path_order(v: Seq<Seq<char>>) -> bool {
    forall|i: int, j: int| 0 <= i < j < v.len() ==> !path_precedes(#[trigger] v[j], #[trigger] v[i])
}

/// What stands before a path that stands before another stands before that one.
proof fn path_precedes_transitive(a: Seq<char>, b: Seq<char>, c: Seq<char>)
    requires
        path_precedes(a, b),
        path_precedes(b, c),
    ensures
        path_precedes(a, c),
    decreases a.len(),
{
    if a.len() > 0 && a[0] == b[0] && b[0] == c[0] {
        path_precedes_transitive(a.drop_first(), b.drop_first(), c.drop_first());
    }
}

/// Whether the path `a` stands before `b`.
fn path_before(a: &str, b: &str) -> (r: bool)
    ensures
        r == path_precedes(a@, b@),
{
    let x = text::chars_of(a);
    let y = text::chars_of(b);
    let mut i: usize = 0;
    proof {
        assert(a@.skip(0) =~= a@);
        assert(b@.skip(0) =~= b@);
    }
    loop
        invariant
            x@ == a@,
            y@ == b@,
            i <= x@.len(),
            i <= y@.len(),
            path_precedes(a@, b@) == path_precedes(a@.skip(i as int), b@.skip(i as int)),
        decreases x.len() - i,
    {
        if i == y.len() {
            return false;
        }
        if i == x.len() {
            return true;
        }
        if x[i] != y[i] {
            return y[i] != '/' && (x[i] == '/' || x[i] < y[i]);
        }
        proof {
            assert(a@.skip(i as int).drop_first() =~= a@.skip(i + 1));
            assert(b@.skip(i as int).drop_first() =~= b@.skip(i + 1));
        }
        i += 1;
    }
}

/// Puts a path in its place among paths in order.
fn insert_path(v: &mut Vec<String>, p: String)
    requires
        in_path_order(text::texts(old(v)@)),
    ensures
        in_path_order(text::texts(final(v)@)),
        text::texts(final(v)@).to_multiset() == text::texts(old(v)@).to_multiset().insert(p@),
{
    let ghost was = text::texts(v@);
    let mut i: usize = 0;
    while i < v.len() && !path_before(p.as_str(), v[i].as_str())
        invariant
            i <= v@.len(),
            was == text::texts(v@),
            *v == *old(v),
            forall|j: int| 0 <= j < i ==> !path_precedes(p@, #[trigger] was[j]),
        decreases v.len() - i,
    {
        i += 1;
    }
    v.insert(i, p);
    proof {
        let now = text::texts(v@);
        assert(now =~= was.insert(i as int, p@));
        assert forall|a: int, b: int| 0 <= a < b < now.len() implies !path_precedes(
            #[trigger] now[b],
            #[trigger] now[a],
        ) by {
            if a < i && b < i {
                assert(!path_precedes(was[b], was[a]));
            } else if a < i && b == i {
                assert(!path_precedes(p@, was[a]));
            } else if a < i {
                assert(!path_precedes(was[b - 1], was[a]));
            } else if a == i {
                if path_precedes(was[b - 1], p@) {
                    path_precedes_transitive(was[b - 1], p@, was[i as int]);
                    if b - 1 > i {
                        assert(!path_precedes(was[b - 1], was[i as int]));
                    } else {
                        path_precedes_transitive(p@, was[i as int], p@);
                        path_precedes_irreflexive(p@);
                    }
                }
            } else {
                assert(!path_precedes(was[b - 1], was[a - 1]));
            }
        }
        assert(now.remove(i as int) =~= was);
        assert(now[i as int] == p@);
        now.to_multiset_ensures();
        assert(now.contains(p@));
        assert(now.to_multiset() =~= was.to_multiset().insert(p@));
    }
}

/// No path stands before itself.
proof fn path_precedes_irreflexive(a: Seq<char>)
    ensures
        !path_precedes(a, a),
    decreases a.len(),
{
    if a.len() > 0 {
        path_precedes_irreflexive(a.drop_first());
    }
}

/// The paths, in order.
pub fn sorted_paths(paths: &Vec<String>) -> (v: Vec<String>)
    ensures
        in_path_order(text::texts(v@)),
        text::texts(v@).to_multiset() == text::texts(paths@).to_multiset(),
{
    let mut v: Vec<String> = Vec::new();
    let ghost all = text::texts(paths@);
    let mut i: usize = 0;
    proof {
        assert(text::texts(v@) =~= all.take(0));
    }
    while i < paths.len()
        invariant
            i <= paths@.len(),
            all == text::texts(paths@),
            in_path_order(text::texts(v@)),
            text::texts(v@).to_multiset() == all.take(i as int).to_multiset(),
        decreases paths.len() - i,
    {
        insert_path(&mut v, paths[i].clone());
        proof {
            let head = all.take(i as int);
            assert(all.take(i + 1) =~= head.push(all[i as int]));
            head.to_multiset_ensures();
        }
        i += 1;
    }
    proof {
        assert(all.take(i as int) =~= all);
    }
    v
}

// ---------------------------------------------------------------------------
// The walk down a path pattern
// ---------------------------------------------------------------------------

/// A walk through the directories that a path pattern leads through, level by level.
pub struct GlobWalk {
    /// The names that are left, the one of this level first.
    names: Vec<String>,
    /// The directories of this level that are left.
    dirs: Vec<String>,
    /// The directories of the next level.
    next: Vec<String>,
    /// The files at the end of the pattern.
    found: Vec<String>,
}

/// A [`GlobWalk`] with its texts as sequences.
#[verifier::ext_equal]
pub struct GlobView {
    pub names: Seq<Seq<char>>,
    pub dirs: Seq<Seq<char>>,
    pub next: Seq<Seq<char>>,
    pub found: Seq<Seq<char>>,
}

/// What a walk asks for next.
#[derive(Clone, Debug, PartialEq, Eq)]
pub enum GlobStep {
    /// The entries of this directory.
    List(String),
    /// Whether this is a file.
    File(String),
    /// Whether this is a directory.
    Dir(String),
    /// Nothing more.
    Done,
}

/// A [`GlobStep`] with its text as a sequence.
pub enum GlobAsks {
    List(Seq<char>),
    File(Seq<char>),
    Dir(Seq<char>),
    Done,
}

impl View for GlobStep {
    type V = GlobAsks;

    open spec fn view(&self) -> GlobAsks {
        match self {
            GlobStep::List(d) => GlobAsks::List(d@),
            GlobStep::File(p) => GlobAsks::File(p@),
            GlobStep::Dir(p) => GlobAsks::Dir(p@),
            GlobStep::Done => GlobAsks::Done,
        }
    }
}

impl View for GlobWalk {
    type V = GlobView;

    closed spec fn view(&self) -> GlobView {
        GlobView {
            names: text::texts(self.names@),
            dirs: text::texts(self.dirs@),
            next: text::texts(self.next@),
            found: text::texts(self.found@),
        }
    }
}

/// A walk that has not begun.
pub open spec fn glob_start(pattern: Seq<char>, os: Seq<char>) -> GlobView {
    let (base, names) = pattern_parts(pattern, os);
    GlobView { names, dirs: seq![base], next: Seq::empty(), found: Seq::empty() }
}

/// The walk on the next level, where this one is done with and another one follows.
pub open spec fn glob_settled(g: GlobView) -> GlobView {
    if g.dirs.len() == 0 && g.names.len() > 1 {
        GlobView { names: g.names.drop_first(), dirs: g.next, next: Seq::empty(), ..g }
    } else {
        g
    }
}

/// What a walk asks for: the entries of a directory for a name with special characters,
/// and else whether the one thing that the name leads to is there.
pub open spec fn glob_asks(g: GlobView) -> GlobAsks {
    if g.names.len() == 0 || g.dirs.len() == 0 {
        GlobAsks::Done
    } else if is_pattern(g.names[0]) {
        GlobAsks::List(g.dirs[0])
    } else if g.names.len() == 1 {
        GlobAsks::File(paths::below(g.dirs[0], g.names[0]))
    } else {
        GlobAsks::Dir(paths::below(g.dirs[0], g.names[0]))
    }
}

/// The walk once the first directory has led on to these paths.
pub open spec fn glob_led(g: GlobView, to: Seq<Seq<char>>) -> GlobView {
    if g.names.len() == 0 || g.dirs.len() == 0 {
        g
    } else if g.names.len() == 1 {
        GlobView { dirs: g.dirs.drop_first(), found: g.found + to, ..g }
    } else {
        GlobView { dirs: g.dirs.drop_first(), next: g.next + to, ..g }
    }
}

/// The paths that the first directory leads on to, with these entries.
pub open spec fn glob_listed(g: GlobView, entries: Seq<DirEntry>) -> Seq<Seq<char>> {
    paths_on(g.dirs[0], entries, g.names[0], g.names.len() == 1)
}

/// The path that the first directory leads on to, if it is there.
pub open spec fn glob_looked(g: GlobView, there: bool) -> Seq<Seq<char>> {
    if there {
        seq![paths::below(g.dirs[0], g.names[0])]
    } else {
        Seq::empty()
    }
}

/// Appends texts to texts.
fn append_all(v: &mut Vec<String>, more: Vec<String>)
    ensures
        text::texts(final(v)@) == text::texts(old(v)@) + text::texts(more@),
{
    let ghost was = text::texts(v@);
    let ghost all = text::texts(more@);
    let mut i: usize = 0;
    proof {
        assert(was + all.take(0) =~= was);
    }
    while i < more.len()
        invariant
            i <= more@.len(),
            all == text::texts(more@),
            text::texts(v@) == was + all.take(i as int),
        decreases more.len() - i,
    {
        let ghost before = v@;
        v.push(more[i].clone());
        proof {
            text::texts_push(before, v@.last());
            assert(all.take(i + 1) =~= all.take(i as int).push(all[i as int]));
            assert(was + all.take(i + 1) =~= (was + all.take(i as int)).push(all[i as int]));
        }
        i += 1;
    }
    proof {
        assert(all.take(i as int) =~= all);
    }
}

impl GlobWalk {
    /// A walk that has not begun, down a pattern with slashes on the platform `os`.
    pub fn new(pattern: &str, os: &str) -> (w: GlobWalk)
        ensures
            w@ == glob_start(pattern@, os@),
    {
        let (base, names) = glob_parts(pattern, os);
        let w = GlobWalk { names, dirs: vec![base], next: Vec::new(), found: Vec::new() };
        proof {
            assert(w@ =~= glob_start(pattern@, os@));
        }
        w
    }

    /// Goes on to the next level where this one is done with, and says what is asked for.
    /// The answer to a listing is given to `listed`, the other ones to `looked`.
    pub fn step(&mut self) -> (s: GlobStep)
        ensures
            final(self)@ == glob_settled(old(self)@),
            s@ == glob_asks(glob_settled(old(self)@)),
    {
        let ghost was = self@;
        if self.dirs.len() == 0 && self.names.len() > 1 {
            self.names.remove(0);
            let mut dirs: Vec<String> = Vec::new();
            std::mem::swap(&mut dirs, &mut self.next);
            self.dirs = dirs;
        }
        proof {
            assert(self@ =~= glob_settled(was));
        }
        if self.names.len() == 0 || self.dirs.len() == 0 {
            GlobStep::Done
        } else if has_glob(self.names[0].as_str()) {
            GlobStep::List(self.dirs[0].clone())
        } else if self.names.len() == 1 {
            GlobStep::File(paths::join(self.dirs[0].as_str(), self.names[0].as_str()))
        } else {
            GlobStep::Dir(paths::join(self.dirs[0].as_str(), self.names[0].as_str()))
        }
    }

    /// Leaves the first directory, which leads on to these paths.
    fn lead(&mut self, to: Vec<String>)
        ensures
            final(self)@ == glob_led(old(self)@, text::texts(to@)),
    {
        let ghost was = self@;
        if self.names.len() > 0 && self.dirs.len() > 0 {
            self.dirs.remove(0);
            if self.names.len() == 1 {
                append_all(&mut self.found, to);
            } else {
                append_all(&mut self.next, to);
            }
            proof {
                assert(self@ =~= glob_led(was, text::texts(to@)));
            }
        }
    }

    /// Takes the entries of the directory that was asked for; of one that cannot be read
    /// there are none.
    pub fn listed(&mut self, entries: &Vec<DirEntry>)
        ensures
            final(self)@ == glob_led(old(self)@, glob_listed(old(self)@, entries@)),
    {
        if self.names.len() > 0 && self.dirs.len() > 0 {
            let last = self.names.len() == 1;
            let to = glob_step(
                self.dirs[0].as_str(),
                entries,
                self.names[0].as_str(),
                last,
            );
            self.lead(to);
        }
    }

    /// Takes whether the file or directory that was asked for is there.
    pub fn looked(&mut self, there: bool)
        ensures
            final(self)@ == glob_led(old(self)@, glob_looked(old(self)@, there)),
    {
        if self.names.len() > 0 && self.dirs.len() > 0 {
            let mut to: Vec<String> = Vec::new();
            if there {
                to.push(paths::join(self.dirs[0].as_str(), self.names[0].as_str()));
            }
            proof {
                assert(text::texts(to@) =~= glob_looked(self@, there));
            }
            self.lead(to);
        }
    }

    /// The files that were found, in order.
    pub fn files(&self) -> (v: Vec<String>)
        ensures
            in_path_order(text::texts(v@)),
            text::texts(v@).to_multiset() == self@.found.to_multiset(),
    {
        sorted_paths(&self.found)
    }
}

// ---------------------------------------------------------------------------
// Laws of the walk
// ---------------------------------------------------------------------------

/// A file system: the entries of the directories that can be read, and which paths are
/// files and directories.
pub struct Tree {
    pub entries: Map<Seq<char>, Seq<DirEntry>>,
    pub files: Set<Seq<char>>,
    pub dirs: Set<Seq<char>>,
}

/// The paths that a name leads on to from a directory: files where it is the last, and
/// directories where it is not.
pub open spec fn led_from(t: Tree, dir: Seq<char>, name: Seq<char>, last: bool) -> Seq<Seq<char>> {
    if is_pattern(name) {
        if t.entries.dom().contains(dir) {
            paths_on(dir, t.entries[dir], name, last)
        } else {
            Seq::empty()
        }
    } else {
        let p = paths::below(dir, name);
        if if last {
            t.files.contains(p)
        } else {
            t.dirs.contains(p)
        } {
            seq![p]
        } else {
            Seq::empty()
        }
    }
}

/// The files that the names lead to from these directories.
pub open spec fn reached(t: Tree, dirs: Seq<Seq<char>>, names: Seq<Seq<char>>) -> Seq<Seq<char>>
    decreases names.len(), dirs.len(),
{
    if names.len() == 0 || dirs.len() == 0 {
        Seq::empty()
    } else {
        let to = led_from(t, dirs[0], names[0], names.len() == 1);
        let here = if names.len() == 1 {
            to
        } else {
            reached(t, to, names.drop_first())
        };
        here + reached(t, dirs.drop_first(), names)
    }
}

/// The walk once it was answered out of a file system.
pub open spec fn glob_answered(g: GlobView, t: Tree) -> GlobView {
    match glob_asks(g) {
        GlobAsks::List(d) => glob_led(
            g,
            glob_listed(
                g,
                if t.entries.dom().contains(d) {
                    t.entries[d]
                } else {
                    Seq::empty()
                },
            ),
        ),
        GlobAsks::File(p) => glob_led(g, glob_looked(g, t.files.contains(p))),
        GlobAsks::Dir(p) => glob_led(g, glob_looked(g, t.dirs.contains(p))),
        GlobAsks::Done => g,
    }
}

/// The files that a walk has found and will still find.
pub open spec fn glob_owed(g: GlobView, t: Tree) -> Seq<Seq<char>> {
    g.found + reached(
        t,
        g.next,
        if g.names.len() == 0 {
            g.names
        } else {
            g.names.drop_first()
        },
    ) + reached(t, g.dirs, g.names)
}

/// What is reached from directories together is what is reached from each.
proof fn reached_of_sum(t: Tree, a: Seq<Seq<char>>, b: Seq<Seq<char>>, names: Seq<Seq<char>>)
    ensures
        reached(t, a + b, names) == reached(t, a, names) + reached(t, b, names),
    decreases a.len(),
{
    if names.len() == 0 {
        assert(reached(t, a, names) + reached(t, b, names) =~= Seq::empty());
    } else if a.len() == 0 {
        assert(a + b =~= b);
        assert(reached(t, a, names) + reached(t, b, names) =~= reached(t, b, names));
    } else {
        assert((a + b).drop_first() =~= a.drop_first() + b);
        assert((a + b)[0] == a[0]);
        reached_of_sum(t, a.drop_first(), b, names);
        assert(reached(t, a + b, names) =~= reached(t, a, names) + reached(t, b, names));
    }
}

/// A walk that is answered out of a file system loses no file and makes none up: what it
/// has found and will find stays the same.
pub proof fn walk_keeps_what_it_owes(g: GlobView, t: Tree)
    ensures
        glob_owed(glob_settled(g), t) == glob_owed(g, t),
        glob_owed(glob_answered(g, t), t) == glob_owed(g, t),
{
    let s = glob_settled(g);
    if s != g {
        assert(reached(t, s.next, s.names.drop_first()) =~= Seq::empty());
        assert(reached(t, g.dirs, g.names) =~= Seq::empty());
        assert(glob_owed(s, t) =~= glob_owed(g, t));
    }
    if !(glob_asks(g) is Done) {
        let to = led_from(t, g.dirs[0], g.names[0], g.names.len() == 1);
        let rest = g.names.drop_first();
        let a = glob_answered(g, t);
        assert(paths_on(g.dirs[0], Seq::empty(), g.names[0], g.names.len() == 1) =~= Seq::empty());
        assert(a == glob_led(g, to));
        if g.names.len() == 1 {
            assert(reached(t, g.next, rest) =~= Seq::empty());
            assert(glob_owed(a, t) =~= glob_owed(g, t));
        } else {
            reached_of_sum(t, g.next, to, rest);
            assert(glob_owed(a, t) =~= glob_owed(g, t));
        }
    }
}

/// A walk that asks for nothing more has found all that it owed.
pub proof fn finished_walk_owes_nothing(g: GlobView, t: Tree)
    requires
        glob_asks(glob_settled(g)) is Done,
    ensures
        glob_owed(g, t) == glob_settled(g).found,
{
    let s = glob_settled(g);
    walk_keeps_what_it_owes(g, t);
    if s.names.len() > 1 {
        assert(g.dirs.len() == 0);
        assert(s.dirs.len() == 0);
        assert(s.next.len() == 0);
    }
    assert(glob_owed(s, t) =~= s.found);
}

/// A walk that has not begun owes what its pattern leads to.
pub proof fn fresh_walk_owes_the_pattern(pattern: Seq<char>, os: Seq<char>, t: Tree)
    ensures
        glob_owed(glob_start(pattern, os), t) == reached(
            t,
            seq![pattern_parts(pattern, os).0],
            pattern_parts(pattern, os).1,
        ),
{
    let g = glob_start(pattern, os);
    assert(glob_owed(g, t) =~= reached(t, g.dirs, g.names));
}

/// The directories that names lead to.
pub open spec fn walked(t: Tree, dirs: Seq<Seq<char>>, names: Seq<Seq<char>>) -> Seq<Seq<char>>
    decreases names.len(), dirs.len(),
{
    if names.len() == 0 {
        dirs
    } else if dirs.len() == 0 {
        Seq::empty()
    } else {
        let to = led_from(t, dirs[0], names[0], false);
        walked(t, to, names.drop_first()) + walked(t, dirs.drop_first(), names)
    }
}

/// What names lead to is what the last of them lead to from the directories of the first.
proof fn reached_by_halves(
    t: Tree,
    dirs: Seq<Seq<char>>,
    a: Seq<Seq<char>>,
    b: Seq<Seq<char>>,
)
    requires
        b.len() > 0,
    ensures
        reached(t, dirs, a + b) == reached(t, walked(t, dirs, a), b),
    decreases a.len(), dirs.len(),
{
    if a.len() == 0 {
        assert(a + b =~= b);
    } else if dirs.len() > 0 {
        let to = led_from(t, dirs[0], a[0], false);
        assert((a + b).drop_first() =~= a.drop_first() + b);
        reached_by_halves(t, to, a.drop_first(), b);
        reached_by_halves(t, dirs.drop_first(), a, b);
        reached_of_sum(
            t,
            walked(t, to, a.drop_first()),
            walked(t, dirs.drop_first(), a),
            b,
        );
    }
}

/// The parts of a longer pattern are those of the shorter one, with the names behind it.
proof fn split_of_sum(a: Seq<Seq<char>>, b: Seq<Seq<char>>, base: Seq<char>)
    requires
        split_pattern(a, base).1.len() > 0,
        forall|i: int| 0 <= i < b.len() ==> (#[trigger] b[i]).len() > 0 && b[i] != "."@,
    ensures
        split_pattern(a + b, base) == (
            split_pattern(a, base).0,
            split_pattern(a, base).1 + b,
        ),
    decreases b.len(),
{
    let names = split_pattern(a, base).1;
    if b.len() == 0 {
        assert(a + b =~= a);
        assert(names + b =~= names);
    } else {
        let less = b.drop_last();
        assert forall|i: int| 0 <= i < less.len() implies (#[trigger] less[i]).len() > 0 && less[i]
            != "."@ by {
            assert(less[i] == b[i]);
        }
        split_of_sum(a, less, base);
        assert((a + b).drop_last() =~= a + less);
        assert((a + b).last() == b[b.len() - 1]);
        assert((names + less).push(b.last()) =~= names + b);
    }
}

/// Whether a text names one entry of a directory.
pub open spec fn is_entry_name(x: Seq<char>) -> bool {
    x.len() > 0 && x != "."@ && x != ".."@ && !x.contains('/') && !is_pattern(x)
}

/// The path that leads from the directory `dir` up, and from there to `x`.
pub open spec fn beside(dir: Seq<char>, x: Seq<char>) -> Seq<char> {
    paths::below(paths::below(dir, ".."@), x)
}

/// A pattern that goes up from a directory is sought in the directory above it: where
/// `dir` leads to the one directory `at`, of which `..` is the parent, the walk of
/// `dir/../x` owes the file `x` in the parent of `at`, and nothing else.
pub proof fn parent_part_leads_up(
    dir: Seq<char>,
    x: Seq<char>,
    os: Seq<char>,
    at: Seq<char>,
    t: Tree,
)
    requires
        is_entry_name(x),
        pattern_parts(dir, os).1.len() > 0,
        walked(t, seq![pattern_parts(dir, os).0], pattern_parts(dir, os).1) == seq![at],
        t.dirs.contains(paths::below(at, ".."@)),
        t.files.contains(beside(at, x)) == t.files.contains(
            paths::below(paths::parent_on(at, os), x),
        ),
    ensures
        glob_owed(glob_start(dir + "/../"@ + x, os), t) == if t.files.contains(
            paths::below(paths::parent_on(at, os), x),
        ) {
            seq![beside(at, x)]
        } else {
            Seq::empty()
        },
{
    reveal_strlit("/../");
    reveal_strlit("..");
    reveal_strlit(".");
    let whole = dir + "/../"@ + x;
    let up = ".."@;
    let (base, names) = pattern_parts(dir, os);
    let k = paths::prefix_len(dir, os);
    let rest = dir.skip(k);
    let tail = up + seq!['/'] + x;
    let more = seq![up, x];
    // Something stands behind the drive or share.
    paths::prefix_bounds(dir, os);
    assert(rest.len() > 0 && rest != "/"@) by {
        reveal_strlit("/");
        reveal_with_fuel(split_pattern, 3);
        let none = Seq::<char>::empty();
        text::pieces_without(none, '/');
        if rest.len() == 0 {
            assert(rest =~= none);
            assert(seq![none].drop_last() =~= Seq::empty());
        }
        if rest == "/"@ {
            assert(rest =~= none + seq!['/'] + none);
            text::pieces_of_join(none, '/', none);
            assert(text::pieces(rest, '/') =~= seq![none, none]);
            assert(seq![none, none].drop_last() =~= seq![none]);
            assert(seq![none].drop_last() =~= Seq::empty());
        }
    }
    if dir.len() == 1 {
        assert(rest =~= dir);
        assert(dir[0] != '/') by {
            reveal_strlit("/");
            if dir[0] == '/' {
                assert(rest =~= "/"@);
            }
        }
    }
    assert(whole =~= dir + (seq!['/'] + tail));
    paths::prefix_is_stable(dir, seq!['/'] + tail, os);
    assert(whole.take(k) =~= dir.take(k));
    assert(whole.skip(k) =~= rest + seq!['/'] + tail);
    assert(whole.skip(k)[0] == rest[0]);
    assert(pattern_base(whole, os) == pattern_base(dir, os));
    // The pieces of the whole.
    assert(!up.contains('/')) by {
        assert forall|i: int| 0 <= i < up.len() implies up[i] != '/' by {}
    }
    text::pieces_of_sum(up, '/', x);
    text::pieces_without(x, '/');
    text::pieces_of_join(rest, '/', tail);
    assert(text::pieces(tail, '/') =~= more);
    split_of_sum(text::pieces(rest, '/'), more, pattern_base(dir, os));
    assert(pattern_parts(whole, os) == (base, names + more));
    // What they lead to.
    fresh_walk_owes_the_pattern(whole, os, t);
    reached_by_halves(t, seq![base], names, more);
    assert(!is_pattern(up));
    let above = paths::below(at, up);
    assert(led_from(t, at, up, false) =~= seq![above]);
    assert(more.drop_first() =~= seq![x]);
    let last = seq![x];
    let one = seq![at];
    assert(one.drop_first() =~= Seq::empty());
    assert(reached(t, one.drop_first(), more) =~= Seq::empty());
    let aboves = seq![above];
    assert(aboves.drop_first() =~= Seq::empty());
    assert(reached(t, aboves.drop_first(), last) =~= Seq::empty());
    let found = led_from(t, above, x, true);
    assert(reached(t, aboves, last) =~= found);
    assert(reached(t, one, more) =~= found);
}

// ---------------------------------------------------------------------------
// Laws of patterns
// ---------------------------------------------------------------------------

/// A pattern without special characters stands for itself alone.
pub proof fn plain_pattern_is_literal(p: Seq<char>, n: Seq<char>)
    requires
        !is_pattern(p),
    ensures
        stands_for(p, n) == (p == n),
    decreases p.len(),
{
    if p.len() == 0 {
        if n.len() == 0 {
            assert(p =~= n);
        }
    } else {
        assert(p.contains(p[0]));
        if n.len() > 0 {
            let t = p.drop_first();
            assert forall|c: char| t.contains(c) implies p.contains(c) by {
                let i = choose|i: int| 0 <= i < t.len() && t[i] == c;
                assert(p[i + 1] == c);
            }
            plain_pattern_is_literal(t, n.drop_first());
            if p[0] == n[0] && t == n.drop_first() {
                assert(p =~= seq![p[0]] + t);
                assert(n =~= seq![n[0]] + n.drop_first());
            }
        }
    }
}

/// A star stands for every name.
pub proof fn star_stands_for_all(n: Seq<char>)
    ensures
        stands_for(seq!['*'], n),
    decreases n.len(),
{
    let p = seq!['*'];
    assert(p.drop_first() =~= Seq::empty());
    if n.len() > 0 {
        star_stands_for_all(n.drop_first());
    } else {
        assert(stands_for(p.drop_first(), n));
    }
}

/// A star in front of a pattern lets any beginning pass.
pub proof fn star_passes_any_beginning(p: Seq<char>, a: Seq<char>, n: Seq<char>)
    requires
        stands_for(p, n),
    ensures
        stands_for(seq!['*'] + p, a + n),
    decreases a.len(),
{
    let q = seq!['*'] + p;
    assert(q.drop_first() =~= p);
    if a.len() == 0 {
        assert(a + n =~= n);
    } else {
        star_passes_any_beginning(p, a.drop_first(), n);
        assert((a + n).drop_first() =~= a.drop_first() + n);
    }
}

// ---------------------------------------------------------------------------
// Laws of name patterns
// ---------------------------------------------------------------------------

/// A question mark stands for one character, whichever it is, and for no less.
pub proof fn question_mark_stands_for_one(p: Seq<char>, c: char, n: Seq<char>)
    ensures
        stands_for(seq!['?'] + p, seq![c] + n) == stands_for(p, n),
        !stands_for(seq!['?'] + p, Seq::empty()),
{
    let q = seq!['?'] + p;
    assert(q.drop_first() =~= p);
    assert((seq![c] + n).drop_first() =~= n);
}

/// A character that is not special stands for itself alone.
pub proof fn plain_character_stands_for_itself(a: char, p: Seq<char>, c: char, n: Seq<char>)
    requires
        a != '*' && a != '?' && a != '[',
    ensures
        stands_for(seq![a] + p, seq![c] + n) == (a == c && stands_for(p, n)),
        !stands_for(seq![a] + p, Seq::empty()),
{
    assert((seq![a] + p).drop_first() =~= p);
    assert((seq![c] + n).drop_first() =~= n);
}

/// A star stands for any run of characters, and for nothing else: a name passes exactly where
/// some end of it passes what follows the star.
pub proof fn star_stands_for_any_run(p: Seq<char>, n: Seq<char>)
    ensures
        stands_for(seq!['*'] + p, n) <==> exists|k: int|
            0 <= k <= n.len() && stands_for(p, #[trigger] n.skip(k)),
    decreases n.len(),
{
    let s = seq!['*'] + p;
    assert(s.drop_first() =~= p);
    assert(n.skip(0) =~= n);
    if n.len() > 0 {
        let t = n.drop_first();
        star_stands_for_any_run(p, t);
        if stands_for(s, t) {
            let k = choose|k: int| 0 <= k <= t.len() && stands_for(p, #[trigger] t.skip(k));
            assert(n.skip(k + 1) =~= t.skip(k));
            assert(stands_for(p, n.skip(k + 1)));
        }
        if exists|k: int| 0 <= k <= n.len() && stands_for(p, #[trigger] n.skip(k)) {
            let k = choose|k: int| 0 <= k <= n.len() && stands_for(p, #[trigger] n.skip(k));
            if k > 0 {
                assert(t.skip(k - 1) =~= n.skip(k));
                assert(stands_for(p, t.skip(k - 1)));
            }
        }
    } else if exists|k: int| 0 <= k <= n.len() && stands_for(p, #[trigger] n.skip(k)) {
        let k = choose|k: int| 0 <= k <= n.len() && stands_for(p, #[trigger] n.skip(k));
        assert(n.skip(k) =~= n);
    } else {
        if stands_for(s, n) {
            assert(stands_for(p, n.skip(0)));
        }
    }
}

proof fn members_are(p: Seq<char>, i: int, first: bool, matched: bool, c: char, end: int)
    requires
        0 <= i <= end < p.len(),
        p[end] == ']',
        first ==> i < end,
        forall|j: int| i <= j < end ==> #[trigger] p[j] != ']' && p[j] != '-',
    ensures
        members(p, i, first, matched, c) == Some(
            (matched || exists|j: int| i <= j < end && #[trigger] p[j] == c, end),
        ),
    decreases end - i,
{
    if i < end {
        assert(p[i] != ']');
        if i + 1 < end {
            assert(p[i + 1] != '-');
        }
        members_are(p, i + 1, false, matched || p[i] == c, c, end);
        if exists|j: int| i <= j < end && #[trigger] p[j] == c {
            let j = choose|j: int| i <= j < end && #[trigger] p[j] == c;
            if j > i {
                assert(i + 1 <= j < end && p[j] == c);
            }
        }
    }
}

/// A class stands for one character, one of those that stand in it; with an exclamation mark
/// or a caret in front, one that does not stand in it.
pub proof fn class_stands_for_its_members(
    set: Seq<char>,
    mark: char,
    p: Seq<char>,
    c: char,
    n: Seq<char>,
)
    requires
        set.len() > 0,
        set[0] != '!' && set[0] != '^',
        forall|j: int| 0 <= j < set.len() ==> #[trigger] set[j] != ']' && set[j] != '-',
        mark == '!' || mark == '^',
    ensures
        stands_for(seq!['['] + set + seq![']'] + p, seq![c] + n) <==> set.contains(c) && stands_for(
            p,
            n,
        ),
        stands_for(seq!['[', mark] + set + seq![']'] + p, seq![c] + n) <==> !set.contains(c)
            && stands_for(p, n),
{
    let a = seq!['['] + set + seq![']'] + p;
    let b = seq!['[', mark] + set + seq![']'] + p;
    let k = set.len() as int;
    assert forall|j: int| 1 <= j < k + 1 implies #[trigger] a[j] != ']' && a[j] != '-' by {
        assert(a[j] == set[j - 1]);
    }
    assert forall|j: int| 2 <= j < k + 2 implies #[trigger] b[j] != ']' && b[j] != '-' by {
        assert(b[j] == set[j - 2]);
    }
    assert(a[1] == set[0]);
    assert(a[k + 1] == ']');
    assert(b[1] == mark && b[k + 2] == ']');
    members_are(a, 1, true, false, c, k + 1);
    members_are(b, 2, true, false, c, k + 2);
    if set.contains(c) {
        let j = choose|j: int| 0 <= j < set.len() && set[j] == c;
        assert(a[j + 1] == c);
        assert(b[j + 2] == c);
    }
    if exists|j: int| 1 <= j < k + 1 && #[trigger] a[j] == c {
        let j = choose|j: int| 1 <= j < k + 1 && #[trigger] a[j] == c;
        assert(set[j - 1] == c);
    }
    if exists|j: int| 2 <= j < k + 2 && #[trigger] b[j] == c {
        let j = choose|j: int| 2 <= j < k + 2 && #[trigger] b[j] == c;
        assert(set[j - 2] == c);
    }
    let name = seq![c] + n;
    assert(name[0] == c);
    assert(name.drop_first() =~= n);
    assert(a.skip(k + 2) =~= p);
    assert(b.skip(k + 3) =~= p);
}

/// A range in a class stands for each character from the one to the other.
pub proof fn range_stands_between_its_ends(lo: char, hi: char, p: Seq<char>, c: char, n: Seq<char>)
    requires
        lo != '!' && lo != '^' && hi != ']',
    ensures
        stands_for(seq!['[', lo, '-', hi, ']'] + p, seq![c] + n) <==> lo <= c && c <= hi
            && stands_for(p, n),
        stands_for(seq!['[', '!', lo, '-', hi, ']'] + p, seq![c] + n) <==> !(lo <= c && c <= hi)
            && stands_for(p, n),
{
    let a = seq!['[', lo, '-', hi, ']'] + p;
    let b = seq!['[', '!', lo, '-', hi, ']'] + p;
    reveal_with_fuel(members, 3);
    assert(a[1] == lo && a[2] == '-' && a[3] == hi && a[4] == ']');
    assert(b[1] == '!' && b[2] == lo && b[3] == '-' && b[4] == hi && b[5] == ']');
    assert(members(a, 4, false, lo <= c && c <= hi, c) == Some((lo <= c && c <= hi, 4int)));
    assert(members(b, 5, false, lo <= c && c <= hi, c) == Some((lo <= c && c <= hi, 5int)));
    let name = seq![c] + n;
    assert(name[0] == c);
    assert(name.drop_first() =~= n);
    assert(a.skip(5) =~= p);
    assert(b.skip(6) =~= p);
}

// ---------------------------------------------------------------------------
// Laws of path patterns
// ---------------------------------------------------------------------------

/// The entries of a directory are taken one by one, in order: each whose name the pattern
/// stands for, a file where the pattern is the last and what is no file where it is not.
pub proof fn entries_are_taken_in_order(
    dir: Seq<char>,
    a: Seq<DirEntry>,
    b: Seq<DirEntry>,
    e: DirEntry,
    seg: Seq<char>,
    last: bool,
)
    ensures
        paths_on(dir, a + b, seg, last) == paths_on(dir, a, seg, last) + paths_on(
            dir,
            b,
            seg,
            last,
        ),
        paths_on(dir, seq![e], seg, last) == if stands_for(seg, e.name@) && e.is_file == last {
            seq![paths::below(dir, e.name@)]
        } else {
            Seq::empty()
        },
    decreases b.len(),
{
    if b.len() == 0 {
        assert(a + b =~= a);
        assert(paths_on(dir, a, seg, last) + paths_on(dir, b, seg, last) =~= paths_on(
            dir,
            a,
            seg,
            last,
        ));
    } else {
        assert((a + b).drop_last() =~= a + b.drop_last());
        entries_are_taken_in_order(dir, a, b.drop_last(), e, seg, last);
        assert(paths_on(dir, a + b, seg, last) =~= paths_on(dir, a, seg, last) + paths_on(
            dir,
            b,
            seg,
            last,
        ));
    }
    reveal_with_fuel(paths_on, 2);
    assert(seq![e].drop_last() =~= Seq::empty());
    assert(Seq::<Seq<char>>::empty().push(paths::below(dir, e.name@)) =~= seq![
        paths::below(dir, e.name@),
    ]);
}

/// A name without special characters leads to the one path of that name, if it is there: a
/// file where it is the last, a directory where it is not.
pub proof fn plain_name_leads_to_its_path(t: Tree, dir: Seq<char>, name: Seq<char>)
    requires
        !name.contains('*') && !name.contains('?') && !name.contains('['),
    ensures
        led_from(t, dir, name, true) == if t.files.contains(paths::below(dir, name)) {
            seq![paths::below(dir, name)]
        } else {
            Seq::empty()
        },
        led_from(t, dir, name, false) == if t.dirs.contains(paths::below(dir, name)) {
            seq![paths::below(dir, name)]
        } else {
            Seq::empty()
        },
{
}

/// The files that names lead to are those that the rest of the names lead to from what the
/// first leads to, directory by directory, in order.
pub proof fn names_lead_on_one_by_one(
    t: Tree,
    dir: Seq<char>,
    dirs: Seq<Seq<char>>,
    name: Seq<char>,
    names: Seq<Seq<char>>,
)
    ensures
        reached(t, seq![dir] + dirs, seq![name] + names) == reached(t, seq![dir], seq![name] + names)
            + reached(t, dirs, seq![name] + names),
        reached(t, seq![dir], seq![name]) == led_from(t, dir, name, true),
        names.len() > 0 ==> reached(t, seq![dir], seq![name] + names) == reached(
            t,
            led_from(t, dir, name, false),
            names,
        ),
{
    let all = seq![name] + names;
    assert(all.drop_first() =~= names);
    assert((seq![dir] + dirs).drop_first() =~= dirs);
    assert(seq![dir].drop_first() =~= Seq::empty());
    assert(seq![name].drop_first() =~= Seq::empty());
    reveal_with_fuel(reached, 2);
    let none = reached(t, Seq::empty(), all);
    assert(none =~= Seq::empty());
    assert(reached(t, Seq::empty(), seq![name]) =~= Seq::empty());
    let to = led_from(t, dir, name, names.len() == 0);
    let here = if names.len() == 0 {
        to
    } else {
        reached(t, to, names)
    };
    assert(reached(t, seq![dir], all) =~= here);
    assert(led_from(t, dir, name, true) + reached(t, Seq::empty(), seq![name]) =~= led_from(
        t,
        dir,
        name,
        true,
    ));
}

/// Paths are compared part by part: a path stands before one that goes on below it, and a
/// part that is the beginning of another stands before it, whatever follows.
pub proof fn paths_are_compared_by_parts(a: Seq<char>, b: Seq<char>, c: char)
    requires
        c != '/',
    ensures
        b.len() > 0 ==> path_precedes(a, a + b),
        path_precedes(a + seq!['/'] + b, a.push(c)),
        path_precedes(a + seq!['/'] + b, a.push(c) + b),
        !path_precedes(a, a),
    decreases a.len(),
{
    path_precedes_irreflexive(a);
    if a.len() == 0 {
        assert(a + b =~= b);
        let x = a + seq!['/'] + b;
        let y = a.push(c);
        assert(x[0] == '/');
        assert(y[0] == c);
        assert((y + b)[0] == c);
    } else {
        let t = a.drop_first();
        paths_are_compared_by_parts(t, b, c);
        assert((a + b).drop_first() =~= t + b);
        assert((a + seq!['/'] + b).drop_first() =~= t + seq!['/'] + b);
        assert(a.push(c).drop_first() =~= t.push(c));
        assert((a.push(c) + b).drop_first() =~= t.push(c) + b);
    }
}

/// Two paths are compared by the first character in which they differ, where that is no slash
/// in either by which is the lesser.
pub proof fn paths_are_compared_by_characters(a: Seq<char>, c: char, d: char, x: Seq<char>, y: Seq<
    char,
>)
    requires
        c != d,
    ensures
        path_precedes(a + seq![c] + x, a + seq![d] + y) <==> d != '/' && (c == '/' || c < d),
    decreases a.len(),
{
    let p = a + seq![c] + x;
    let q = a + seq![d] + y;
    if a.len() == 0 {
        assert(p[0] == c && q[0] == d);
    } else {
        let t = a.drop_first();
        paths_are_compared_by_characters(t, c, d, x, y);
        assert(p.drop_first() =~= t + seq![c] + x);
        assert(q.drop_first() =~= t + seq![d] + y);
        assert(p[0] == q[0]);
    }
}

/// The parts of a path pattern are its names; an empty part and a dot are passed over.
pub proof fn dots_and_empty_parts_are_passed_over(
    parts: Seq<Seq<char>>,
    name: Seq<char>,
    base: Seq<char>,
)
    requires
        name.len() > 0,
        name != "."@,
        name != ".."@,
    ensures
        split_pattern(Seq::empty(), base) == (base, Seq::<Seq<char>>::empty()),
        split_pattern(parts.push(Seq::empty()), base) == split_pattern(parts, base),
        split_pattern(parts.push("."@), base) == split_pattern(parts, base),
        split_pattern(parts.push(name), base) == (
            split_pattern(parts, base).0,
            split_pattern(parts, base).1.push(name),
        ),
        split_pattern(seq![".."@], base) == (paths::below(base, ".."@), Seq::<Seq<char>>::empty()),
        split_pattern(parts, base).1.len() > 0 ==> split_pattern(parts.push(".."@), base) == (
            split_pattern(parts, base).0,
            split_pattern(parts, base).1.push(".."@),
        ),
{
    reveal_strlit(".");
    reveal_strlit("..");
    assert(parts.push(Seq::empty()).drop_last() =~= parts);
    assert(parts.push("."@).drop_last() =~= parts);
    assert(parts.push(name).drop_last() =~= parts);
    assert(parts.push(".."@).drop_last() =~= parts);
    assert(seq![".."@].drop_last() =~= Seq::empty());
    assert(".."@.len() == 2 && "."@.len() == 1);
    reveal_with_fuel(split_pattern, 2);
}

} // verus!
