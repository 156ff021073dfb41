//! Paths as text, with `/` between their parts.
use crate::text;
use vstd::prelude::*;

verus! {

/// Whether a path begins at the root.
pub open spec fn absolute(p: Seq<char>) -> bool {
    p.len() > 0 && p[0] == '/'
}

/// `part` below `base`. An absolute part stands for itself.
pub open spec fn below(base: Seq<char>, part: Seq<char>) -> Seq<char> {
    if absolute(part) || base.len() == 0 {
        part
    } else if base.last() == '/' {
        base + part
    } else {
        base + "/"@ + part
    }
}

/// Whether a path begins at the root.
pub fn is_absolute(p: &str) -> (r: bool)
    ensures
        r == absolute(p@),
{
    let cs = text::chars_of(p);
    cs.len() > 0 && cs[0] == '/'
}

/// `part` below `base`.
pub fn join(base: &str, part: &str) -> (p: String)
    ensures
        p@ == below(base@, part@),
{
    if is_absolute(part) || base.is_empty() {
        return part.to_owned();
    }
    let cs = text::chars_of(base);
    let mut p = base.to_owned();
    if cs[cs.len() - 1] != '/' {
        p.append("/");
    }
    p.append(part);
    p
}

/// A path without the slashes and the `/.` that it ends in. The root stays.
pub open spec fn bare(p: Seq<char>) -> Seq<char>
    decreases p.len(),
{
    let n = p.len() as int;
    if n >= 2 && (p[n - 1] == '/' || (p[n - 1] == '.' && p[n - 2] == '/')) {
        bare(p.drop_last())
    } else {
        p
    }
}

/// The directory that a path is in: what stands before its last part. The root is in
/// itself.
pub open spec fn parent(p: Seq<char>) -> Seq<char> {
    let i = text::last_index(bare(p), '/');
    if i < 0 {
        Seq::empty()
    } else if i == 0 {
        "/"@
    } else {
        bare(bare(p).take(i))
    }
}

/// How much of a path is left without the slashes and the `/.` that it ends in.
fn bare_len(cs: &[char]) -> (n: usize)
    ensures
        n <= cs@.len(),
        bare(cs@) == cs@.take(n as int),
{
    let mut n: usize = cs.len();
    proof {
        assert(cs@.take(n as int) =~= cs@);
    }
    while n >= 2 && (cs[n - 1] == '/' || (cs[n - 1] == '.' && cs[n - 2] == '/'))
        invariant
            n <= cs@.len(),
            bare(cs@.take(n as int)) == bare(cs@),
        decreases n,
    {
        proof {
            assert(cs@.take(n as int).drop_last() =~= cs@.take(n - 1));
        }
        n -= 1;
    }
    n
}

/// The directory that a path is in.
pub fn parent_of(p: &str) -> (d: String)
    ensures
        d@ == parent(p@),
{
    let all = text::chars_of(p);
    let n: usize = bare_len(all.as_slice());
    let cs = vstd::slice::slice_subrange(all.as_slice(), 0, n);
    proof {
        assert(cs@ =~= bare(p@));
    }
    match text::rfind(cs, '/') {
        None => {
            let d = String::new();
            proof {
                assert(d@ =~= Seq::empty());
            }
            d
        },
        Some(i) => if i == 0 {
            "/".to_owned()
        } else {
            let before = vstd::slice::slice_subrange(cs, 0, i);
            let m: usize = bare_len(before);
            let d = text::string_of(vstd::slice::slice_subrange(before, 0, m));
            proof {
                assert(before@ =~= bare(p@).take(i as int));
                assert(d@ =~= bare(before@));
            }
            d
        },
    }
}

// ---------------------------------------------------------------------------
// Paths of a platform
// ---------------------------------------------------------------------------

/// The platform on which a path may begin with a drive or a share, and on which a
/// backslash stands between parts too.
pub const WINDOWS: &'static str = "windows";

/// A path of the platform `os` with slashes between its parts.
pub open spec fn slashed(p: Seq<char>, os: Seq<char>) -> Seq<char> {
    if os == WINDOWS@ {
        p.map_values(
            |c: char|
                if c == '\\' {
                    '/'
                } else {
                    c
                },
        )
    } else {
        p
    }
}

/// A path of the platform `os` with slashes between its parts.
pub fn with_slashes(p: &str, os: &str) -> (s: String)
    ensures
        s@ == slashed(p@, os@),
{
    if !text::same(os, WINDOWS) {
        return p.to_owned();
    }
    let cs = text::chars_of(p);
    let mut out: Vec<char> = Vec::new();
    let mut i: usize = 0;
    while i < cs.len()
        invariant
            cs@ == p@,
            i <= cs@.len(),
            os@ == WINDOWS@,
            out@ == slashed(p@, os@).take(i as int),
        decreases cs.len() - i,
    {
        out.push(
            if cs[i] == '\\' {
                '/'
            } else {
                cs[i]
            },
        );
        i += 1;
        proof {
            assert(out@ =~= slashed(p@, os@).take(i as int));
        }
    }
    proof {
        assert(out@ =~= slashed(p@, os@));
    }
    text::string_of(out.as_slice())
}

/// Whether a path with slashes begins with a drive, `C:`.
pub open spec fn has_drive(p: Seq<char>, os: Seq<char>) -> bool {
    os == WINDOWS@ && p.len() >= 2 && ('a' <= p[0] <= 'z' || 'A' <= p[0] <= 'Z') && p[1] == ':'
}

/// Whether a path with slashes begins with a share, `//server/share`.
pub open spec fn has_share(p: Seq<char>, os: Seq<char>) -> bool {
    os == WINDOWS@ && p.len() >= 2 && p[0] == '/' && p[1] == '/'
}

/// How much of a path with slashes is the drive or the share that it begins with.
pub open spec fn prefix_len(p: Seq<char>, os: Seq<char>) -> int {
    if has_drive(p, os) {
        2
    } else if has_share(p, os) {
        let i = 2 + text::first_index(p.skip(2), '/');
        if i >= p.len() {
            p.len() as int
        } else {
            i + 1 + text::first_index(p.skip(i + 1), '/')
        }
    } else {
        0
    }
}

/// The prefix is a part of the path.
pub proof fn prefix_bounds(p: Seq<char>, os: Seq<char>)
    ensures
        0 <= prefix_len(p, os) <= p.len(),
{
    if has_share(p, os) {
        text::first_index_bounds(p.skip(2), '/');
        let i = 2 + text::first_index(p.skip(2), '/');
        if i < p.len() {
            text::first_index_bounds(p.skip(i + 1), '/');
        }
    }
}

/// How much of a path with slashes is the drive or the share that it begins with.
pub fn prefix_of(p: &[char], os: &str) -> (k: usize)
    ensures
        k == prefix_len(p@, os@),
        k <= p@.len(),
{
    proof {
        prefix_bounds(p@, os@);
    }
    if !text::same(os, WINDOWS) || p.len() < 2 {
        return 0;
    }
    let c = p[0];
    if (('a' <= c && c <= 'z') || ('A' <= c && c <= 'Z')) && p[1] == ':' {
        return 2;
    }
    if c != '/' || p[1] != '/' {
        return 0;
    }
    let i: usize = text::find_from(p, '/', 2);
    if i >= p.len() {
        return p.len();
    }
    text::find_from(p, '/', i + 1)
}

/// Whether a path with slashes says where it begins, on the platform `os`.
pub open spec fn absolute_on(p: Seq<char>, os: Seq<char>) -> bool {
    if os == WINDOWS@ {
        has_share(p, os) || (has_drive(p, os) && p.len() > 2 && p[2] == '/')
    } else {
        absolute(p)
    }
}

/// Whether a path with slashes says where it begins, on the platform `os`.
pub fn is_absolute_on(p: &str, os: &str) -> (r: bool)
    ensures
        r == absolute_on(p@, os@),
{
    if !text::same(os, WINDOWS) {
        return is_absolute(p);
    }
    let cs = text::chars_of(p);
    if cs.len() < 2 {
        return false;
    }
    let c = cs[0];
    (c == '/' && cs[1] == '/') || ((('a' <= c && c <= 'z') || ('A' <= c && c <= 'Z')) && cs[1]
        == ':' && cs.len() > 2 && cs[2] == '/')
}

/// `part` below `base`, on the platform `os`. A part with a drive or a share stands for
/// itself, and one that begins at the root keeps the drive or share of the base.
pub open spec fn below_on(base: Seq<char>, part: Seq<char>, os: Seq<char>) -> Seq<char> {
    if prefix_len(part, os) == 0 && absolute(part) {
        base.take(prefix_len(base, os)) + part
    } else if prefix_len(part, os) > 0 {
        part
    } else {
        below(base, part)
    }
}

/// `part` below `base`, on the platform `os`.
pub fn join_on(base: &str, part: &str, os: &str) -> (p: String)
    ensures
        p@ == below_on(base@, part@, os@),
{
    let cs = text::chars_of(part);
    if prefix_of(cs.as_slice(), os) > 0 {
        return part.to_owned();
    }
    if !is_absolute(part) {
        return join(base, part);
    }
    let bs = text::chars_of(base);
    let k: usize = prefix_of(bs.as_slice(), os);
    let mut p = text::string_of(vstd::slice::slice_subrange(bs.as_slice(), 0, k));
    proof {
        assert(p@ =~= base@.take(k as int));
    }
    p.append(part);
    p
}

/// The directory that a path with slashes is in, on the platform `os`. The drive or the
/// share stays.
pub open spec fn parent_on(p: Seq<char>, os: Seq<char>) -> Seq<char> {
    p.take(prefix_len(p, os)) + parent(p.skip(prefix_len(p, os)))
}

/// The directory that a path with slashes is in, on the platform `os`.
pub fn parent_of_on(p: &str, os: &str) -> (d: String)
    ensures
        d@ == parent_on(p@, os@),
{
    let cs = text::chars_of(p);
    let n: usize = cs.len();
    let k: usize = prefix_of(cs.as_slice(), os);
    let mut d = text::string_of(vstd::slice::slice_subrange(cs.as_slice(), 0, k));
    let rest = text::string_of(vstd::slice::slice_subrange(cs.as_slice(), k, n));
    proof {
        assert(d@ =~= p@.take(k as int));
        assert(rest@ =~= p@.skip(k as int));
    }
    d.append(parent_of(rest.as_str()).as_str());
    d
}

/// More parts leave the drive or the share as it is, where something stands behind it.
pub proof fn prefix_is_stable(p: Seq<char>, more: Seq<char>, os: Seq<char>)
    requires
        p.len() > 1 || (more.len() > 0 && p.len() == 1 && p[0] != '/' && more[0] != ':'),
        prefix_len(p, os) < p.len(),
    ensures
        prefix_len(p + more, os) == prefix_len(p, os),
{
    let all = p + more;
    if p.len() > 1 {
        assert(all[0] == p[0] && all[1] == p[1]);
        if has_share(p, os) {
            let a = p.skip(2);
            text::first_index_bounds(a, '/');
            let i = 2 + text::first_index(a, '/');
            let b = p.skip(i + 1);
            text::first_index_bounds(b, '/');
            let m = text::first_index(b, '/');
            let a2 = all.skip(2);
            assert(a2 =~= a + more);
            assert forall|j: int| 0 <= j < i - 2 implies a2[j] != '/' by {
                assert(a2[j] == a[j]);
            }
            assert(a2[i - 2] == a[i - 2]);
            text::first_index_is(a2, '/', i - 2);
            let b2 = all.skip(i + 1);
            assert(b2 =~= b + more);
            assert forall|j: int| 0 <= j < m implies b2[j] != '/' by {
                assert(b2[j] == b[j]);
            }
            assert(b2[m] == b[m]);
            text::first_index_is(b2, '/', m);
        }
    } else {
        assert(all[0] == p[0] && all[1] == more[0]);
    }
}

// ---------------------------------------------------------------------------
// Laws
// ---------------------------------------------------------------------------

/// A part stands behind its directory with one slash between them; an absolute part stands
/// for itself, and so does one below no directory.
pub proof fn part_stands_behind_its_directory(dir: Seq<char>, part: Seq<char>)
    ensures
        part.len() > 0 && part[0] == '/' ==> below(dir, part) == part,
        dir.len() == 0 ==> below(dir, part) == part,
        !(part.len() > 0 && part[0] == '/') && dir.len() > 0 && dir.last() != '/' ==> below(
            dir,
            part,
        ) == dir + seq!['/'] + part,
        !(part.len() > 0 && part[0] == '/') && dir.len() > 0 && dir.last() == '/' ==> below(
            dir,
            part,
        ) == dir + part,
{
    reveal_strlit("/");
    assert("/"@ =~= seq!['/']);
}

/// A file below a directory is in that directory.
pub proof fn file_is_in_its_directory(dir: Seq<char>, name: Seq<char>)
    requires
        dir.len() > 0,
        dir.last() != '/',
        !(dir.len() > 1 && dir.last() == '.' && dir[dir.len() - 2] == '/'),
        name.len() > 0,
        !name.contains('/'),
        name != seq!['.'],
    ensures
        parent(dir + seq!['/'] + name) == dir,
        parent(seq!['/'] + name) == seq!['/'],
        parent(name) == Seq::<char>::empty(),
{
    reveal_strlit("/");
    assert("/"@ =~= seq!['/']);
    let p = dir + seq!['/'] + name;
    let r = seq!['/'] + name;
    name_is_bare(dir + seq!['/'], name);
    name_is_bare(seq!['/'], name);
    name_is_bare(Seq::empty(), name);
    assert(dir + seq!['/'] + name =~= p);
    assert(Seq::<char>::empty() + name =~= name);
    assert forall|j: int| dir.len() < j < p.len() implies p[j] != '/' by {
        assert(name.contains(name[j - dir.len() - 1]));
    }
    text::last_index_is(p, '/', dir.len() as int);
    assert(p.take(dir.len() as int) =~= dir);
    assert(bare(dir) == dir);
    assert forall|j: int| 0 < j < r.len() implies r[j] != '/' by {
        assert(name.contains(name[j - 1]));
    }
    text::last_index_is(r, '/', 0);
    no_slash(name);
}

proof fn name_is_bare(front: Seq<char>, name: Seq<char>)
    requires
        name.len() > 0,
        !name.contains('/'),
        name != seq!['.'],
    ensures
        bare(front + name) == front + name,
{
    let p = front + name;
    let n = p.len() as int;
    assert(p[n - 1] == name[name.len() - 1]);
    assert(name.contains(name[name.len() - 1]));
    if name.len() >= 2 {
        assert(p[n - 2] == name[name.len() - 2]);
        assert(name.contains(name[name.len() - 2]));
    } else if name[0] == '.' {
        assert(name =~= seq!['.']);
    }
}

proof fn no_slash(name: Seq<char>)
    requires
        !name.contains('/'),
    ensures
        text::last_index(name, '/') < 0,
    decreases name.len(),
{
    if name.len() > 0 {
        let t = name.drop_last();
        assert(name.contains(name[name.len() - 1]));
        assert(!t.contains('/')) by {
            if t.contains('/') {
                let k = choose|k: int| 0 <= k < t.len() && t[k] == '/';
                assert(name[k] == '/');
            }
        }
        no_slash(t);
    }
}

/// Slashes at the end of a path do not count, nor does a dot behind one.
pub proof fn ends_do_not_count(p: Seq<char>)
    requires
        p.len() > 0,
    ensures
        parent(p + seq!['/']) == parent(p),
        parent(p + seq!['/', '.']) == parent(p),
{
    let a = p + seq!['/'];
    let b = p + seq!['/', '.'];
    assert(a.drop_last() =~= p);
    assert(b.drop_last() =~= a);
}

/// Only on Windows is a backslash a slash.
pub proof fn backslashes_are_slashes_on_windows(p: Seq<char>, os: Seq<char>, i: int)
    requires
        0 <= i < p.len(),
    ensures
        os != "windows"@ ==> slashed(p, os) == p,
        slashed(p, "windows"@).len() == p.len(),
        slashed(p, "windows"@)[i] == if p[i] == '\\' {
            '/'
        } else {
            p[i]
        },
{
}

/// A path says where it begins with a slash; on Windows with a drive and a slash, or with a
/// share.
pub proof fn absolute_paths_say_where_they_begin(p: Seq<char>, os: Seq<char>)
    ensures
        os != "windows"@ ==> (absolute_on(p, os) <==> p.len() > 0 && p[0] == '/'),
        absolute_on(p, "windows"@) <==> (p.len() >= 2 && p[0] == '/' && p[1] == '/') || (p.len() >= 3
            && ('a' <= p[0] <= 'z' || 'A' <= p[0] <= 'Z') && p[1] == ':' && p[2] == '/'),
{
}

/// Off Windows no path begins with a drive or a share, so that a part is put below a base and
/// a parent is taken as they stand.
pub proof fn drives_are_for_windows(base: Seq<char>, part: Seq<char>, os: Seq<char>)
    requires
        os != "windows"@,
    ensures
        prefix_len(base, os) == 0,
        below_on(base, part, os) == below(base, part),
        parent_on(base, os) == parent(base),
{
    assert(base.take(0) + part =~= part);
    assert(base.skip(0) =~= base);
    assert(base.take(0) + parent(base) =~= parent(base));
}

/// On Windows a part with a drive of its own stands for itself, one that begins with a slash
/// keeps the drive of the base, and any other stands below the base.
pub proof fn drives_are_kept(drive: char, rest: Seq<char>, part: Seq<char>)
    requires
        'a' <= drive <= 'z' || 'A' <= drive <= 'Z',
        part.len() > 0,
        part[0] != '/',
        part.len() > 1 ==> part[1] != ':',
    ensures
        ({
            let base = seq![drive, ':'] + rest;
            let other = seq![drive, ':', '/'] + part;
            &&& prefix_len(base, "windows"@) == 2
            &&& below_on(base, other, "windows"@) == other
            &&& below_on(base, seq!['/'] + part, "windows"@) == seq![drive, ':'] + seq!['/'] + part
            &&& below_on(base, part, "windows"@) == below(base, part)
        }),
{
    let base = seq![drive, ':'] + rest;
    let other = seq![drive, ':', '/'] + part;
    let rooted = seq!['/'] + part;
    assert(base[0] == drive && base[1] == ':');
    assert(other[0] == drive && other[1] == ':');
    assert(rooted[1] == part[0]);
    assert(base.take(2) =~= seq![drive, ':']);
    assert(base.take(2) + rooted =~= seq![drive, ':'] + seq!['/'] + part);
}

} // verus!
