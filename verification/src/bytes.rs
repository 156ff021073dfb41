//! Byte sequences: comparison and search.
use vstd::prelude::*;

verus! {

/// Whether `p` stands in `s` at position `i`.
pub open spec fn found_at(s: Seq<u8>, p: Seq<u8>, i: int) -> bool {
    0 <= i && i + p.len() <= s.len() && s.subrange(i, i + p.len()) == p
}

/// Whether `s` ends with `p`.
pub open spec fn tail_is(s: Seq<u8>, p: Seq<u8>) -> bool {
    p.len() <= s.len() && s.skip(s.len() - p.len()) == p
}

/// Whether `p` stands in `s` at position `at`.
pub fn matches_at(s: &[u8], p: &[u8], at: usize) -> (r: bool)
    requires
        at <= s@.len(),
    ensures
        r == found_at(s@, p@, at as int),
{
    if s.len() - at < p.len() {
        return false;
    }
    let mut i: usize = 0;
    while i < p.len()
        invariant
            at + p.len() <= s.len(),
            i <= p@.len(),
            forall|j: int| 0 <= j < i ==> s@[at + j] == p@[j],
        decreases p.len() - i,
    {
        if s[at + i] != p[i] {
            proof {
                assert(s@.subrange(at as int, at + p@.len())[i as int] != p@[i as int]);
            }
            return false;
        }
        i += 1;
    }
    proof {
        assert(s@.subrange(at as int, at + p@.len()) =~= p@);
    }
    true
}

/// Whether `s` ends with `p`.
pub fn ends_with(s: &[u8], p: &[u8]) -> (r: bool)
    ensures
        r == tail_is(s@, p@),
{
    if s.len() < p.len() {
        return false;
    }
    let at: usize = s.len() - p.len();
    proof {
        assert(s@.subrange(at as int, at + p@.len()) =~= s@.skip(at as int));
    }
    matches_at(s, p, at)
}

/// A copy of the bytes of `s` from `from` on.
pub fn tail(s: &[u8], from: usize) -> (out: Vec<u8>)
    requires
        from <= s@.len(),
    ensures
        out@ == s@.skip(from as int),
{
    copy(s, from, s.len())
}

/// A copy of the bytes of `s` between `from` and `to`.
pub fn copy(s: &[u8], from: usize, to: usize) -> (out: Vec<u8>)
    requires
        from <= to <= s@.len(),
    ensures
        out@ == s@.subrange(from as int, to as int),
{
    let mut out: Vec<u8> = Vec::new();
    let mut i: usize = from;
    while i < to
        invariant
            from <= i <= to <= s@.len(),
            out@ == s@.subrange(from as int, i as int),
        decreases to - i,
    {
        out.push(s[i]);
        i += 1;
    }
    out
}

/// Appends the bytes of `s` to `out`.
pub fn extend(out: &mut Vec<u8>, s: &[u8])
    ensures
        final(out)@ == old(out)@ + s@,
{
    let mut i: usize = 0;
    while i < s.len()
        invariant
            i <= s@.len(),
            out@ == old(out)@ + s@.take(i as int),
        decreases s.len() - i,
    {
        out.push(s[i]);
        i += 1;
        proof {
            assert(s@.take(i as int) =~= s@.take(i - 1).push(s@[i - 1]));
        }
    }
    proof {
        assert(s@.take(i as int) =~= s@);
    }
}

/// The first position at which `p` stands in `s`, if there is one.
pub open spec fn first_found(s: Seq<u8>, p: Seq<u8>) -> Option<int> {
    if exists|i: int| found_at(s, p, i) {
        Some(least_found(s, p, 0))
    } else {
        None
    }
}

/// The first position from `from` on at which `p` stands, or a position past which
/// it cannot.
pub open spec fn least_found(s: Seq<u8>, p: Seq<u8>, from: int) -> int
    decreases s.len() - from,
{
    if from >= s.len() || found_at(s, p, from) {
        from
    } else {
        least_found(s, p, from + 1)
    }
}

/// `least_found` is the least position at which `p` stands.
proof fn least_found_is(s: Seq<u8>, p: Seq<u8>, from: int, i: int)
    requires
        0 <= from <= i,
        found_at(s, p, i),
        forall|j: int| from <= j < i ==> !#[trigger] found_at(s, p, j),
    ensures
        least_found(s, p, from) == i,
    decreases i - from,
{
    if from < i {
        assert(!found_at(s, p, from));
        least_found_is(s, p, from + 1, i);
    }
}

/// A position with nothing before it is the first.
pub proof fn first_found_is(s: Seq<u8>, p: Seq<u8>, i: int)
    requires
        found_at(s, p, i),
        forall|j: int| 0 <= j < i ==> !#[trigger] found_at(s, p, j),
    ensures
        first_found(s, p) == Some(i),
{
    least_found_is(s, p, 0, i);
}

/// At the first position `p` stands, and at none before it.
pub proof fn first_found_least(s: Seq<u8>, p: Seq<u8>)
    ensures
        match first_found(s, p) {
            Some(i) => found_at(s, p, i) && forall|j: int|
                0 <= j < i ==> !#[trigger] found_at(s, p, j),
            None => forall|j: int| !#[trigger] found_at(s, p, j),
        },
{
    if exists|i: int| found_at(s, p, i) {
        let i = choose|i: int| found_at(s, p, i);
        lowest(s, p, i);
        let k = choose|k: int|
            #[trigger] found_at(s, p, k) && forall|j: int| 0 <= j < k ==> !#[trigger] found_at(s, p, j);
        first_found_is(s, p, k);
    }
}

proof fn lowest(s: Seq<u8>, p: Seq<u8>, i: int)
    requires
        found_at(s, p, i),
    ensures
        exists|k: int|
            #[trigger] found_at(s, p, k) && forall|j: int| 0 <= j < k ==> !#[trigger] found_at(s, p, j),
    decreases i,
{
    if exists|j: int| 0 <= j < i && #[trigger] found_at(s, p, j) {
        let j = choose|j: int| 0 <= j < i && #[trigger] found_at(s, p, j);
        lowest(s, p, j);
    } else {
        assert(found_at(s, p, i) && forall|j: int| 0 <= j < i ==> !#[trigger] found_at(s, p, j));
    }
}

/// The first position at which `p` stands in `s`.
pub fn find(s: &[u8], p: &[u8]) -> (r: Option<usize>)
    ensures
        match r {
            Some(i) => first_found(s@, p@) == Some(i as int) && i + p@.len() <= s@.len(),
            None => first_found(s@, p@) is None,
        },
{
    let mut i: usize = 0;
    loop
        invariant
            i <= s@.len(),
            forall|j: int| 0 <= j < i ==> !#[trigger] found_at(s@, p@, j),
        decreases s.len() - i,
    {
        if matches_at(s, p, i) {
            proof {
                first_found_is(s@, p@, i as int);
            }
            return Some(i);
        }
        if i == s.len() {
            proof {
                first_found_least(s@, p@);
            }
            return None;
        }
        i += 1;
    }
}

/// The first position of `b` in `s`, or the length.
pub open spec fn first_byte(s: Seq<u8>, b: u8) -> int
    decreases s.len(),
{
    if s.len() == 0 || s[0] == b {
        0
    } else {
        1 + first_byte(s.drop_first(), b)
    }
}

/// `first_byte` is the least position that holds `b`.
pub proof fn first_byte_is(s: Seq<u8>, b: u8, i: int)
    requires
        0 <= i <= s.len(),
        forall|j: int| 0 <= j < i ==> s[j] != b,
        i < s.len() ==> s[i] == b,
    ensures
        first_byte(s, b) == i,
    decreases s.len(),
{
    if s.len() > 0 && i > 0 {
        let t = s.drop_first();
        assert forall|j: int| 0 <= j < i - 1 implies t[j] != b by {
            assert(t[j] == s[j + 1]);
        }
        first_byte_is(t, b, i - 1);
    }
}

/// Where `first_byte` lies, and what stands before it.
pub proof fn first_byte_bounds(s: Seq<u8>, b: u8)
    ensures
        0 <= first_byte(s, b) <= s.len(),
        forall|j: int| 0 <= j < first_byte(s, b) ==> s[j] != b,
        first_byte(s, b) < s.len() ==> s[first_byte(s, b)] == b,
    decreases s.len(),
{
    if s.len() > 0 && s[0] != b {
        let t = s.drop_first();
        first_byte_bounds(t, b);
        assert forall|j: int| 0 <= j < first_byte(s, b) implies s[j] != b by {
            if j > 0 {
                assert(t[j - 1] == s[j]);
            }
        }
    }
}

/// The first position of `b` in `s`, or the length.
pub fn find_byte(s: &[u8], b: u8) -> (i: usize)
    ensures
        i == first_byte(s@, b),
        i <= s@.len(),
{
    let mut i: usize = 0;
    while i < s.len()
        invariant_except_break
            i <= s@.len(),
            forall|j: int| 0 <= j < i ==> s@[j] != b,
        ensures
            i <= s@.len(),
            forall|j: int| 0 <= j < i ==> s@[j] != b,
            i < s@.len() ==> s@[i as int] == b,
        decreases s.len() - i,
    {
        if s[i] == b {
            break;
        }
        i += 1;
    }
    proof {
        first_byte_is(s@, b, i as int);
    }
    i
}

/// A mark whose first byte does not come again in it is found behind a text that holds none.
pub proof fn first_found_behind(a: Seq<u8>, p: Seq<u8>, b: Seq<u8>)
    requires
        p.len() > 0,
        forall|k: int| 1 <= k < p.len() ==> #[trigger] p[k] != p[0],
        forall|j: int| !#[trigger] found_at(a, p, j),
    ensures
        first_found(a + p + b, p) == Some(a.len() as int),
{
    let s = a + p + b;
    let n = a.len() as int;
    let m = p.len() as int;
    assert(s.subrange(n, n + m) =~= p);
    assert forall|j: int| 0 <= j < n implies !#[trigger] found_at(s, p, j) by {
        if found_at(s, p, j) {
            let w = s.subrange(j, j + m);
            if j + m <= n {
                assert(a.subrange(j, j + m) =~= w);
                assert(found_at(a, p, j));
            } else {
                assert(w[n - j] == s[n]);
                assert(s[n] == p[0]);
                assert(p[n - j] != p[0]);
            }
        }
    }
    first_found_is(s, p, n);
}

} // verus!
