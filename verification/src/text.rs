//! Text on its characters: what trimming, splitting, searching and number
//! reading mean on a sequence of characters, and functions that compute them.
//!
//! Every contract of the library that speaks of a string speaks of its view,
//! `Seq<char>`, through the spec functions of this module.
use vstd::prelude::*;
use vstd::slice::slice_subrange;

verus! {

// ---------------------------------------------------------------------------
// What is trusted of the standard library
// ---------------------------------------------------------------------------

/// `String::push` appends one character at the end.
pub assume_specification[ String::push ](s: &mut String, c: char)
    ensures
        final(s)@ == old(s)@.push(c),
;

/// What `str::to_lowercase` returns. Full Unicode lower-casing is a table of
/// the standard library, so only its name stands here.
pub uninterp spec fn lowercase(s: Seq<char>) -> Seq<char>;

/// `str::to_lowercase`: the result is a function of the text alone.
#[verifier::external_body]
pub(crate) fn to_lowercase(s: &str) -> (out: String)
    ensures
        out@ == lowercase(s@),
{
    s.to_lowercase()
}

/// What `String::from_utf8_lossy` reads out of bytes. Where the bytes are
/// UTF-8 it is their text; elsewhere replacement characters stand in it.
pub uninterp spec fn utf8_lossy(bytes: Seq<u8>) -> Seq<char>;

/// `String::from_utf8_lossy`, owned: the result is a function of the bytes
/// alone, and valid UTF-8 is read back as the text it encodes.
#[verifier::external_body]
pub(crate) fn from_utf8_lossy(bytes: &[u8]) -> (out: String)
    ensures
        out@ == utf8_lossy(bytes@),
        vstd::utf8::valid_utf8(bytes@) ==> out@ == vstd::utf8::decode_utf8(bytes@),
{
    String::from_utf8_lossy(bytes).into_owned()
}

/// `std::str::from_utf8`, owned: succeeds exactly on valid UTF-8, with the text
/// that the bytes encode.
#[verifier::external_body]
pub(crate) fn from_utf8(bytes: &[u8]) -> (out: Option<String>)
    ensures
        out is Some <==> vstd::utf8::valid_utf8(bytes@),
        out matches Some(s) ==> s@ == vstd::utf8::decode_utf8(bytes@),
{
    match std::str::from_utf8(bytes) {
        Ok(s) => Some(s.to_owned()),
        Err(_) => None,
    }
}

/// What `{:?}` prints for a string: the text between double quotes, with the
/// escapes of `str`'s `Debug`.
pub uninterp spec fn debug_quoted(s: Seq<char>) -> Seq<char>;

/// `<str as Debug>::fmt` through `format!`: a function of the text alone.
#[verifier::external_body]
pub(crate) fn to_debug_quoted(s: &str) -> (out: String)
    ensures
        out@ == debug_quoted(s@),
{
    format!("{:?}", s)
}

// ---------------------------------------------------------------------------
// Views of collections of strings
// ---------------------------------------------------------------------------

/// The texts of a sequence of strings.
pub open spec fn texts(v: Seq<String>) -> Seq<Seq<char>> {
    v.map_values(|s: String| s@)
}

/// The text of an optional string.
pub open spec fn opt_text(o: Option<String>) -> Option<Seq<char>> {
    match o {
        Some(s) => Some(s@),
        None => None,
    }
}

/// The text of an optional borrowed string.
pub open spec fn opt_str(o: Option<&str>) -> Option<Seq<char>> {
    match o {
        Some(s) => Some(s@),
        None => None,
    }
}

/// The texts of a vector with one more string.
pub proof fn texts_push(v: Seq<String>, s: String)
    ensures
        texts(v.push(s)) == texts(v).push(s@),
{
    assert(texts(v.push(s)) =~= texts(v).push(s@));
}

/// `v` without the texts that equal `k`.
pub open spec fn without(v: Seq<Seq<char>>, k: Seq<char>) -> Seq<Seq<char>>
    decreases v.len(),
{
    if v.len() == 0 {
        v
    } else if v.last() == k {
        without(v.drop_last(), k)
    } else {
        without(v.drop_last(), k).push(v.last())
    }
}

/// Taking a text out of a sum.
pub proof fn without_of_sum(a: Seq<Seq<char>>, b: Seq<Seq<char>>, k: Seq<char>)
    ensures
        without(a + b, k) == without(a, k) + without(b, k),
    decreases b.len(),
{
    if b.len() == 0 {
        assert(a + b =~= a);
        assert(without(a, k) + without(b, k) =~= without(a, k));
    } else {
        assert((a + b).drop_last() =~= a + b.drop_last());
        without_of_sum(a, b.drop_last(), k);
        assert(without(a + b, k) =~= without(a, k) + without(b, k));
    }
}

/// Taking out what is not there.
pub proof fn without_absent(v: Seq<Seq<char>>, k: Seq<char>)
    requires
        forall|i: int| 0 <= i < v.len() ==> #[trigger] v[i] != k,
    ensures
        without(v, k) == v,
    decreases v.len(),
{
    if v.len() > 0 {
        assert forall|i: int| 0 <= i < v.drop_last().len() implies #[trigger] v.drop_last()[i]
            != k by {
            assert(v.drop_last()[i] == v[i]);
        }
        assert(v[v.len() - 1] != k);
        without_absent(v.drop_last(), k);
        assert(without(v, k) =~= v);
    }
}

// ---------------------------------------------------------------------------
// Characters and strings
// ---------------------------------------------------------------------------

/// The characters of `s`, in order.
pub fn chars_of(s: &str) -> (out: Vec<char>)
    ensures
        out@ == s@,
{
    let mut out: Vec<char> = Vec::new();
    for c in it: s.chars()
        invariant
            out@ == it.seq().take(it.index()),
            it.seq() == s@,
    {
        out.push(c);
    }
    out
}

/// The string holding exactly `cs`.
pub fn string_of(cs: &[char]) -> (out: String)
    ensures
        out@ == cs@,
{
    let mut out = String::new();
    let mut i: usize = 0;
    while i < cs.len()
        invariant
            i <= cs@.len(),
            out@ == cs@.take(i as int),
        decreases cs.len() - i,
    {
        out.push(cs[i]);
        i += 1;
    }
    out
}

/// Whether two character slices hold the same characters.
pub fn same_chars(a: &[char], b: &[char]) -> (r: bool)
    ensures
        r == (a@ == b@),
{
    if a.len() != b.len() {
        return false;
    }
    let mut i: usize = 0;
    while i < a.len()
        invariant
            a@.len() == b@.len(),
            i <= a@.len(),
            a@.take(i as int) == b@.take(i as int),
        decreases a.len() - i,
    {
        if a[i] != b[i] {
            proof {
                assert(a@[i as int] != b@[i as int]);
            }
            return false;
        }
        proof {
            assert(a@.take(i + 1) =~= a@.take(i as int).push(a@[i as int]));
            assert(b@.take(i + 1) =~= b@.take(i as int).push(b@[i as int]));
        }
        i += 1;
    }
    proof {
        assert(a@.take(i as int) =~= a@);
        assert(b@.take(i as int) =~= b@);
    }
    true
}

/// Whether two strings hold the same text.
pub fn same(a: &str, b: &str) -> (r: bool)
    ensures
        r == (a@ == b@),
{
    same_chars(chars_of(a).as_slice(), chars_of(b).as_slice())
}

/// Whether `v` holds a string with the text of `s`.
pub fn has_text(v: &Vec<String>, s: &str) -> (r: bool)
    ensures
        r == texts(v@).contains(s@),
{
    let mut i: usize = 0;
    while i < v.len()
        invariant
            i <= v@.len(),
            forall|j: int| 0 <= j < i ==> v@[j]@ != s@,
        decreases v.len() - i,
    {
        if same(v[i].as_str(), s) {
            proof {
                assert(texts(v@)[i as int] == s@);
            }
            return true;
        }
        i += 1;
    }
    proof {
        assert forall|j: int| 0 <= j < texts(v@).len() implies texts(v@)[j] != s@ by {
            assert(texts(v@)[j] == v@[j]@);
        }
    }
    false
}

/// A copy of `v` holding the same texts.
pub fn clone_texts(v: &Vec<String>) -> (out: Vec<String>)
    ensures
        texts(out@) == texts(v@),
{
    let mut out: Vec<String> = Vec::new();
    let mut i: usize = 0;
    while i < v.len()
        invariant
            i <= v@.len(),
            texts(out@) == texts(v@).take(i as int),
        decreases v.len() - i,
    {
        let ghost before = out@;
        out.push(v[i].clone());
        proof {
            texts_push(before, out@.last());
            assert(texts(v@).take(i + 1) =~= texts(v@).take(i as int).push(v@[i as int]@));
        }
        i += 1;
    }
    proof {
        assert(texts(v@).take(i as int) =~= texts(v@));
    }
    out
}

// ---------------------------------------------------------------------------
// Prefixes, suffixes and search
// ---------------------------------------------------------------------------

/// Whether `s` begins with `p`.
pub open spec fn begins(s: Seq<char>, p: Seq<char>) -> bool {
    p.len() <= s.len() && s.take(p.len() as int) == p
}

/// Whether `s` ends with `p`.
pub open spec fn ends(s: Seq<char>, p: Seq<char>) -> bool {
    p.len() <= s.len() && s.skip(s.len() - p.len()) == p
}

/// Whether `p` stands in `s` at position `i`.
pub open spec fn stands_at(s: Seq<char>, p: Seq<char>, i: int) -> bool {
    0 <= i && i + p.len() <= s.len() && s.subrange(i, i + p.len()) == p
}

/// Whether `p` stands somewhere in `s`.
pub open spec fn holds(s: Seq<char>, p: Seq<char>) -> bool {
    exists|i: int| stands_at(s, p, i)
}

/// The first position of `c` in `s`, or `s.len()` where there is none.
pub open spec fn first_index(s: Seq<char>, c: char) -> int
    decreases s.len(),
{
    if s.len() == 0 || s[0] == c {
        0
    } else {
        1 + first_index(s.drop_first(), c)
    }
}

/// `first_index` is the least position that holds `c`.
pub proof fn first_index_is(s: Seq<char>, c: char, i: int)
    requires
        0 <= i <= s.len(),
        forall|j: int| 0 <= j < i ==> s[j] != c,
        i < s.len() ==> s[i] == c,
    ensures
        first_index(s, c) == i,
    decreases s.len(),
{
    if s.len() > 0 && i > 0 {
        let t = s.drop_first();
        assert forall|j: int| 0 <= j < i - 1 implies t[j] != c by {
            assert(t[j] == s[j + 1]);
        }
        first_index_is(t, c, i - 1);
    }
}

/// Where `first_index` lies, and what stands before it.
pub proof fn first_index_bounds(s: Seq<char>, c: char)
    ensures
        0 <= first_index(s, c) <= s.len(),
        forall|j: int| 0 <= j < first_index(s, c) ==> s[j] != c,
        first_index(s, c) < s.len() ==> s[first_index(s, c)] == c,
    decreases s.len(),
{
    if s.len() > 0 && s[0] != c {
        let t = s.drop_first();
        first_index_bounds(t, c);
        assert forall|j: int| 0 <= j < first_index(s, c) implies s[j] != c by {
            if j > 0 {
                assert(t[j - 1] == s[j]);
            }
        }
    }
}

/// The first position of `c` at or after `from`, or the length.
pub fn find_from(cs: &[char], c: char, from: usize) -> (i: usize)
    requires
        from <= cs@.len(),
    ensures
        from <= i <= cs@.len(),
        i == from + first_index(cs@.skip(from as int), c),
        i < cs@.len() ==> cs@[i as int] == c,
        forall|j: int| from <= j < i ==> cs@[j] != c,
{
    let mut i: usize = from;
    while i < cs.len()
        invariant_except_break
            from <= i <= cs@.len(),
            forall|j: int| from <= j < i ==> cs@[j] != c,
        ensures
            from <= i <= cs@.len(),
            forall|j: int| from <= j < i ==> cs@[j] != c,
            i < cs@.len() ==> cs@[i as int] == c,
        decreases cs.len() - i,
    {
        if cs[i] == c {
            break;
        }
        i += 1;
    }
    proof {
        first_index_is(cs@.skip(from as int), c, i - from);
    }
    i
}

/// Whether the characters of `cs` from `at` on begin with `p`.
pub fn stands(cs: &[char], p: &[char], at: usize) -> (r: bool)
    requires
        at <= cs@.len(),
    ensures
        r == stands_at(cs@, p@, at as int),
{
    if cs.len() - at < p.len() {
        return false;
    }
    same_chars(slice_subrange(cs, at, at + p.len()), p)
}

/// Whether `s` begins with `p`.
pub fn starts_with(s: &str, p: &str) -> (r: bool)
    ensures
        r == begins(s@, p@),
{
    let cs = chars_of(s);
    let ps = chars_of(p);
    proof {
        if p@.len() <= s@.len() {
            assert(s@.subrange(0, p@.len() as int) =~= s@.take(p@.len() as int));
        }
    }
    stands(cs.as_slice(), ps.as_slice(), 0)
}

/// Whether `s` ends with `p`.
pub fn ends_with(s: &str, p: &str) -> (r: bool)
    ensures
        r == ends(s@, p@),
{
    let cs = chars_of(s);
    let ps = chars_of(p);
    if cs.len() < ps.len() {
        return false;
    }
    let at: usize = cs.len() - ps.len();
    proof {
        assert(s@.subrange(at as int, at + p@.len()) =~= s@.skip(at as int));
    }
    stands(cs.as_slice(), ps.as_slice(), at)
}

/// The first position at which `p` stands in `s`, if there is one.
pub open spec fn first_match(s: Seq<char>, p: Seq<char>) -> Option<int>
    decreases s.len(),
{
    if begins(s, p) {
        Some(0)
    } else if s.len() == 0 {
        None
    } else {
        match first_match(s.drop_first(), p) {
            Some(i) => Some(i + 1),
            None => None,
        }
    }
}

/// `first_match` is the least position at which `p` stands.
pub proof fn first_match_least(s: Seq<char>, p: Seq<char>)
    ensures
        match first_match(s, p) {
            Some(i) => stands_at(s, p, i) && forall|j: int|
                0 <= j < i ==> !#[trigger] stands_at(s, p, j),
            None => forall|j: int| !#[trigger] stands_at(s, p, j),
        },
    decreases s.len(),
{
    if begins(s, p) {
        assert(s.subrange(0, p.len() as int) =~= s.take(p.len() as int));
        assert(stands_at(s, p, 0));
    } else {
        assert(!stands_at(s, p, 0)) by {
            if p.len() <= s.len() {
                assert(s.subrange(0, p.len() as int) =~= s.take(p.len() as int));
            }
        }
        if s.len() > 0 {
            let t = s.drop_first();
            first_match_least(t, p);
            assert forall|k: int| 0 <= k implies stands_at(s, p, k + 1) == #[trigger] stands_at(
                t,
                p,
                k,
            ) by {
                if k + 1 + p.len() <= s.len() {
                    assert(s.subrange(k + 1, k + 1 + p.len()) =~= t.subrange(k, k + p.len()));
                }
            }
            match first_match(t, p) {
                Some(i) => {
                    assert(stands_at(t, p, i));
                    assert(stands_at(s, p, i + 1));
                    assert forall|j: int| 0 <= j < i + 1 implies !#[trigger] stands_at(s, p, j) by {
                        if j > 0 {
                            assert(!stands_at(t, p, j - 1));
                        }
                    }
                },
                None => {
                    assert forall|j: int| !#[trigger] stands_at(s, p, j) by {
                        if j > 0 {
                            assert(!stands_at(t, p, j - 1));
                        }
                    }
                },
            }
        }
    }
}

/// A position with nothing before it is what `first_match` names.
pub proof fn first_match_is(s: Seq<char>, p: Seq<char>, i: int)
    requires
        stands_at(s, p, i),
        forall|j: int| 0 <= j < i ==> !#[trigger] stands_at(s, p, j),
    ensures
        first_match(s, p) == Some(i),
{
    first_match_least(s, p);
    match first_match(s, p) {
        Some(k) => {
            if k < i {
                assert(!stands_at(s, p, k));
            }
        },
        None => {},
    }
}

/// The first position at which `p` stands in `cs`.
pub fn find_chars(cs: &[char], p: &[char]) -> (r: Option<usize>)
    ensures
        match r {
            Some(i) => first_match(cs@, p@) == Some(i as int) && i + p@.len() <= cs@.len(),
            None => first_match(cs@, p@) is None,
        },
{
    let mut i: usize = 0;
    loop
        invariant
            i <= cs@.len(),
            forall|j: int| 0 <= j < i ==> !#[trigger] stands_at(cs@, p@, j),
        decreases cs.len() - i,
    {
        if stands(cs, p, i) {
            proof {
                first_match_is(cs@, p@, i as int);
            }
            return Some(i);
        }
        if i == cs.len() {
            proof {
                first_match_least(cs@, p@);
            }
            return None;
        }
        i += 1;
    }
}

/// Whether `p` stands somewhere in `s`.
pub fn contains(s: &str, p: &str) -> (r: bool)
    ensures
        r == holds(s@, p@),
{
    let cs = chars_of(s);
    let ps = chars_of(p);
    proof {
        first_match_least(s@, p@);
        if let Some(i) = first_match(s@, p@) {
            assert(stands_at(s@, p@, i));
        }
    }
    find_chars(cs.as_slice(), ps.as_slice()).is_some()
}

/// Whether `c` stands somewhere in `s`.
pub fn contains_char(s: &str, c: char) -> (r: bool)
    ensures
        r == s@.contains(c),
{
    let cs = chars_of(s);
    let i = find_from(cs.as_slice(), c, 0);
    proof {
        if i < cs@.len() {
            assert(s@[i as int] == c);
        }
    }
    i < cs.len()
}

/// What follows the prefix `p`, where `s` begins with it.
pub open spec fn after_prefix(s: Seq<char>, p: Seq<char>) -> Option<Seq<char>> {
    if begins(s, p) {
        Some(s.skip(p.len() as int))
    } else {
        None
    }
}

/// What stands before the suffix `p`, where `s` ends with it.
pub open spec fn before_suffix(s: Seq<char>, p: Seq<char>) -> Option<Seq<char>> {
    if ends(s, p) {
        Some(s.take(s.len() - p.len()))
    } else {
        None
    }
}

/// What follows the prefix `p`, where `s` begins with it.
pub fn strip_prefix(s: &str, p: &str) -> (r: Option<String>)
    ensures
        opt_text(r) == after_prefix(s@, p@),
{
    if starts_with(s, p) {
        let cs = chars_of(s);
        let n: usize = chars_of(p).len();
        let out = string_of(slice_subrange(cs.as_slice(), n, cs.len()));
        proof {
            assert(out@ =~= s@.skip(n as int));
        }
        Some(out)
    } else {
        None
    }
}

/// What stands before the suffix `p`, where `s` ends with it.
pub fn strip_suffix(s: &str, p: &str) -> (r: Option<String>)
    ensures
        opt_text(r) == before_suffix(s@, p@),
{
    if ends_with(s, p) {
        let cs = chars_of(s);
        let n: usize = cs.len() - chars_of(p).len();
        let out = string_of(slice_subrange(cs.as_slice(), 0, n));
        proof {
            assert(out@ =~= s@.take(n as int));
        }
        Some(out)
    } else {
        None
    }
}

/// The text before and after the first `p` in `s`, where there is one.
pub open spec fn cut(s: Seq<char>, p: Seq<char>) -> Option<(Seq<char>, Seq<char>)> {
    match first_match(s, p) {
        Some(i) => Some((s.take(i), s.skip(i + p.len()))),
        None => None,
    }
}

/// The text before and after the first `p` in `s`, where there is one.
pub fn split_once(s: &str, p: &str) -> (r: Option<(String, String)>)
    ensures
        match r {
            Some((a, b)) => cut(s@, p@) == Some((a@, b@)),
            None => cut(s@, p@) is None,
        },
{
    let cs = chars_of(s);
    let ps = chars_of(p);
    let n: usize = cs.len();
    match find_chars(cs.as_slice(), ps.as_slice()) {
        Some(i) => {
            let a = string_of(slice_subrange(cs.as_slice(), 0, i));
            let b = string_of(slice_subrange(cs.as_slice(), i + ps.len(), n));
            proof {
                assert(a@ =~= s@.take(i as int));
                assert(b@ =~= s@.skip(i + p@.len()));
            }
            Some((a, b))
        },
        None => None,
    }
}

// ---------------------------------------------------------------------------
// White space
// ---------------------------------------------------------------------------

/// The characters with the Unicode property White_Space.
pub open spec fn is_space(c: char) -> bool {
    ||| '\u{9}' <= c <= '\u{d}'
    ||| c == ' '
    ||| c == '\u{85}'
    ||| c == '\u{a0}'
    ||| c == '\u{1680}'
    ||| '\u{2000}' <= c <= '\u{200a}'
    ||| c == '\u{2028}'
    ||| c == '\u{2029}'
    ||| c == '\u{202f}'
    ||| c == '\u{205f}'
    ||| c == '\u{3000}'
}

/// Whether `c` is white space.
pub fn space(c: char) -> (r: bool)
    ensures
        r == is_space(c),
{
    ('\u{9}' <= c && c <= '\u{d}') || c == ' ' || c == '\u{85}' || c == '\u{a0}' || c == '\u{1680}'
        || ('\u{2000}' <= c && c <= '\u{200a}') || c == '\u{2028}' || c == '\u{2029}' || c
        == '\u{202f}' || c == '\u{205f}' || c == '\u{3000}'
}

/// `s` without the white space it begins with.
pub open spec fn trim_left(s: Seq<char>) -> Seq<char>
    decreases s.len(),
{
    if s.len() > 0 && is_space(s[0]) {
        trim_left(s.drop_first())
    } else {
        s
    }
}

/// `s` without the white space it ends with.
pub open spec fn trim_right(s: Seq<char>) -> Seq<char>
    decreases s.len(),
{
    if s.len() > 0 && is_space(s.last()) {
        trim_right(s.drop_last())
    } else {
        s
    }
}

/// `s` without the white space at either end.
pub open spec fn trimmed(s: Seq<char>) -> Seq<char> {
    trim_right(trim_left(s))
}

/// How many characters of white space `cs` begins with.
fn left_spaces(cs: &[char]) -> (n: usize)
    ensures
        n <= cs@.len(),
        trim_left(cs@) == cs@.skip(n as int),
{
    let mut n: usize = 0;
    proof {
        assert(cs@.skip(0) =~= cs@);
    }
    while n < cs.len() && space(cs[n])
        invariant
            n <= cs@.len(),
            trim_left(cs@) == trim_left(cs@.skip(n as int)),
        decreases cs.len() - n,
    {
        proof {
            assert(cs@.skip(n as int).drop_first() =~= cs@.skip(n + 1));
        }
        n += 1;
    }
    n
}

/// How many characters of `cs` are left once trailing white space is gone.
fn right_kept(cs: &[char]) -> (n: usize)
    ensures
        n <= cs@.len(),
        trim_right(cs@) == cs@.take(n as int),
{
    let mut n: usize = cs.len();
    proof {
        assert(cs@.take(n as int) =~= cs@);
    }
    while n > 0 && space(cs[n - 1])
        invariant
            n <= cs@.len(),
            trim_right(cs@) == trim_right(cs@.take(n as int)),
        decreases n,
    {
        proof {
            assert(cs@.take(n as int).drop_last() =~= cs@.take(n - 1));
        }
        n -= 1;
    }
    n
}

/// `cs` without the white space at either end.
pub fn trim_chars(cs: &[char]) -> (out: &[char])
    ensures
        out@ == trimmed(cs@),
{
    let a = left_spaces(cs);
    let rest = slice_subrange(cs, a, cs.len());
    proof {
        assert(rest@ =~= cs@.skip(a as int));
    }
    let n = right_kept(rest);
    let out = slice_subrange(rest, 0, n);
    proof {
        assert(out@ =~= rest@.take(n as int));
    }
    out
}

/// `s` without the white space at either end.
pub fn trim(s: &str) -> (out: String)
    ensures
        out@ == trimmed(s@),
{
    string_of(trim_chars(chars_of(s).as_slice()))
}

/// `s` without the white space it ends with.
pub fn trim_end(s: &str) -> (out: String)
    ensures
        out@ == trim_right(s@),
{
    let cs = chars_of(s);
    let n = right_kept(cs.as_slice());
    let out = string_of(slice_subrange(cs.as_slice(), 0, n));
    proof {
        assert(out@ =~= s@.take(n as int));
    }
    out
}

/// How many characters of `s` come before its first white space.
pub open spec fn word_len(s: Seq<char>) -> int
    decreases s.len(),
{
    if s.len() == 0 || is_space(s[0]) {
        0
    } else {
        1 + word_len(s.drop_first())
    }
}

/// `word_len` lies within the text.
pub proof fn word_len_bounds(s: Seq<char>)
    ensures
        0 <= word_len(s) <= s.len(),
        forall|j: int| 0 <= j < word_len(s) ==> !is_space(#[trigger] s[j]),
        word_len(s) < s.len() ==> is_space(s[word_len(s)]),
    decreases s.len(),
{
    if s.len() > 0 && !is_space(s[0]) {
        let t = s.drop_first();
        word_len_bounds(t);
        assert forall|j: int| 0 <= j < word_len(s) implies !is_space(#[trigger] s[j]) by {
            if j > 0 {
                assert(t[j - 1] == s[j]);
            }
        }
    }
}

/// The words of `s`: its longest runs of characters that are not white space.
pub open spec fn words(s: Seq<char>) -> Seq<Seq<char>>
    decreases s.len(),
{
    if s.len() == 0 {
        Seq::empty()
    } else if is_space(s[0]) {
        words(s.drop_first())
    } else {
        proof {
            word_len_bounds(s);
        }
        seq![s.take(word_len(s))] + words(s.skip(word_len(s)))
    }
}

/// The words of `s`.
pub fn split_whitespace(s: &str) -> (out: Vec<String>)
    ensures
        texts(out@) == words(s@),
{
    let cs = chars_of(s);
    let mut out: Vec<String> = Vec::new();
    let mut i: usize = 0;
    proof {
        assert(s@.skip(0) =~= s@);
        assert(texts(out@) + words(s@) =~= words(s@));
    }
    while i < cs.len()
        invariant
            cs@ == s@,
            i <= cs@.len(),
            texts(out@) + words(s@.skip(i as int)) == words(s@),
        decreases cs.len() - i,
    {
        let ghost rest = s@.skip(i as int);
        if space(cs[i]) {
            proof {
                assert(rest.drop_first() =~= s@.skip(i + 1));
            }
            i += 1;
        } else {
            let mut j: usize = i;
            proof {
                assert(rest.skip(0) =~= rest);
            }
            while j < cs.len() && !space(cs[j])
                invariant
                    cs@ == s@,
                    rest == s@.skip(i as int),
                    i <= j <= cs@.len(),
                    word_len(rest) == (j - i) + word_len(rest.skip(j - i)),
                decreases cs.len() - j,
            {
                proof {
                    assert(rest.skip(j - i).drop_first() =~= rest.skip(j + 1 - i));
                }
                j += 1;
            }
            let ghost before = out@;
            out.push(string_of(slice_subrange(cs.as_slice(), i, j)));
            proof {
                word_len_bounds(rest);
                texts_push(before, out@.last());
                assert(out@.last()@ =~= rest.take(j - i));
                assert(rest.skip(j - i) =~= s@.skip(j as int));
                assert(texts(out@) + words(s@.skip(j as int)) =~= texts(before) + words(rest));
            }
            i = j;
        }
    }
    proof {
        assert(s@.skip(i as int) =~= Seq::empty());
        assert(texts(out@) + Seq::<Seq<char>>::empty() =~= texts(out@));
    }
    out
}

// ---------------------------------------------------------------------------
// Splitting and joining
// ---------------------------------------------------------------------------

/// The pieces of `s` between the occurrences of `c`; one more than these are.
pub open spec fn pieces(s: Seq<char>, c: char) -> Seq<Seq<char>>
    decreases s.len(),
{
    let i = first_index(s, c);
    if 0 <= i < s.len() {
        seq![s.take(i)] + pieces(s.skip(i + 1), c)
    } else {
        seq![s]
    }
}

/// The pieces of `s` between the occurrences of `c`.
pub fn split(s: &str, c: char) -> (out: Vec<String>)
    ensures
        texts(out@) == pieces(s@, c),
{
    let cs = chars_of(s);
    let mut out: Vec<String> = Vec::new();
    let mut i: usize = 0;
    proof {
        assert(s@.skip(0) =~= s@);
        assert(texts(out@) + pieces(s@, c) =~= pieces(s@, c));
    }
    loop
        invariant
            cs@ == s@,
            i <= cs@.len(),
            texts(out@) + pieces(s@.skip(i as int), c) == pieces(s@, c),
        decreases cs.len() - i,
    {
        let ghost rest = s@.skip(i as int);
        let ghost before = out@;
        let j = find_from(cs.as_slice(), c, i);
        out.push(string_of(slice_subrange(cs.as_slice(), i, j)));
        proof {
            texts_push(before, out@.last());
            assert(out@.last()@ =~= rest.take(j - i));
        }
        if j == cs.len() {
            proof {
                assert(rest.take(j - i) =~= rest);
                assert(texts(out@) =~= texts(before) + pieces(rest, c));
            }
            return out;
        }
        proof {
            assert(rest.skip(j - i + 1) =~= s@.skip(j + 1));
            assert(texts(out@) + pieces(s@.skip(j + 1), c) =~= texts(before) + pieces(rest, c));
        }
        i = j + 1;
    }
}

/// `s` without the one carriage return it may end with.
pub open spec fn without_cr(s: Seq<char>) -> Seq<char> {
    if s.len() > 0 && s.last() == '\r' {
        s.drop_last()
    } else {
        s
    }
}

/// `s` without the one carriage return it may end with.
pub fn strip_cr(s: &str) -> (out: String)
    ensures
        out@ == without_cr(s@),
{
    let cs = chars_of(s);
    let n: usize = cs.len();
    if n > 0 && cs[n - 1] == '\r' {
        let out = string_of(slice_subrange(cs.as_slice(), 0, n - 1));
        proof {
            assert(out@ =~= s@.drop_last());
        }
        out
    } else {
        string_of(cs.as_slice())
    }
}

/// The lines of `s`. A line ends at a newline or at the end of the text, and
/// the carriage return before its newline is no part of it.
pub open spec fn lines_of(s: Seq<char>) -> Seq<Seq<char>>
    decreases s.len(),
{
    let i = first_index(s, '\n');
    if s.len() == 0 {
        Seq::empty()
    } else if 0 <= i < s.len() {
        seq![without_cr(s.take(i))] + lines_of(s.skip(i + 1))
    } else {
        seq![s]
    }
}

/// The lines of `s`.
pub fn lines(s: &str) -> (out: Vec<String>)
    ensures
        texts(out@) == lines_of(s@),
{
    let cs = chars_of(s);
    let mut out: Vec<String> = Vec::new();
    let mut i: usize = 0;
    proof {
        assert(s@.skip(0) =~= s@);
        assert(texts(out@) + lines_of(s@) =~= lines_of(s@));
    }
    while i < cs.len()
        invariant
            cs@ == s@,
            i <= cs@.len(),
            texts(out@) + lines_of(s@.skip(i as int)) == lines_of(s@),
        decreases cs.len() - i,
    {
        let ghost rest = s@.skip(i as int);
        let ghost before = out@;
        let j = find_from(cs.as_slice(), '\n', i);
        let line = string_of(slice_subrange(cs.as_slice(), i, j));
        proof {
            assert(line@ =~= rest.take(j - i));
        }
        if j == cs.len() {
            out.push(line);
            proof {
                texts_push(before, line);
                assert(rest.take(j - i) =~= rest);
                assert(texts(out@) =~= texts(before) + lines_of(rest));
            }
            return out;
        }
        let line = strip_cr(line.as_str());
        out.push(line);
        proof {
            texts_push(before, line);
            assert(rest.skip(j - i + 1) =~= s@.skip(j + 1));
            assert(texts(out@) + lines_of(s@.skip(j + 1)) =~= texts(before) + lines_of(rest));
        }
        i = j + 1;
    }
    proof {
        assert(s@.skip(i as int) =~= Seq::empty());
        assert(texts(out@) + Seq::<Seq<char>>::empty() =~= texts(out@));
    }
    out
}

/// The texts of `v` one after another, with `sep` between them.
pub open spec fn joined(v: Seq<Seq<char>>, sep: Seq<char>) -> Seq<char>
    decreases v.len(),
{
    if v.len() == 0 {
        Seq::empty()
    } else if v.len() == 1 {
        v[0]
    } else {
        joined(v.drop_last(), sep) + sep + v.last()
    }
}

/// The texts of `v` one after another, with `sep` between them.
pub fn join(v: &Vec<String>, sep: &str) -> (out: String)
    ensures
        out@ == joined(texts(v@), sep@),
{
    let mut out = String::new();
    let mut i: usize = 0;
    while i < v.len()
        invariant
            i <= v@.len(),
            out@ == joined(texts(v@).take(i as int), sep@),
        decreases v.len() - i,
    {
        let ghost before = out@;
        if i > 0 {
            out.append(sep);
        }
        out.append(v[i].as_str());
        proof {
            let t = texts(v@).take(i + 1);
            assert(t.drop_last() =~= texts(v@).take(i as int));
            assert(t.last() == v@[i as int]@);
            assert(out@ =~= joined(t, sep@));
        }
        i += 1;
    }
    proof {
        assert(texts(v@).take(i as int) =~= texts(v@));
    }
    out
}

// ---------------------------------------------------------------------------
// Borrowed pieces
// ---------------------------------------------------------------------------

/// The texts of a sequence of borrowed strings.
pub open spec fn strs(v: Seq<&str>) -> Seq<Seq<char>> {
    v.map_values(|s: &str| s@)
}

/// The part of `s` from the character `from` on.
pub fn skip_str<'a>(s: &'a str, from: usize) -> (r: &'a str)
    requires
        from <= s@.len(),
    ensures
        r@ == s@.skip(from as int),
{
    let n: usize = s.unicode_len();
    let r = s.substring_char(from, n);
    proof {
        assert(r@ =~= s@.skip(from as int));
    }
    r
}

/// What follows the prefix `p`, where `s` begins with it.
pub fn after_str<'a>(s: &'a str, p: &str) -> (r: Option<&'a str>)
    ensures
        opt_str(r) == after_prefix(s@, p@),
{
    if starts_with(s, p) {
        Some(skip_str(s, p.unicode_len()))
    } else {
        None
    }
}

/// The pieces of `s` between the occurrences of `c`, at most `n`; the last holds
/// what is left.
pub open spec fn pieces_n(s: Seq<char>, c: char, n: nat) -> Seq<Seq<char>>
    decreases n,
{
    let i = first_index(s, c);
    if n > 1 && 0 <= i < s.len() {
        seq![s.take(i)] + pieces_n(s.skip(i + 1), c, (n - 1) as nat)
    } else {
        seq![s]
    }
}

/// The pieces of `s` between the occurrences of `c`, at most `n`.
pub fn splitn_str<'a>(s: &'a str, c: char, n: usize) -> (out: Vec<&'a str>)
    requires
        n > 0,
    ensures
        strs(out@) == pieces_n(s@, c, n as nat),
{
    let cs = chars_of(s);
    let len: usize = cs.len();
    let mut out: Vec<&'a str> = Vec::new();
    let mut i: usize = 0;
    let mut left: usize = n;
    proof {
        assert(s@.skip(0) =~= s@);
        assert(strs(out@) + pieces_n(s@, c, n as nat) =~= pieces_n(s@, c, n as nat));
    }
    loop
        invariant
            cs@ == s@,
            len == s@.len(),
            i <= len,
            left > 0,
            strs(out@) + pieces_n(s@.skip(i as int), c, left as nat) == pieces_n(s@, c, n as nat),
        decreases left,
    {
        let ghost rest = s@.skip(i as int);
        let ghost before = out@;
        let j: usize = if left == 1 {
            len
        } else {
            find_from(cs.as_slice(), c, i)
        };
        let piece = s.substring_char(i, j);
        out.push(piece);
        proof {
            assert(piece@ =~= rest.take(j - i));
            assert(strs(out@) =~= strs(before).push(piece@));
        }
        if j == len {
            proof {
                assert(rest.take(j - i) =~= rest);
                assert(strs(out@) =~= strs(before) + pieces_n(rest, c, left as nat));
            }
            return out;
        }
        proof {
            assert(rest.skip(j - i + 1) =~= s@.skip(j + 1));
            assert(strs(out@) + pieces_n(s@.skip(j + 1), c, (left - 1) as nat) =~= strs(before)
                + pieces_n(rest, c, left as nat));
        }
        i = j + 1;
        left -= 1;
    }
}

/// The text before and after the first `c` in `s`, where there is one.
pub open spec fn cut_at(s: Seq<char>, c: char) -> Option<(Seq<char>, Seq<char>)> {
    let i = first_index(s, c);
    if 0 <= i < s.len() {
        Some((s.take(i), s.skip(i + 1)))
    } else {
        None
    }
}

/// The text before and after the first `c` in `s`, where there is one.
pub fn split_once_str<'a>(s: &'a str, c: char) -> (r: Option<(&'a str, &'a str)>)
    ensures
        match r {
            Some((a, b)) => cut_at(s@, c) == Some((a@, b@)),
            None => cut_at(s@, c) is None,
        },
{
    let cs = chars_of(s);
    let i: usize = find_from(cs.as_slice(), c, 0);
    proof {
        assert(s@.skip(0) =~= s@);
    }
    if i == cs.len() {
        None
    } else {
        let a = s.substring_char(0, i);
        let b = skip_str(s, i + 1);
        proof {
            assert(a@ =~= s@.take(i as int));
        }
        Some((a, b))
    }
}

/// `s` without the white space at either end.
pub fn trim_str<'a>(s: &'a str) -> (r: &'a str)
    ensures
        r@ == trimmed(s@),
{
    let cs = chars_of(s);
    let a: usize = left_spaces(cs.as_slice());
    let rest = skip_str(s, a);
    let rs = chars_of(rest);
    let n: usize = right_kept(rs.as_slice());
    let r = rest.substring_char(0, n);
    proof {
        assert(r@ =~= rest@.take(n as int));
    }
    r
}

// ---------------------------------------------------------------------------
// From the end
// ---------------------------------------------------------------------------

/// The last position of `c` in `s`; -1 where it is not in it.
pub open spec fn last_index(s: Seq<char>, c: char) -> int
    decreases s.len(),
{
    if s.len() == 0 {
        -1
    } else if s.last() == c {
        s.len() - 1
    } else {
        last_index(s.drop_last(), c)
    }
}

/// `last_index` is the greatest position that holds `c`.
pub proof fn last_index_is(s: Seq<char>, c: char, i: int)
    requires
        -1 <= i < s.len(),
        forall|j: int| i < j < s.len() ==> s[j] != c,
        i >= 0 ==> s[i] == c,
    ensures
        last_index(s, c) == i,
    decreases s.len(),
{
    if s.len() > 0 && s.last() != c {
        let t = s.drop_last();
        assert forall|j: int| i < j < t.len() implies t[j] != c by {
            assert(t[j] == s[j]);
        }
        last_index_is(t, c, i);
    }
}

/// The last position of `c` in `cs`.
pub fn rfind(cs: &[char], c: char) -> (r: Option<usize>)
    ensures
        match r {
            Some(i) => i < cs@.len() && last_index(cs@, c) == i,
            None => last_index(cs@, c) == -1,
        },
{
    let mut i: usize = cs.len();
    while i > 0
        invariant
            i <= cs@.len(),
            forall|j: int| i <= j < cs@.len() ==> cs@[j] != c,
        decreases i,
    {
        if cs[i - 1] == c {
            proof {
                last_index_is(cs@, c, i - 1);
            }
            return Some(i - 1);
        }
        i -= 1;
    }
    proof {
        last_index_is(cs@, c, -1);
    }
    None
}

/// The texts of `v` from the `n`th on, with `sep` between them.
pub fn join_from(v: &Vec<String>, n: usize, sep: &str) -> (out: String)
    requires
        n <= v@.len(),
    ensures
        out@ == joined(texts(v@).skip(n as int), sep@),
{
    let mut rest: Vec<String> = Vec::new();
    let mut i: usize = n;
    while i < v.len()
        invariant
            n <= i <= v@.len(),
            rest@.len() == i - n,
            forall|j: int| 0 <= j < rest@.len() ==> (#[trigger] rest@[j])@ == v@[n + j]@,
        decreases v.len() - i,
    {
        rest.push(v[i].clone());
        i += 1;
    }
    proof {
        assert(texts(rest@) =~= texts(v@).skip(n as int));
    }
    join(&rest, sep)
}

/// The pieces of a text that holds the first `c` behind `a`.
pub proof fn pieces_of_sum(a: Seq<char>, c: char, b: Seq<char>)
    requires
        !a.contains(c),
    ensures
        pieces(a + seq![c] + b, c) == seq![a] + pieces(b, c),
{
    let s = a + seq![c] + b;
    let n = a.len() as int;
    assert forall|j: int| 0 <= j < n implies s[j] != c by {
        assert(s[j] == a[j]);
        assert(a.contains(a[j]));
    }
    first_index_is(s, c, n);
    assert(s.take(n) =~= a);
    assert(s.skip(n + 1) =~= b);
}

/// A text without `c` is its only piece.
pub proof fn pieces_without(s: Seq<char>, c: char)
    requires
        !s.contains(c),
    ensures
        pieces(s, c) == seq![s],
{
    first_index_bounds(s, c);
    let i = first_index(s, c);
    if i < s.len() {
        assert(s.contains(s[i]));
    }
}

/// The pieces of two texts with a `c` between them are those of the one and of the other.
pub proof fn pieces_of_join(a: Seq<char>, c: char, b: Seq<char>)
    ensures
        pieces(a + seq![c] + b, c) == pieces(a, c) + pieces(b, c),
    decreases a.len(),
{
    first_index_bounds(a, c);
    let i = first_index(a, c);
    if i < a.len() {
        let s = a + seq![c] + b;
        let rest = a.skip(i + 1);
        pieces_of_join(rest, c, b);
        assert forall|j: int| 0 <= j < i implies s[j] != c by {
            assert(s[j] == a[j]);
        }
        assert(s[i] == a[i]);
        first_index_is(s, c, i);
        assert(s.take(i) =~= a.take(i));
        assert(s.skip(i + 1) =~= rest + seq![c] + b);
        assert(seq![a.take(i)] + (pieces(rest, c) + pieces(b, c)) =~= (seq![a.take(i)] + pieces(
            rest,
            c,
        )) + pieces(b, c));
    } else {
        assert(!a.contains(c)) by {
            assert forall|j: int| 0 <= j < a.len() implies a[j] != c by {}
        }
        pieces_of_sum(a, c, b);
    }
}

/// There is a piece, and joined by `c` the pieces are the text.
pub proof fn pieces_join_back(s: Seq<char>, c: char)
    ensures
        pieces(s, c).len() >= 1,
        joined(pieces(s, c), seq![c]) == s,
    decreases s.len(),
{
    let i = first_index(s, c);
    first_index_bounds(s, c);
    if i < s.len() {
        let rest = s.skip(i + 1);
        pieces_join_back(rest, c);
        joined_front(s.take(i), pieces(rest, c), seq![c]);
        assert(s =~= s.take(i) + seq![c] + rest);
    } else {
        assert(joined(seq![s], seq![c]) == s);
    }
}

/// One more text in front.
pub proof fn joined_front(a: Seq<char>, v: Seq<Seq<char>>, sep: Seq<char>)
    requires
        v.len() >= 1,
    ensures
        joined(seq![a] + v, sep) == a + sep + joined(v, sep),
    decreases v.len(),
{
    let all = seq![a] + v;
    if v.len() == 1 {
        assert(all.drop_last() =~= seq![a]);
        assert(joined(all.drop_last(), sep) == a);
    } else {
        joined_front(a, v.drop_last(), sep);
        assert(all.drop_last() =~= seq![a] + v.drop_last());
        assert(a + sep + joined(v.drop_last(), sep) + sep + v.last() =~= a + sep + (joined(
            v.drop_last(),
            sep,
        ) + sep + v.last()));
    }
}

// ---------------------------------------------------------------------------
// Laws of cutting text
// ---------------------------------------------------------------------------

/// The text before a mark and behind it, where the mark's second character does not come
/// again in it: it is cut at the mark if none stands before.
pub proof fn cut_behind(a: Seq<char>, p: Seq<char>, b: Seq<char>)
    requires
        p.len() >= 2,
        forall|k: int| 2 <= k < p.len() ==> #[trigger] p[k] != p[1],
        !holds(a.push(p[0]), p),
    ensures
        cut(a + p + b, p) == Some((a, b)),
{
    let s = a + p + b;
    let n = a.len() as int;
    let m = p.len() as int;
    assert(s.subrange(n, n + m) =~= p);
    assert forall|j: int| 0 <= j < n implies !#[trigger] stands_at(s, p, j) by {
        if stands_at(s, p, j) {
            let w = s.subrange(j, j + m);
            if j + m <= n + 1 {
                assert(a.push(p[0]).subrange(j, j + m) =~= w);
                assert(stands_at(a.push(p[0]), p, j));
            } else {
                assert(w[n + 1 - j] == s[n + 1]);
                assert(s[n + 1] == p[1]);
                assert(p[n + 1 - j] != p[1]);
            }
        }
    }
    first_match_is(s, p, n);
    assert(s.take(n) =~= a);
    assert(s.skip(n + m) =~= b);
}

/// What is cut off lies on either side of the mark, and no mark begins earlier; a text that
/// is not cut holds none.
pub proof fn cut_is_at_the_first(s: Seq<char>, p: Seq<char>)
    ensures
        match cut(s, p) {
            Some((a, b)) => s == a + p + b && forall|j: int|
                0 <= j < a.len() ==> !#[trigger] stands_at(s, p, j),
            None => !holds(s, p),
        },
{
    first_match_least(s, p);
    if let Some(i) = first_match(s, p) {
        assert(s =~= s.take(i) + s.subrange(i, i + p.len()) + s.skip(i + p.len()));
    }
}

/// No piece holds what the text was cut at.
pub proof fn pieces_hold_no_mark(s: Seq<char>, c: char, i: int)
    requires
        0 <= i < pieces(s, c).len(),
    ensures
        !pieces(s, c)[i].contains(c),
    decreases s.len(),
{
    let k = first_index(s, c);
    first_index_bounds(s, c);
    if k < s.len() {
        let rest = pieces(s.skip(k + 1), c);
        if i > 0 {
            pieces_hold_no_mark(s.skip(k + 1), c, i - 1);
            assert(pieces(s, c)[i] == rest[i - 1]);
        } else {
            let first = s.take(k);
            assert forall|j: int| 0 <= j < first.len() implies first[j] != c by {
                assert(first[j] == s[j]);
            }
        }
    } else {
        assert forall|j: int| 0 <= j < s.len() implies s[j] != c by {}
    }
}

// ---------------------------------------------------------------------------
// Laws of white space
// ---------------------------------------------------------------------------

/// Whether a text is white space alone.
pub open spec fn blank(s: Seq<char>) -> bool {
    forall|i: int| 0 <= i < s.len() ==> is_space(#[trigger] s[i])
}

/// Whether a text is one word: not empty, and without white space.
pub open spec fn is_word(s: Seq<char>) -> bool {
    s.len() > 0 && forall|i: int| 0 <= i < s.len() ==> !is_space(#[trigger] s[i])
}

/// Tabs, newlines, carriage returns and spaces are white space; letters, digits and the
/// other characters of ASCII that are printed are not.
pub proof fn ascii_space(c: char)
    ensures
        c == ' ' || c == '\t' || c == '\n' || c == '\r' ==> is_space(c),
        '!' <= c <= '~' ==> !is_space(c),
{
}

proof fn trim_left_is(s: Seq<char>)
    ensures
        trim_left(s).len() <= s.len(),
        s == s.take(s.len() - trim_left(s).len()) + trim_left(s),
        blank(s.take(s.len() - trim_left(s).len())),
        trim_left(s).len() > 0 ==> !is_space(trim_left(s)[0]),
    decreases s.len(),
{
    if s.len() > 0 && is_space(s[0]) {
        let t = s.drop_first();
        trim_left_is(t);
        let n = s.len() - trim_left(s).len();
        let front = s.take(n);
        assert forall|i: int| 0 <= i < front.len() implies is_space(#[trigger] front[i]) by {
            if i > 0 {
                assert(t.take(n - 1)[i - 1] == front[i]);
            }
        }
        assert(trim_left(t) =~= t.skip(n - 1)) by {
            assert(t.skip(n - 1) =~= (t.take(n - 1) + trim_left(t)).skip(n - 1));
        }
        assert(s =~= front + trim_left(s));
    } else {
        assert(s =~= s.take(0) + s);
    }
}

/// Trimming at the end takes white space off the end and nothing else.
pub proof fn trim_right_is(s: Seq<char>)
    ensures
        trim_right(s).len() <= s.len(),
        s == trim_right(s) + s.skip(trim_right(s).len() as int),
        blank(s.skip(trim_right(s).len() as int)),
        trim_right(s).len() > 0 ==> !is_space(trim_right(s).last()),
    decreases s.len(),
{
    if s.len() > 0 && is_space(s.last()) {
        let t = s.drop_last();
        trim_right_is(t);
        let n = trim_right(s).len() as int;
        let end = s.skip(n);
        assert forall|i: int| 0 <= i < end.len() implies is_space(#[trigger] end[i]) by {
            if i < end.len() - 1 {
                assert(t.skip(n)[i] == end[i]);
            }
        }
        assert(trim_right(t) =~= t.take(n)) by {
            assert(t.take(n) =~= (trim_right(t) + t.skip(n)).take(n));
        }
        assert(s =~= trim_right(s) + end);
    } else {
        assert(s =~= s + s.skip(s.len() as int));
    }
}

/// Trimming takes white space off both ends and nothing else: what is left neither begins
/// nor ends with any.
pub proof fn trimming_takes_the_ends(s: Seq<char>) -> (r: (Seq<char>, Seq<char>))
    ensures
        s == r.0 + trimmed(s) + r.1,
        blank(r.0),
        blank(r.1),
        trimmed(s).len() > 0 ==> !is_space(trimmed(s)[0]) && !is_space(trimmed(s).last()),
{
    trim_left_is(s);
    let t = trim_left(s);
    trim_right_is(t);
    let front = s.take(s.len() - t.len());
    let end = t.skip(trimmed(s).len() as int);
    assert(front + (trimmed(s) + end) =~= front + trimmed(s) + end);
    if trimmed(s).len() > 0 {
        assert(t[0] == trimmed(s)[0]);
    }
    (front, end)
}

proof fn word_len_is(s: Seq<char>, n: int)
    requires
        0 <= n <= s.len(),
        forall|j: int| 0 <= j < n ==> !is_space(#[trigger] s[j]),
        n < s.len() ==> is_space(s[n]),
    ensures
        word_len(s) == n,
{
    word_len_bounds(s);
    if word_len(s) < n {
        assert(!is_space(s[word_len(s)]));
    }
}

/// The words of two texts with white space between them are those of the one and then
/// those of the other, however many there are.
pub proof fn words_add_up(a: Seq<char>, c: char, b: Seq<char>)
    requires
        is_space(c),
    ensures
        words(a + seq![c] + b) == words(a) + words(b),
    decreases a.len(),
{
    let s = a + seq![c] + b;
    if a.len() == 0 {
        assert(s[0] == c);
        assert(s.drop_first() =~= b);
        assert(words(a) + words(b) =~= words(b));
    } else if is_space(a[0]) {
        words_add_up(a.drop_first(), c, b);
        assert(s[0] == a[0]);
        assert(s.drop_first() =~= a.drop_first() + seq![c] + b);
    } else {
        let n = word_len(a);
        word_len_bounds(a);
        assert forall|j: int| 0 <= j < n implies !is_space(#[trigger] s[j]) by {
            assert(s[j] == a[j]);
        }
        assert(is_space(s[n])) by {
            if n < a.len() {
                assert(s[n] == a[n]);
            }
        }
        word_len_is(s, n);
        assert(n > 0);
        assert(s.take(n) =~= a.take(n));
        assert(s.skip(n) =~= a.skip(n) + seq![c] + b);
        words_add_up(a.skip(n), c, b);
        assert(seq![a.take(n)] + (words(a.skip(n)) + words(b)) =~= (seq![a.take(n)] + words(
            a.skip(n),
        )) + words(b));
    }
}

/// A word is its only word.
pub proof fn words_of_word(w: Seq<char>)
    requires
        is_word(w),
    ensures
        words(w) == seq![w],
{
    word_len_is(w, w.len() as int);
    assert(!is_space(w[0]));
    assert(w.take(w.len() as int) =~= w);
    assert(w.skip(w.len() as int) =~= Seq::empty());
    assert(words(Seq::empty()) =~= Seq::<Seq<char>>::empty());
    assert(seq![w] + Seq::<Seq<char>>::empty() =~= seq![w]);
}

/// White space holds no word.
pub proof fn blank_has_no_words(s: Seq<char>)
    requires
        blank(s),
    ensures
        words(s) == Seq::<Seq<char>>::empty(),
    decreases s.len(),
{
    if s.len() > 0 {
        let t = s.drop_first();
        assert forall|i: int| 0 <= i < t.len() implies is_space(#[trigger] t[i]) by {
            assert(t[i] == s[i + 1]);
        }
        blank_has_no_words(t);
        assert(is_space(s[0]));
    }
}

/// What words are found are words.
pub proof fn words_are_words(s: Seq<char>, i: int)
    requires
        0 <= i < words(s).len(),
    ensures
        is_word(words(s)[i]),
    decreases s.len(),
{
    if is_space(s[0]) {
        words_are_words(s.drop_first(), i);
    } else {
        let n = word_len(s);
        word_len_bounds(s);
        assert(n > 0);
        let first = s.take(n);
        if i == 0 {
            assert forall|j: int| 0 <= j < first.len() implies !is_space(#[trigger] first[j]) by {
                assert(first[j] == s[j]);
            }
        } else {
            words_are_words(s.skip(n), i - 1);
            assert(words(s)[i] == words(s.skip(n))[i - 1]);
        }
    }
}

/// White space at the ends of a text changes none of its words.
pub proof fn words_of_trimmed(s: Seq<char>)
    ensures
        words(trimmed(s)) == words(s),
{
    let (front, end) = trimming_takes_the_ends(s);
    let t = trimmed(s);
    words_behind_blank(front, t + end);
    assert(front + (t + end) =~= s);
    if end.len() > 0 {
        let more = end.skip(1);
        assert forall|i: int| 0 <= i < more.len() implies is_space(#[trigger] more[i]) by {
            assert(more[i] == end[i + 1]);
        }
        assert(is_space(end[0]));
        words_add_up(t, end[0], more);
        blank_has_no_words(more);
        assert(t + seq![end[0]] + more =~= t + end);
        assert(words(t) + words(more) =~= words(t));
    } else {
        assert(t + end =~= t);
    }
}

proof fn words_behind_blank(front: Seq<char>, s: Seq<char>)
    requires
        blank(front),
    ensures
        words(front + s) == words(s),
    decreases front.len(),
{
    if front.len() > 0 {
        let f = front.drop_first();
        assert forall|i: int| 0 <= i < f.len() implies is_space(#[trigger] f[i]) by {
            assert(f[i] == front[i + 1]);
        }
        words_behind_blank(f, s);
        assert(is_space(front[0]));
        assert((front + s)[0] == front[0]);
        assert((front + s).drop_first() =~= f + s);
    } else {
        assert(front + s =~= s);
    }
}

/// Words with white space between them are read back, all of them, in order.
pub proof fn words_read_back(ws: Seq<Seq<char>>, c: char)
    requires
        is_space(c),
        forall|i: int| 0 <= i < ws.len() ==> is_word(#[trigger] ws[i]),
    ensures
        words(joined(ws, seq![c])) == ws,
    decreases ws.len(),
{
    if ws.len() == 0 {
        assert(words(Seq::empty()) =~= ws);
    } else if ws.len() == 1 {
        words_of_word(ws[0]);
        assert(seq![ws[0]] =~= ws);
    } else {
        let v = ws.drop_last();
        assert forall|i: int| 0 <= i < v.len() implies is_word(#[trigger] v[i]) by {
            assert(v[i] == ws[i]);
        }
        words_read_back(v, c);
        words_of_word(ws.last());
        words_add_up(joined(v, seq![c]), c, ws.last());
        assert(v + seq![ws.last()] =~= ws);
    }
}

// ---------------------------------------------------------------------------
// Laws of lines
// ---------------------------------------------------------------------------

/// The first line of a text ends at its first newline; a carriage return before it is no
/// part of the line.
pub proof fn lines_add_up(line: Seq<char>, rest: Seq<char>)
    requires
        !line.contains('\n'),
    ensures
        lines_of(line + seq!['\n'] + rest) == seq![without_cr(line)] + lines_of(rest),
        line.len() > 0 ==> lines_of(line) == seq![line],
        lines_of(Seq::empty()) == Seq::<Seq<char>>::empty(),
{
    let s = line + seq!['\n'] + rest;
    let n = line.len() as int;
    assert forall|j: int| 0 <= j < n implies s[j] != '\n' by {
        assert(line.contains(line[j]));
    }
    first_index_is(s, '\n', n);
    assert(s.take(n) =~= line);
    assert(s.skip(n + 1) =~= rest);
    first_index_bounds(line, '\n');
    if first_index(line, '\n') < line.len() {
        assert(line.contains(line[first_index(line, '\n')]));
    }
}

/// A line ends alike with a newline and with a carriage return and a newline.
pub proof fn line_ends_are_alike(line: Seq<char>)
    requires
        line.len() > 0 ==> line.last() != '\r',
    ensures
        without_cr(line) == line,
        without_cr(line.push('\r')) == line,
{
    assert(line.push('\r').drop_last() =~= line);
}

// ---------------------------------------------------------------------------
// Order
// ---------------------------------------------------------------------------

/// Whether `a` stands before `b` in the order of texts: at the first place at which
/// they differ it has the lesser character, or it ends there.
pub open spec fn precedes(a: Seq<char>, b: Seq<char>) -> bool
    decreases a.len(),
{
    if b.len() == 0 {
        false
    } else if a.len() == 0 {
        true
    } else if a[0] != b[0] {
        a[0] < b[0]
    } else {
        precedes(a.drop_first(), b.drop_first())
    }
}

/// Whether each text stands before those behind it; none stands twice.
pub open spec fn ascending(v: Seq<Seq<char>>) -> bool {
    forall|i: int, j: int| 0 <= i < j < v.len() ==> precedes(#[trigger] v[i], #[trigger] v[j])
}

/// Of two texts one stands before the other, or they are the same.
pub proof fn precedes_total(a: Seq<char>, b: Seq<char>)
    ensures
        precedes(a, b) || precedes(b, a) || a == b,
    decreases a.len(),
{
    if a.len() > 0 && b.len() > 0 && a[0] == b[0] {
        precedes_total(a.drop_first(), b.drop_first());
        if a.drop_first() == b.drop_first() {
            assert(a =~= seq![a[0]] + a.drop_first());
            assert(b =~= seq![b[0]] + b.drop_first());
        }
    } else if a.len() == 0 && b.len() == 0 {
        assert(a =~= b);
    }
}

/// No text stands before itself.
pub proof fn precedes_irreflexive(a: Seq<char>)
    ensures
        !precedes(a, a),
    decreases a.len(),
{
    if a.len() > 0 {
        precedes_irreflexive(a.drop_first());
    }
}

/// What stands before a text that stands before another stands before that one.
pub proof fn precedes_transitive(a: Seq<char>, b: Seq<char>, c: Seq<char>)
    requires
        precedes(a, b),
        precedes(b, c),
    ensures
        precedes(a, c),
    decreases a.len(),
{
    if a.len() > 0 && a[0] == b[0] && b[0] == c[0] {
        precedes_transitive(a.drop_first(), b.drop_first(), c.drop_first());
    }
}

/// Whether `a` stands before `b`.
pub fn before(a: &str, b: &str) -> (r: bool)
    ensures
        r == precedes(a@, b@),
{
    let x = chars_of(a);
    let y = chars_of(b);
    let mut i: usize = 0;
    proof {
        assert(a@.skip(0) =~= a@);
        assert(b@.skip(0) =~= b@);
    }
    loop
        invariant
            x@ == a@,
            y@ == b@,
            i <= x@.len(),
            i <= y@.len(),
            precedes(a@, b@) == precedes(a@.skip(i as int), b@.skip(i as int)),
        decreases x.len() - i,
    {
        if i == y.len() {
            return false;
        }
        if i == x.len() {
            return true;
        }
        if x[i] != y[i] {
            return x[i] < y[i];
        }
        proof {
            assert(a@.skip(i as int).drop_first() =~= a@.skip(i + 1));
            assert(b@.skip(i as int).drop_first() =~= b@.skip(i + 1));
        }
        i += 1;
    }
}

/// Puts a text in its place among texts in ascending order, if it is not among them.
pub fn insert_ascending(v: &mut Vec<String>, s: String)
    requires
        ascending(texts(old(v)@)),
    ensures
        ascending(texts(final(v)@)),
        forall|t: Seq<char>| #[trigger]
            texts(final(v)@).contains(t) <==> (texts(old(v)@).contains(t) || t == s@),
{
    let ghost was = texts(v@);
    let mut i: usize = 0;
    while i < v.len() && before(v[i].as_str(), s.as_str())
        invariant
            i <= v@.len(),
            was == texts(v@),
            *v == *old(v),
            forall|j: int| 0 <= j < i ==> precedes(#[trigger] was[j], s@),
        decreases v.len() - i,
    {
        i += 1;
    }
    if i < v.len() && same(v[i].as_str(), s.as_str()) {
        proof {
            assert(was[i as int] == s@);
        }
        return ;
    }
    proof {
        if i < v@.len() {
            precedes_total(was[i as int], s@);
        }
    }
    v.insert(i, s);
    proof {
        let now = texts(v@);
        assert(now =~= was.insert(i as int, s@));
        assert forall|a: int, b: int| 0 <= a < b < now.len() implies precedes(
            #[trigger] now[a],
            #[trigger] now[b],
        ) by {
            if a < i && b < i {
                assert(precedes(was[a], was[b]));
            } else if a < i && b == i {
                assert(precedes(was[a], s@));
            } else if a < i {
                assert(precedes(was[a], was[b - 1]));
            } else if a == i {
                assert(precedes(s@, was[i as int]));
                if b - 1 > i {
                    assert(precedes(was[i as int], was[b - 1]));
                    precedes_transitive(s@, was[i as int], was[b - 1]);
                }
            } else {
                assert(precedes(was[a - 1], was[b - 1]));
            }
        }
        assert forall|t: Seq<char>| #[trigger] now.contains(t) <==> (was.contains(t) || t == s@) by {
            if now.contains(t) {
                let k = choose|k: int| 0 <= k < now.len() && now[k] == t;
                if k < i {
                    assert(was[k] == t);
                } else if k > i {
                    assert(was[k - 1] == t);
                }
            }
            if was.contains(t) {
                let k = choose|k: int| 0 <= k < was.len() && was[k] == t;
                if k < i {
                    assert(now[k] == t);
                } else {
                    assert(now[k + 1] == t);
                }
            }
            if t == s@ {
                assert(now[i as int] == t);
            }
        }
    }
}

// ---------------------------------------------------------------------------
// Laws of where texts stand
// ---------------------------------------------------------------------------

/// A text begins with another exactly where it is that one with something behind it.
pub proof fn text_begins_with_its_front(p: Seq<char>, rest: Seq<char>, s: Seq<char>)
    ensures
        begins(p + rest, p),
        after_prefix(p + rest, p) == Some(rest),
        begins(s, p) ==> s == p + s.skip(p.len() as int),
        after_prefix(s, p) matches Some(r) ==> s == p + r,
{
    assert((p + rest).take(p.len() as int) =~= p);
    assert((p + rest).skip(p.len() as int) =~= rest);
    if begins(s, p) {
        assert(s =~= p + s.skip(p.len() as int));
    }
}

/// A text ends with another exactly where it is that one with something before it.
pub proof fn text_ends_with_its_back(front: Seq<char>, p: Seq<char>, s: Seq<char>)
    ensures
        ends(front + p, p),
        before_suffix(front + p, p) == Some(front),
        ends(s, p) ==> s == s.take(s.len() - p.len()) + p,
        before_suffix(s, p) matches Some(f) ==> s == f + p,
{
    let all = front + p;
    assert(all.skip(all.len() - p.len()) =~= p);
    assert(all.take(all.len() - p.len()) =~= front);
    assert(all.subrange(all.len() - p.len(), all.len() as int) =~= p);
    if ends(s, p) {
        assert(s =~= s.take(s.len() - p.len()) + p);
    }
}

/// A text holds another exactly where it is that one with something before it and behind.
pub proof fn text_holds_its_middle(a: Seq<char>, p: Seq<char>, b: Seq<char>, s: Seq<char>) -> (at:
    int)
    ensures
        holds(a + p + b, p),
        holds(s, p) ==> 0 <= at <= s.len() - p.len() && s == s.take(at) + p + s.skip(
            at + p.len(),
        ),
        p.len() > s.len() ==> !holds(s, p),
{
    let all = a + p + b;
    let n = a.len() as int;
    assert(all.subrange(n, n + p.len()) =~= p);
    assert(stands_at(all, p, n));
    if holds(s, p) {
        let i = choose|i: int| #[trigger] stands_at(s, p, i);
        assert(s =~= s.take(i) + p + s.skip(i + p.len()));
        i
    } else {
        0
    }
}

/// The first place of a character is the one with none before it, and past the end where
/// there is none; the last the one with none behind it.
pub proof fn characters_are_found_where_they_stand(a: Seq<char>, c: char, b: Seq<char>)
    ensures
        !a.contains(c) ==> first_index(a + seq![c] + b, c) == a.len(),
        !a.contains(c) ==> first_index(a, c) == a.len(),
        !b.contains(c) ==> last_index(a + seq![c] + b, c) == a.len(),
        !a.contains(c) ==> cut_at(a + seq![c] + b, c) == Some((a, b)),
        !a.contains(c) ==> cut_at(a, c) is None,
{
    let s = a + seq![c] + b;
    let n = a.len() as int;
    if !a.contains(c) {
        assert forall|j: int| 0 <= j < n implies s[j] != c by {
            assert(a.contains(a[j]));
        }
        first_index_is(s, c, n);
        assert(s.take(n) =~= a);
        assert(s.skip(n + 1) =~= b);
        first_index_bounds(a, c);
        if first_index(a, c) < n {
            assert(a.contains(a[first_index(a, c)]));
        }
    }
    if !b.contains(c) {
        assert forall|j: int| n < j < s.len() implies s[j] != c by {
            assert(b.contains(b[j - n - 1]));
        }
        last_index_is(s, c, n);
    }
}

/// Texts are ordered as words in a dictionary: one that goes on stands behind the one it goes
/// on from, and else the first character in which they differ decides.
pub proof fn texts_are_ordered_by_characters(
    a: Seq<char>,
    b: Seq<char>,
    c: char,
    d: char,
    x: Seq<char>,
    y: Seq<char>,
)
    ensures
        b.len() > 0 ==> precedes(a, a + b),
        c < d ==> precedes(a + seq![c] + x, a + seq![d] + y),
        !precedes(a, a),
    decreases a.len(),
{
    precedes_irreflexive(a);
    if a.len() == 0 {
        assert(a + b =~= b);
        let p = a + seq![c] + x;
        let q = a + seq![d] + y;
        assert(p[0] == c && q[0] == d);
    } else {
        let t = a.drop_first();
        texts_are_ordered_by_characters(t, b, c, d, x, y);
        assert((a + b).drop_first() =~= t + b);
        assert((a + seq![c] + x).drop_first() =~= t + seq![c] + x);
        assert((a + seq![d] + y).drop_first() =~= t + seq![d] + y);
        assert((a + b)[0] == a[0]);
    }
}

} // verus!
