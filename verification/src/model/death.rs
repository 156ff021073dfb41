//! Death of a displayed session: the tty filter on a detach notice, the file that
//! stands for a psmux session, and the marker by which an attach shell reports its
//! own tty.
use crate::bytes;
use crate::model::plan::{DeathSignal, DisplayTty};
use crate::number;
use crate::paths;
use crate::text;
use vstd::prelude::*;
use vstd::slice::slice_subrange;

verus! {

/// Whether `detached_tty` is this program's own display client. Only a control
/// notice is filtered by tty, and an unknown or empty tty matches nothing.
pub open spec fn is_own_detach(
    signal: DeathSignal,
    detached_tty: Seq<char>,
    display_tty: Option<Seq<char>>,
) -> bool {
    signal == DeathSignal::ControlNotice && display_tty == Some(detached_tty) && detached_tty.len()
        > 0
}

/// True when `detached_tty` is this program's own display client under a control
/// notice.
pub fn matches_display_tty(
    signal: &DeathSignal,
    detached_tty: &str,
    display_tty: &DisplayTty,
) -> (r: bool)
    ensures
        r == is_own_detach(*signal, detached_tty@, display_tty@),
{
    match &display_tty.0 {
        Some(tty) => *signal == DeathSignal::ControlNotice && !detached_tty.is_empty()
            && text::same(tty.as_str(), detached_tty),
        None => false,
    }
}

/// The registry directory of psmux below a home directory; without one, below the
/// current directory.
pub open spec fn registry_dir(home: Option<Seq<char>>) -> Seq<char> {
    match home {
        Some(h) => paths::below(h, ".psmux"@),
        None => paths::below("."@, ".psmux"@),
    }
}

/// The file that exists as long as a psmux session does.
pub open spec fn port_path(home: Option<Seq<char>>, session: Seq<char>) -> Seq<char> {
    paths::below(registry_dir(home), session + ".port"@)
}

/// `~/.psmux`, for the home directory `home`.
pub fn psmux_registry_dir(home: Option<&str>) -> (p: String)
    ensures
        p@ == registry_dir(text::opt_str(home)),
{
    match home {
        Some(h) => paths::join(h, ".psmux"),
        None => paths::join(".", ".psmux"),
    }
}

/// `~/.psmux/<session>.port`, for the home directory `home`.
pub fn psmux_port_path(home: Option<&str>, session: &str) -> (p: String)
    ensures
        p@ == port_path(text::opt_str(home), session@),
{
    let mut file = session.to_owned();
    file.append(".port");
    paths::join(psmux_registry_dir(home).as_str(), file.as_str())
}

/// The shell prefix by which an attach shell prints its own tty, in the marker,
/// before the mux attach is run in its place.
pub fn display_tty_marker_prefix() -> (s: &'static str)
    ensures
        s@ == "printf '\\033]XMUX-DISPLAY-TTY:%s\\007' \"$(tty)\" ;"@,
{
    "printf '\\033]XMUX-DISPLAY-TTY:%s\\007' \"$(tty)\" ;"
}

/// `ESC ] XMUX-DISPLAY-TTY:`, which opens the marker.
pub open spec fn marker_open() -> Seq<u8> {
    seq![
        0x1bu8,
        0x5du8,
        0x58u8,
        0x4du8,
        0x55u8,
        0x58u8,
        0x2du8,
        0x44u8,
        0x49u8,
        0x53u8,
        0x50u8,
        0x4cu8,
        0x41u8,
        0x59u8,
        0x2du8,
        0x54u8,
        0x54u8,
        0x59u8,
        0x3au8,
    ]
}

/// The bytes between the first marker opening in `s` and the BEL that follows it.
pub open spec fn marked(s: Seq<u8>) -> Option<Seq<u8>> {
    match bytes::first_found(s, marker_open()) {
        None => None,
        Some(i) => {
            let rest = s.skip(i + marker_open().len());
            let n = bytes::first_byte(rest, 0x07);
            if n < rest.len() {
                Some(rest.take(n))
            } else {
                None
            }
        },
    }
}

/// The tty that marked bytes name; none where they name nothing.
pub open spec fn named_tty(read: Seq<char>) -> Option<Seq<char>> {
    if read.len() > 0 {
        Some(read)
    } else {
        None
    }
}

/// The tty that the first whole marker in `s` names.
pub open spec fn marker_tty(s: Seq<u8>) -> Option<Seq<char>> {
    match marked(s) {
        Some(b) => named_tty(text::utf8_lossy(b)),
        None => None,
    }
}

/// The bytes inside the first whole marker in `bytes`.
pub fn marker_bytes(bytes: &[u8]) -> (r: Option<Vec<u8>>)
    ensures
        match r {
            Some(b) => marked(bytes@) == Some(b@),
            None => marked(bytes@) is None,
        },
{
    let open: [u8; 19] = [
        0x1b, 0x5d, 0x58, 0x4d, 0x55, 0x58, 0x2d, 0x44, 0x49, 0x53, 0x50, 0x4c, 0x41, 0x59, 0x2d,
        0x54, 0x54, 0x59, 0x3a,
    ];
    proof {
        assert(open@ =~= marker_open());
    }
    match bytes::find(bytes, &open) {
        None => None,
        Some(i) => {
            let total: usize = bytes.len();
            assert(open@.len() == 19);
            let rest = slice_subrange(bytes, i + 19, total);
            proof {
                assert(rest@ =~= bytes@.skip(i + 19));
            }
            let n: usize = bytes::find_byte(rest, 0x07);
            if n < rest.len() {
                let out = bytes::copy(rest, 0, n);
                proof {
                    assert(out@ =~= rest@.take(n as int));
                }
                Some(out)
            } else {
                None
            }
        },
    }
}

/// The tty that marked bytes, read as text, name.
pub fn tty_of(read: String) -> (r: Option<String>)
    ensures
        text::opt_text(r) == named_tty(read@),
{
    if read.as_str().is_empty() {
        None
    } else {
        Some(read)
    }
}

/// The tty that the first whole marker in `bytes` names. Only this program's own
/// attach shell prints the marker, so a tty that stands elsewhere is not taken.
pub fn parse_display_tty_marker(bytes: &[u8]) -> (r: Option<String>)
    ensures
        text::opt_text(r) == marker_tty(bytes@),
{
    match marker_bytes(bytes) {
        Some(b) => tty_of(text::from_utf8_lossy(b.as_slice())),
        None => None,
    }
}

// ---------------------------------------------------------------------------
// Laws of death
// ---------------------------------------------------------------------------

/// A detach of another client, or under another signal, or while no tty is known or
/// the one that is known is empty, is inert.
pub proof fn foreign_detach_is_inert(
    signal: DeathSignal,
    detached: Seq<char>,
    display: Option<Seq<char>>,
)
    requires
        signal != DeathSignal::ControlNotice || display is None || display->0.len() == 0 || display
            != Some(detached),
    ensures
        !is_own_detach(signal, detached, display),
{
}

/// Once a marker is whole, what comes after it does not change what it names.
pub proof fn marker_is_stable(s: Seq<u8>, more: Seq<u8>)
    requires
        marked(s) is Some,
    ensures
        marked(s + more) == marked(s),
{
    let open = marker_open();
    bytes::first_found_least(s, open);
    let i = bytes::first_found(s, open)->0;
    let n = open.len() as int;
    let rest = s.skip(i + n);
    assert(rest.len() == s.len() - i - n);
    bytes::first_byte_bounds(rest, 0x07);
    let k = bytes::first_byte(rest, 0x07);
    let all = s + more;
    assert forall|j: int| 0 <= j && j + n <= s.len() implies bytes::found_at(all, open, j)
        == #[trigger] bytes::found_at(s, open, j) by {
        assert(all.subrange(j, j + n) =~= s.subrange(j, j + n));
    }
    assert(bytes::found_at(s, open, i));
    assert forall|j: int| 0 <= j < i implies !#[trigger] bytes::found_at(all, open, j) by {
        assert(!bytes::found_at(s, open, j));
    }
    bytes::first_found_is(all, open, i);
    let rest2 = all.skip(i + n);
    assert(rest2 =~= rest + more);
    bytes::first_byte_is(rest2, 0x07, k);
    assert(rest2.take(k) =~= rest.take(k));
}

/// A detach under a control notice is this program's own exactly where the client that it
/// names has the tty that is known, and there is one.
pub proof fn own_detach_is_told_by_tty(detached: Seq<char>, tty: Seq<char>)
    requires
        tty.len() > 0,
    ensures
        is_own_detach(DeathSignal::ControlNotice, detached, Some(tty)) <==> detached == tty,
        !is_own_detach(DeathSignal::ControlNotice, detached, None),
{
}

/// The marker opens with an escape, a bracket and the name of this program's marker.
pub proof fn marker_opens_with_its_name()
    ensures
        marker_open() == seq![0x1bu8, 0x5du8] + number::ascii("XMUX-DISPLAY-TTY:"@),
{
    reveal_strlit("XMUX-DISPLAY-TTY:");
    assert(marker_open() =~= seq![0x1bu8, 0x5du8] + number::ascii("XMUX-DISPLAY-TTY:"@));
}

/// A marker is read back wherever it stands, as the bytes between its opening and the bell,
/// and only once the bell has come.
pub proof fn marker_reads_back(before: Seq<u8>, tty: Seq<u8>, after: Seq<u8>)
    requires
        forall|j: int| !#[trigger] bytes::found_at(before, marker_open(), j),
        !tty.contains(0x07),
    ensures
        marked(before) is None,
        marked(before + marker_open() + tty) is None,
        marked(before + marker_open() + tty + seq![0x07u8] + after) == Some(tty),
        marker_tty(before + marker_open() + tty + seq![0x07u8] + after) == if text::utf8_lossy(
            tty,
        ).len() > 0 {
            Some(text::utf8_lossy(tty))
        } else {
            None
        },
{
    let open = marker_open();
    let m = open.len() as int;
    let n = before.len() as int;
    let cut = before + open + tty;
    let whole = before + open + tty + seq![0x07u8] + after;
    bytes::first_found_least(before, open);
    opening_is_first(before, tty);
    opening_is_first(before, tty + seq![0x07u8] + after);
    assert(before + open + (tty + seq![0x07u8] + after) =~= whole);
    assert(cut.skip(n + m) =~= tty);
    let rest = whole.skip(n + m);
    assert(rest =~= tty + seq![0x07u8] + after);
    bytes::first_byte_bounds(tty, 0x07);
    if bytes::first_byte(tty, 0x07) < tty.len() {
        assert(tty.contains(tty[bytes::first_byte(tty, 0x07)]));
    }
    assert forall|j: int| 0 <= j < tty.len() implies rest[j] != 0x07 by {
        assert(tty.contains(tty[j]));
    }
    bytes::first_byte_is(rest, 0x07, tty.len() as int);
    assert(rest.take(tty.len() as int) =~= tty);
}

proof fn opening_is_first(before: Seq<u8>, rest: Seq<u8>)
    requires
        forall|j: int| !#[trigger] bytes::found_at(before, marker_open(), j),
    ensures
        bytes::first_found(before + marker_open() + rest, marker_open()) == Some(
            before.len() as int,
        ),
{
    let open = marker_open();
    assert forall|k: int| 1 <= k < open.len() implies #[trigger] open[k] != open[0] by {}
    bytes::first_found_behind(before, open, rest);
}

/// A session of psmux has its file in the directory `.psmux` below the home directory, under
/// its own name.
pub proof fn port_file_is_named_after_the_session(home: Seq<char>, session: Seq<char>)
    requires
        home.len() > 0,
        home.last() != '/',
        session.len() == 0 || session[0] != '/',
    ensures
        port_path(Some(home), session) == home + "/.psmux/"@ + session + ".port"@,
        registry_dir(Some(home)) == home + "/.psmux"@,
{
    reveal_strlit(".psmux");
    reveal_strlit("/");
    reveal_strlit("/.psmux");
    reveal_strlit("/.psmux/");
    reveal_strlit(".port");
    assert(registry_dir(Some(home)) =~= home + "/.psmux"@);
    let file = session + ".port"@;
    assert(file[0] != '/');
    assert(port_path(Some(home), session) =~= home + "/.psmux/"@ + session + ".port"@);
}

} // verus!
