//! The question that asks a machine for its own name, and the answer to it: DNS messages,
//! sent to the machine itself.
use crate::number;
use crate::provision::ipv4::Ipv4Addr;
use crate::text;
use vstd::prelude::*;

verus! {

/// The port that mDNS listens on.
pub const MDNS_PORT: u16 = 5353;

/// The milliseconds that a machine has to say its name.
pub const ANSWER_TIMEOUT_MS: u64 = 400;

/// The type of a record that points at a name.
pub const POINTER_RECORD: u16 = 12;

/// How many pointers of a name are followed.
pub const MAX_HOPS: usize = 8;

/// A label as it stands in a message: its length, then its bytes.
pub open spec fn label_bytes(label: Seq<char>) -> Seq<u8> {
    seq![label.len() as u8] + number::ascii(label)
}

/// The question for the name of an address: a header with one question and nothing else,
/// the octets backwards below `in-addr.arpa`, and that a pointer of the internet class is
/// asked for.
pub open spec fn question(ip: Ipv4Addr) -> Seq<u8> {
    seq![0u8, 0, 0, 0, 0, 1, 0, 0, 0, 0, 0, 0] + label_bytes(number::decimal(ip.d as nat))
        + label_bytes(number::decimal(ip.c as nat)) + label_bytes(number::decimal(ip.b as nat))
        + label_bytes(number::decimal(ip.a as nat)) + label_bytes("in-addr"@) + label_bytes(
        "arpa"@,
    ) + seq![0u8, 0, 12, 0, 1]
}

/// Appends a label.
fn push_label(out: &mut Vec<u8>, label: &str)
    requires
        label@.len() <= 255,
    ensures
        final(out)@ == old(out)@ + label_bytes(label@),
{
    let cs = text::chars_of(label);
    out.push(cs.len() as u8);
    let mut i: usize = 0;
    proof {
        assert(out@ =~= old(out)@ + label_bytes(label@).take(1));
    }
    while i < cs.len()
        invariant
            cs@ == label@,
            i <= cs@.len(),
            out@ == old(out)@ + label_bytes(label@).take(1 + i),
        decreases cs.len() - i,
    {
        out.push(cs[i] as u8);
        proof {
            assert(label_bytes(label@)[1 + i] == cs@[i as int] as u8);
            assert(out@ =~= old(out)@ + label_bytes(label@).take(2 + i));
        }
        i += 1;
    }
    proof {
        assert(label_bytes(label@).take(1 + i) =~= label_bytes(label@));
    }
}

/// An octet in decimal is short.
proof fn octet_is_short(n: nat)
    requires
        n <= 255,
    ensures
        number::decimal(n).len() <= 3,
{
    reveal_with_fuel(number::decimal, 4);
}

/// The question for the name of an address.
pub fn reverse_question(ip: Ipv4Addr) -> (msg: Vec<u8>)
    ensures
        msg@ == question(ip),
{
    proof {
        octet_is_short(ip.a as nat);
        octet_is_short(ip.b as nat);
        octet_is_short(ip.c as nat);
        octet_is_short(ip.d as nat);
        reveal_strlit("in-addr");
        reveal_strlit("arpa");
    }
    let mut msg: Vec<u8> = vec![0, 0, 0, 0, 0, 1, 0, 0, 0, 0, 0, 0];
    proof {
        assert(msg@ =~= seq![0u8, 0, 0, 0, 0, 1, 0, 0, 0, 0, 0, 0]);
    }
    push_label(&mut msg, number::print(ip.d as u64).as_str());
    push_label(&mut msg, number::print(ip.c as u64).as_str());
    push_label(&mut msg, number::print(ip.b as u64).as_str());
    push_label(&mut msg, number::print(ip.a as u64).as_str());
    push_label(&mut msg, "in-addr");
    push_label(&mut msg, "arpa");
    msg.push(0);
    msg.push(0);
    msg.push(12);
    msg.push(0);
    msg.push(1);
    proof {
        assert(msg@ =~= question(ip));
    }
    msg
}

// ---------------------------------------------------------------------------
// Names in a message
// ---------------------------------------------------------------------------

/// The number that two bytes are.
pub open spec fn pair_at(msg: Seq<u8>, at: int) -> int {
    msg[at] * 0x100 + msg[at + 1]
}

fn pair(msg: &[u8], at: usize) -> (n: usize)
    requires
        at + 1 < msg@.len(),
    ensures
        n == pair_at(msg@, at as int),
{
    msg[at] as usize * 0x100 + msg[at + 1] as usize
}

/// Where the name that begins at a place ends: behind its last label, or behind the
/// pointer that ends it.
pub open spec fn name_end(msg: Seq<u8>, at: int) -> Option<int>
    decreases msg.len() + 0x100 - at,
{
    if !(0 <= at < msg.len()) {
        None
    } else if msg[at] == 0 {
        Some(at + 1)
    } else if msg[at] >= 0xc0 {
        Some(at + 2)
    } else {
        name_end(msg, at + 1 + msg[at])
    }
}

/// The labels of the name that begins at a place, behind those that were read, and the
/// place behind it. A pointer goes on elsewhere in the message, a limited number of times.
pub open spec fn labels_at(msg: Seq<u8>, at: int, hops: int, labels: Seq<Seq<char>>) -> Option<
    (Seq<Seq<char>>, int),
>
    decreases MAX_HOPS - hops, msg.len() - at,
{
    if !(0 <= at < msg.len()) {
        None
    } else if msg[at] == 0 {
        Some((labels, at + 1))
    } else if msg[at] >= 0xc0 {
        if hops >= MAX_HOPS || at + 1 >= msg.len() {
            None
        } else {
            labels_at(msg, (msg[at] - 0xc0) * 0x100 + msg[at + 1], hops + 1, labels)
        }
    } else {
        let end = at + 1 + msg[at];
        if end > msg.len() {
            None
        } else {
            labels_at(
                msg,
                end,
                hops,
                labels.push(text::utf8_lossy(msg.subrange(at + 1, end))),
            )
        }
    }
}

/// The name that begins at a place.
pub open spec fn name_at(msg: Seq<u8>, at: int) -> Option<(Seq<char>, int)> {
    match labels_at(msg, at, 0, Seq::empty()) {
        Some((labels, end)) => Some((text::joined(labels, "."@), end)),
        None => None,
    }
}

/// Where the name that begins at `at` ends. No slice is longer than `isize::MAX`.
pub fn skip_name(msg: &[u8], at: usize) -> (r: Option<usize>)
    requires
        msg@.len() <= isize::MAX,
    ensures
        match r {
            Some(end) => name_end(msg@, at as int) == Some(end as int) && end <= msg@.len() + 1,
            None => name_end(msg@, at as int) is None,
        },
{
    let mut i: usize = at;
    while i < msg.len()
        invariant
            msg@.len() <= isize::MAX,
            name_end(msg@, at as int) == name_end(msg@, i as int),
        decreases msg@.len() + 256 - i,
    {
        let len: usize = msg[i] as usize;
        if len == 0 {
            return Some(i + 1);
        }
        if len >= 0xc0 {
            return Some(i + 2);
        }
        i = i + 1 + len;
    }
    None
}

/// The name that begins at `at`, and the place behind it. No slice is longer than
/// `isize::MAX`.
pub fn read_name(msg: &[u8], at: usize) -> (r: Option<(String, usize)>)
    requires
        msg@.len() <= isize::MAX,
    ensures
        match r {
            Some((name, end)) => name_at(msg@, at as int) == Some((name@, end as int)),
            None => name_at(msg@, at as int) is None,
        },
{
    let mut labels: Vec<String> = Vec::new();
    let mut hops: usize = 0;
    let mut i: usize = at;
    proof {
        assert(text::texts(labels@) =~= Seq::empty());
    }
    while i < msg.len()
        invariant
            msg@.len() <= isize::MAX,
            hops <= MAX_HOPS,
            labels_at(msg@, at as int, 0, Seq::empty()) == labels_at(
                msg@,
                i as int,
                hops as int,
                text::texts(labels@),
            ),
        decreases MAX_HOPS - hops, msg@.len() + 256 - i,
    {
        let len: usize = msg[i] as usize;
        if len == 0 {
            return Some((text::join(&labels, "."), i + 1));
        }
        if len >= 0xc0 {
            if hops >= MAX_HOPS || i + 1 >= msg.len() {
                return None;
            }
            hops += 1;
            i = (len - 0xc0) * 0x100 + msg[i + 1] as usize;
        } else {
            let end: usize = i + 1 + len;
            if end > msg.len() {
                return None;
            }
            let bytes = vstd::slice::slice_subrange(msg, i + 1, end);
            let label = text::from_utf8_lossy(bytes);
            let ghost before = labels@;
            labels.push(label);
            proof {
                text::texts_push(before, label);
            }
            i = end;
        }
    }
    None
}

// ---------------------------------------------------------------------------
// Answers
// ---------------------------------------------------------------------------

/// The place behind `n` questions.
pub open spec fn behind_questions(msg: Seq<u8>, at: int, n: int) -> Option<int>
    decreases n,
{
    if n <= 0 {
        Some(at)
    } else {
        match name_end(msg, at) {
            Some(end) => behind_questions(msg, end + 4, n - 1),
            None => None,
        }
    }
}

/// The name in the first of `n` answers that is a pointer. An answer that the message
/// does not hold in full ends the reading.
pub open spec fn pointer_among(msg: Seq<u8>, at: int, n: int) -> Option<Seq<char>>
    decreases n,
{
    if n <= 0 {
        None
    } else {
        match name_end(msg, at) {
            None => None,
            Some(end) => if end + 10 > msg.len() || end + 10 + pair_at(msg, end + 8) > msg.len() {
                None
            } else if pair_at(msg, end) == POINTER_RECORD {
                match name_at(msg, end + 10) {
                    Some((name, _)) => Some(name),
                    None => None,
                }
            } else {
                pointer_among(msg, end + 10 + pair_at(msg, end + 8), n - 1)
            },
        }
    }
}

/// The name that a message gives: that of its first pointer.
pub open spec fn pointer_in(msg: Seq<u8>) -> Option<Seq<char>> {
    if msg.len() < 12 {
        None
    } else {
        match behind_questions(msg, 12, pair_at(msg, 4)) {
            Some(at) => pointer_among(msg, at, pair_at(msg, 6)),
            None => None,
        }
    }
}

/// The name in the first answer of a message that is a pointer. No slice is longer than
/// `isize::MAX`.
pub fn first_pointer_name(msg: &[u8]) -> (r: Option<String>)
    requires
        msg@.len() <= isize::MAX,
    ensures
        text::opt_text(r) == pointer_in(msg@),
{
    if msg.len() < 12 {
        return None;
    }
    let questions: usize = pair(msg, 4);
    let answers: usize = pair(msg, 6);
    let mut at: usize = 12;
    let mut i: usize = 0;
    while i < questions
        invariant
            msg@.len() <= isize::MAX,
            msg@.len() >= 12,
            i <= questions <= 0xffff,
            questions == pair_at(msg@, 4),
            at <= msg@.len() + 5,
            behind_questions(msg@, 12, pair_at(msg@, 4)) == behind_questions(
                msg@,
                at as int,
                questions - i,
            ),
        decreases questions - i,
    {
        match skip_name(msg, at) {
            Some(end) => {
                at = end + 4;
            },
            None => {
                return None;
            },
        }
        i += 1;
    }
    let ghost from = at as int;
    let mut j: usize = 0;
    while j < answers
        invariant
            msg@.len() <= isize::MAX,
            msg@.len() >= 12,
            j <= answers <= 0xffff,
            answers == pair_at(msg@, 6),
            behind_questions(msg@, 12, pair_at(msg@, 4)) == Some(from),
            pointer_among(msg@, from, answers as int) == pointer_among(
                msg@,
                at as int,
                answers - j,
            ),
        decreases answers - j,
    {
        match skip_name(msg, at) {
            None => {
                return None;
            },
            Some(end) => {
                if end + 10 > msg.len() {
                    return None;
                }
                let kind: usize = pair(msg, end);
                let len: usize = pair(msg, end + 8);
                let data: usize = end + 10;
                if len > msg.len() - data {
                    return None;
                }
                if kind == POINTER_RECORD as usize {
                    return match read_name(msg, data) {
                        Some((name, _)) => Some(name),
                        None => None,
                    };
                }
                at = data + len;
            },
        }
        j += 1;
    }
    None
}

// ---------------------------------------------------------------------------
// Laws
// ---------------------------------------------------------------------------

/// A name that points at itself names nothing; it is not read for ever.
pub proof fn circular_name_ends(msg: Seq<u8>, at: int, hops: int, labels: Seq<Seq<char>>)
    requires
        0 <= at,
        at + 1 < msg.len(),
        msg[at] >= 0xc0,
        (msg[at] - 0xc0) * 0x100 + msg[at + 1] == at,
        0 <= hops <= MAX_HOPS,
    ensures
        labels_at(msg, at, hops, labels) is None,
    decreases MAX_HOPS - hops,
{
    if hops < MAX_HOPS {
        circular_name_ends(msg, at, hops + 1, labels);
    }
}

/// A question gives no name: only an answer does.
pub proof fn question_names_nothing(ip: Ipv4Addr)
    ensures
        pointer_in(question(ip)) is None,
{
    let q = question(ip);
    assert(q[6] == 0 && q[7] == 0);
}

/// A name that is read ends where a skipped one does, where no pointer is in it: reading
/// and skipping agree on what lies behind it.
pub proof fn reading_agrees_with_skipping(
    msg: Seq<u8>,
    at: int,
    labels: Seq<Seq<char>>,
)
    requires
        labels_at(msg, at, MAX_HOPS as int, labels) is Some,
    ensures
        name_end(msg, at) == Some((labels_at(msg, at, MAX_HOPS as int, labels)->0).1),
    decreases msg.len() - at,
{
    if msg[at] != 0 && msg[at] < 0xc0 {
        let end = at + 1 + msg[at];
        reading_agrees_with_skipping(
            msg,
            end,
            labels.push(text::utf8_lossy(msg.subrange(at + 1, end))),
        );
    }
}

/// A name is read label by label: a length, then so many bytes; a zero ends it, and a pointer
/// has it go on at the place that it names.
pub proof fn names_are_read_by_labels(msg: Seq<u8>, at: int, hops: int, labels: Seq<Seq<char>>)
    requires
        0 <= at < msg.len(),
        0 <= hops <= 8,
    ensures
        msg[at] == 0 ==> labels_at(msg, at, hops, labels) == Some((labels, at + 1)),
        0 < msg[at] < 0xc0 && at + 1 + msg[at] <= msg.len() ==> labels_at(msg, at, hops, labels)
            == labels_at(
            msg,
            at + 1 + msg[at],
            hops,
            labels.push(text::utf8_lossy(msg.subrange(at + 1, at + 1 + msg[at]))),
        ),
        0 < msg[at] < 0xc0 && at + 1 + msg[at] > msg.len() ==> labels_at(
            msg,
            at,
            hops,
            labels,
        ) is None,
        msg[at] >= 0xc0 && at + 1 < msg.len() && hops < 8 ==> labels_at(msg, at, hops, labels)
            == labels_at(msg, (msg[at] - 0xc0) * 0x100 + msg[at + 1], hops + 1, labels),
        msg[at] >= 0xc0 && hops == 8 ==> labels_at(msg, at, hops, labels) is None,
{
}

/// A name is skipped up to behind its zero or its pointer.
pub proof fn names_are_skipped_by_labels(msg: Seq<u8>, at: int)
    requires
        0 <= at < msg.len(),
    ensures
        msg[at] == 0 ==> name_end(msg, at) == Some(at + 1),
        msg[at] >= 0xc0 ==> name_end(msg, at) == Some(at + 2),
        0 < msg[at] < 0xc0 ==> name_end(msg, at) == name_end(msg, at + 1 + msg[at]),
{
}

/// An answer that is a pointer gives the name in it; one that is none is passed over, with
/// what it holds.
pub proof fn first_pointer_gives_the_name(msg: Seq<u8>, at: int, n: int)
    requires
        n > 0,
        name_end(msg, at) is Some,
        0 <= name_end(msg, at)->0,
        name_end(msg, at)->0 + 10 <= msg.len(),
    ensures
        ({
            let end = name_end(msg, at)->0;
            let kind = msg[end] * 0x100 + msg[end + 1];
            let next = end + 10 + msg[end + 8] * 0x100 + msg[end + 9];
            &&& next > msg.len() ==> pointer_among(msg, at, n) is None
            &&& next <= msg.len() && kind == 12 ==> pointer_among(msg, at, n) == match labels_at(
                msg,
                end + 10,
                0,
                Seq::empty(),
            ) {
                Some((labels, _)) => Some(text::joined(labels, "."@)),
                None => None,
            }
            &&& next <= msg.len() && kind != 12 ==> pointer_among(msg, at, n) == pointer_among(
                msg,
                next,
                n - 1,
            )
        }),
{
}

/// A message gives the name of its first pointer, behind its questions, of which the header
/// says how many there are, as of its answers.
pub proof fn answers_stand_behind_the_questions(msg: Seq<u8>, at: int)
    requires
        msg.len() >= 12,
    ensures
        msg[4] == 0 && msg[5] == 0 ==> pointer_in(msg) == pointer_among(
            msg,
            12,
            msg[6] * 0x100 + msg[7],
        ),
        msg[4] == 0 && msg[5] == 1 && name_end(msg, 12) == Some(at) ==> pointer_in(msg)
            == pointer_among(msg, at + 4, msg[6] * 0x100 + msg[7]),
        msg[6] == 0 && msg[7] == 0 ==> pointer_in(msg) is None,
{
    reveal_with_fuel(behind_questions, 2);
}

/// A question asks for the octets backwards, each as a label, below `in-addr.arpa`.
pub proof fn question_asks_for_the_octets_backwards(ip: Ipv4Addr)
    ensures
        ({
            let d = number::ascii(number::decimal(ip.d as nat));
            let c = number::ascii(number::decimal(ip.c as nat));
            let b = number::ascii(number::decimal(ip.b as nat));
            let a = number::ascii(number::decimal(ip.a as nat));
            question(ip) == seq![0u8, 0, 0, 0, 0, 1, 0, 0, 0, 0, 0, 0] + (seq![d.len() as u8] + d)
                + (seq![c.len() as u8] + c) + (seq![b.len() as u8] + b) + (seq![a.len() as u8] + a)
                + (seq![7u8] + number::ascii("in-addr"@)) + (seq![4u8] + number::ascii("arpa"@))
                + seq![0u8, 0, 12, 0, 1]
        }),
{
    reveal_strlit("in-addr");
    reveal_strlit("arpa");
}

} // verus!
