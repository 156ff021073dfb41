//! The messages in which the Linux kernel hands out its routes, its own addresses and its
//! neighbours. They are packed and read as bytes: fixed widths, in the byte order of the
//! machine.
use crate::bytes;
use crate::provision::ipv4::{Ipv4Addr, RoutePrefix};
use crate::provision::neighbor::{Neighbor, NeighborView};
use crate::text;
use vstd::prelude::*;
use vstd::slice::slice_subrange;

verus! {

/// The kind of a request for the routes, and of the messages that answer it.
pub const RTM_GETROUTE: u16 = 26;

pub const RTM_NEWROUTE: u16 = 24;

/// The kind of a request for the neighbours, and of the messages that answer it.
pub const RTM_GETNEIGH: u16 = 30;

pub const RTM_NEWNEIGH: u16 = 28;

/// The kind of a request for the addresses of this machine, and of the messages that
/// answer it.
pub const RTM_GETADDR: u16 = 22;

pub const RTM_NEWADDR: u16 = 20;

/// The kind of a message that reports an error, and of the last one.
pub const NLMSG_ERROR: u16 = 2;

pub const NLMSG_DONE: u16 = 3;

/// The flags of a request for a whole table.
pub const DUMP_FLAGS: u16 = 0x301;

/// The family of IPv4.
pub const AF_INET: u8 = 2;

/// The attributes that are read.
pub const RTA_DST: u16 = 1;

pub const NDA_DST: u16 = 1;

pub const NDA_LLADDR: u16 = 2;

pub const IFA_ADDRESS: u16 = 1;

pub const IFA_LOCAL: u16 = 2;

/// The length of the header of a message.
pub const NLMSGHDR: usize = 16;

/// The lengths of the fixed bodies.
pub const RTMSG: usize = 12;

pub const NDMSG: usize = 12;

pub const IFADDRMSG: usize = 8;

/// The seconds that the kernel has to answer.
pub const REPLY_TIMEOUT_SECS: u64 = 3;

// ---------------------------------------------------------------------------
// Numbers
// ---------------------------------------------------------------------------

/// The order in which the bytes of a number stand.
#[derive(Clone, Copy, Debug, PartialEq, Eq, Structural)]
pub enum ByteOrder {
    Little,
    Big,
}

/// The number that two bytes are.
pub open spec fn number16(x: u8, y: u8, order: ByteOrder) -> int {
    match order {
        ByteOrder::Little => x + y * 0x100,
        ByteOrder::Big => x * 0x100 + y,
    }
}

/// The number that the four bytes from a place on are.
pub open spec fn number32(b: Seq<u8>, at: int, order: ByteOrder) -> int {
    match order {
        ByteOrder::Little => number16(b[at], b[at + 1], order) + number16(
            b[at + 2],
            b[at + 3],
            order,
        ) * 0x1_0000,
        ByteOrder::Big => number16(b[at], b[at + 1], order) * 0x1_0000 + number16(
            b[at + 2],
            b[at + 3],
            order,
        ),
    }
}

/// The two bytes of a number.
pub open spec fn bytes16(n: int, order: ByteOrder) -> Seq<u8> {
    match order {
        ByteOrder::Little => seq![(n % 0x100) as u8, (n / 0x100) as u8],
        ByteOrder::Big => seq![(n / 0x100) as u8, (n % 0x100) as u8],
    }
}

/// The four bytes of a number.
pub open spec fn bytes32(n: int, order: ByteOrder) -> Seq<u8> {
    match order {
        ByteOrder::Little => bytes16(n % 0x1_0000, order) + bytes16(n / 0x1_0000, order),
        ByteOrder::Big => bytes16(n / 0x1_0000, order) + bytes16(n % 0x1_0000, order),
    }
}

fn read16(b: &[u8], at: usize, order: ByteOrder) -> (n: u16)
    requires
        at + 1 < b@.len(),
    ensures
        n == number16(b@[at as int], b@[at + 1], order),
{
    let x: u16 = b[at] as u16;
    let y: u16 = b[at + 1] as u16;
    match order {
        ByteOrder::Little => x + y * 0x100,
        ByteOrder::Big => x * 0x100 + y,
    }
}

fn read32(b: &[u8], at: usize, order: ByteOrder) -> (n: u32)
    requires
        at + 3 < b@.len(),
    ensures
        n == number32(b@, at as int, order),
{
    let rest = slice_subrange(b, at, b.len());
    let x: u32 = read16(rest, 0, order) as u32;
    let y: u32 = read16(rest, 2, order) as u32;
    match order {
        ByteOrder::Little => x + y * 0x1_0000,
        ByteOrder::Big => x * 0x1_0000 + y,
    }
}

fn push16(out: &mut Vec<u8>, n: u16, order: ByteOrder)
    ensures
        final(out)@ == old(out)@ + bytes16(n as int, order),
{
    match order {
        ByteOrder::Little => {
            out.push((n % 0x100) as u8);
            out.push((n / 0x100) as u8);
        },
        ByteOrder::Big => {
            out.push((n / 0x100) as u8);
            out.push((n % 0x100) as u8);
        },
    }
    proof {
        assert(out@ =~= old(out)@ + bytes16(n as int, order));
    }
}

fn push32(out: &mut Vec<u8>, n: u32, order: ByteOrder)
    ensures
        final(out)@ == old(out)@ + bytes32(n as int, order),
{
    match order {
        ByteOrder::Little => {
            push16(out, (n % 0x1_0000) as u16, order);
            push16(out, (n / 0x1_0000) as u16, order);
        },
        ByteOrder::Big => {
            push16(out, (n / 0x1_0000) as u16, order);
            push16(out, (n % 0x1_0000) as u16, order);
        },
    }
    proof {
        assert(out@ =~= old(out)@ + bytes32(n as int, order));
    }
}

/// A length, rounded up to four bytes.
pub open spec fn aligned(len: int) -> int {
    (len + 3) / 4 * 4
}

/// A length, rounded up to four bytes, as those of messages and attributes are.
pub fn align4(len: usize) -> (n: usize)
    requires
        len + 3 <= usize::MAX,
    ensures
        n == aligned(len as int),
        len <= n < len + 4,
{
    (len + 3) / 4 * 4
}

// ---------------------------------------------------------------------------
// Requests
// ---------------------------------------------------------------------------

/// A request for a table: the header, and the body, which begins with the family.
pub open spec fn request_bytes(kind: u16, body_len: nat, order: ByteOrder) -> Seq<u8> {
    bytes32((NLMSGHDR + body_len) as int, order) + bytes16(kind as int, order) + bytes16(
        DUMP_FLAGS as int,
        order,
    ) + bytes32(1, order) + bytes32(0, order) + Seq::new(
        body_len,
        |i: int|
            if i == 0 {
                AF_INET
            } else {
                0u8
            },
    )
}

/// A request for a table of IPv4 entries, whose fixed body has this length.
pub fn dump_request(kind: u16, body_len: usize, order: ByteOrder) -> (msg: Vec<u8>)
    requires
        0 < body_len <= 0xffff,
    ensures
        msg@ == request_bytes(kind, body_len as nat, order),
{
    let mut msg: Vec<u8> = Vec::new();
    push32(&mut msg, (NLMSGHDR + body_len) as u32, order);
    push16(&mut msg, kind, order);
    push16(&mut msg, DUMP_FLAGS, order);
    push32(&mut msg, 1, order);
    push32(&mut msg, 0, order);
    let ghost header = msg@;
    msg.push(AF_INET);
    let mut i: usize = 1;
    while i < body_len
        invariant
            1 <= i <= body_len,
            msg@.len() == header.len() + i,
            forall|j: int| 0 <= j < header.len() ==> msg@[j] == header[j],
            msg@[header.len() as int] == AF_INET,
            forall|j: int| header.len() < j < header.len() + i ==> msg@[j] == 0,
        decreases body_len - i,
    {
        msg.push(0);
        i += 1;
    }
    proof {
        assert(header =~= bytes32((NLMSGHDR + body_len) as int, order) + bytes16(
            kind as int,
            order,
        ) + bytes16(DUMP_FLAGS as int, order) + bytes32(1, order) + bytes32(0, order));
        assert(msg@ =~= request_bytes(kind, body_len as nat, order));
    }
    msg
}

// ---------------------------------------------------------------------------
// Replies
// ---------------------------------------------------------------------------

/// How the messages of a reply end.
#[derive(Clone, Copy, Debug, PartialEq, Eq, Structural)]
pub enum ReplyEnd {
    /// More is to be received.
    More,
    /// The table is complete.
    Done,
    /// The kernel refused, with this error number.
    Refused(i32),
}

/// The number that a negative error code stands for: its own, with the sign turned.
pub open spec fn refusal(code: int) -> int {
    if code == 0x8000_0000 {
        i32::MIN as int
    } else if code > 0x8000_0000 {
        0x1_0000_0000 - code
    } else {
        -code
    }
}

/// How a reply goes on from a place: the bodies of the messages of the kind that is
/// wanted, behind those that were found, and how it ends. A message that does not fit
/// into what was received ends the reading.
pub open spec fn reply_from(
    buf: Seq<u8>,
    at: int,
    want: u16,
    order: ByteOrder,
    bodies: Seq<Seq<u8>>,
) -> (Seq<Seq<u8>>, ReplyEnd)
    decreases buf.len() + 3 - at,
{
    if at < 0 || at + NLMSGHDR > buf.len() {
        (bodies, ReplyEnd::More)
    } else {
        let len = number32(buf, at, order);
        let kind = number16(buf[at + 4], buf[at + 5], order);
        if len < NLMSGHDR || at + len > buf.len() || kind == NLMSG_DONE {
            (bodies, ReplyEnd::Done)
        } else if kind == NLMSG_ERROR {
            if at + NLMSGHDR + 4 > buf.len() || number32(buf, at + NLMSGHDR, order) == 0 {
                (bodies, ReplyEnd::Done)
            } else {
                (
                    bodies,
                    ReplyEnd::Refused(refusal(number32(buf, at + NLMSGHDR, order)) as i32),
                )
            }
        } else {
            reply_from(
                buf,
                at + aligned(len),
                want,
                order,
                if kind == want {
                    bodies.push(buf.subrange(at + NLMSGHDR, at + len))
                } else {
                    bodies
                },
            )
        }
    }
}

/// Byte strings as sequences.
pub open spec fn byte_seqs(v: Seq<Vec<u8>>) -> Seq<Seq<u8>> {
    v.map_values(|b: Vec<u8>| b@)
}

/// The bodies of the wanted messages in what was received, and how it ends. No slice is
/// longer than `isize::MAX`.
pub fn read_reply(buf: &[u8], want: u16, order: ByteOrder) -> (r: (Vec<Vec<u8>>, ReplyEnd))
    requires
        buf@.len() <= isize::MAX,
    ensures
        (byte_seqs(r.0@), r.1) == reply_from(buf@, 0, want, order, Seq::empty()),
{
    let mut bodies: Vec<Vec<u8>> = Vec::new();
    let mut at: usize = 0;
    let n: usize = buf.len();
    proof {
        assert(byte_seqs(bodies@) =~= Seq::empty());
    }
    while at <= n && n - at >= NLMSGHDR
        invariant
            n == buf@.len(),
            n <= isize::MAX,
            at <= n + 3,
            reply_from(buf@, 0, want, order, Seq::empty()) == reply_from(
                buf@,
                at as int,
                want,
                order,
                byte_seqs(bodies@),
            ),
        decreases n + 3 - at,
    {
        let len: u32 = read32(buf, at, order);
        let kind: u16 = read16(buf, at + 4, order);
        if (len as u64) < NLMSGHDR as u64 || len as u64 > (n - at) as u64 || kind == NLMSG_DONE {
            return (bodies, ReplyEnd::Done);
        }
        let len: usize = len as usize;
        if kind == NLMSG_ERROR {
            if n - at < NLMSGHDR + 4 {
                return (bodies, ReplyEnd::Done);
            }
            let code: u32 = read32(buf, at + NLMSGHDR, order);
            if code == 0 {
                return (bodies, ReplyEnd::Done);
            }
            let e: i32 = if code == 0x8000_0000 {
                i32::MIN
            } else if code > 0x8000_0000 {
                (0x1_0000_0000 - code as i64) as i32
            } else {
                (-(code as i64)) as i32
            };
            return (bodies, ReplyEnd::Refused(e));
        }
        if kind == want {
            let ghost before = bodies@;
            let body = bytes::copy(buf, at + NLMSGHDR, at + len);
            bodies.push(body);
            proof {
                assert(byte_seqs(bodies@) =~= byte_seqs(before).push(body@));
            }
        }
        at = at + align4(len);
    }
    (bodies, ReplyEnd::More)
}

// ---------------------------------------------------------------------------
// Attributes
// ---------------------------------------------------------------------------

/// An attribute of a message: its type and its value.
#[derive(Clone, Debug, PartialEq, Eq)]
pub struct Attribute {
    pub kind: u16,
    pub value: Vec<u8>,
}

impl View for Attribute {
    type V = (u16, Seq<u8>);

    open spec fn view(&self) -> (u16, Seq<u8>) {
        (self.kind, self.value@)
    }
}

/// The views of a sequence of attributes.
pub open spec fn attribute_views(v: Seq<Attribute>) -> Seq<(u16, Seq<u8>)> {
    v.map_values(|a: Attribute| a@)
}

/// The lesser of two numbers.
pub open spec fn least(a: int, b: int) -> int {
    if a < b {
        a
    } else {
        b
    }
}

/// The attributes that stand one behind the other, up to one whose length cannot be.
pub open spec fn attributes_in(b: Seq<u8>, order: ByteOrder) -> Seq<(u16, Seq<u8>)>
    decreases b.len(),
{
    if b.len() < 4 {
        Seq::empty()
    } else {
        let len = number16(b[0], b[1], order);
        if len < 4 || len > b.len() {
            Seq::empty()
        } else {
            seq![(number16(b[2], b[3], order) as u16, b.subrange(4, len))] + attributes_in(
                b.skip(least(aligned(len), b.len() as int)),
                order,
            )
        }
    }
}

/// The attributes behind the fixed body of a message.
pub fn attributes(rest: &[u8], order: ByteOrder) -> (out: Vec<Attribute>)
    ensures
        attribute_views(out@) == attributes_in(rest@, order),
{
    let mut out: Vec<Attribute> = Vec::new();
    let mut at: usize = 0;
    let n: usize = rest.len();
    proof {
        assert(rest@.skip(0) =~= rest@);
        assert(attribute_views(out@) + attributes_in(rest@, order) =~= attributes_in(rest@, order));
    }
    while n - at >= 4
        invariant
            n == rest@.len(),
            at <= n,
            attributes_in(rest@, order) == attribute_views(out@) + attributes_in(
                rest@.skip(at as int),
                order,
            ),
        decreases n - at,
    {
        let ghost here = rest@.skip(at as int);
        let len: usize = read16(rest, at, order) as usize;
        let kind: u16 = read16(rest, at + 2, order);
        proof {
            assert(here[0] == rest@[at as int] && here[1] == rest@[at + 1]);
            assert(here[2] == rest@[at + 2] && here[3] == rest@[at + 3]);
        }
        if len < 4 || len > n - at {
            proof {
                assert(attributes_in(here, order) =~= Seq::empty());
                assert(attribute_views(out@) + Seq::<(u16, Seq<u8>)>::empty() =~= attribute_views(
                    out@,
                ));
            }
            return out;
        }
        let ghost before = out@;
        let a = Attribute { kind, value: bytes::copy(rest, at + 4, at + len) };
        out.push(a);
        let step: usize = align4(len);
        let step: usize = if step < n - at {
            step
        } else {
            n - at
        };
        proof {
            assert(a.value@ =~= here.subrange(4, len as int));
            assert(attribute_views(out@) =~= attribute_views(before).push(a@));
            assert(here.skip(step as int) =~= rest@.skip(at + step));
            let more = attributes_in(here.skip(step as int), order);
            assert(attribute_views(before) + (seq![a@] + more) =~= attribute_views(out@) + more);
        }
        at = at + step;
    }
    proof {
        assert(attributes_in(rest@.skip(at as int), order) =~= Seq::empty());
        assert(attribute_views(out@) + Seq::<(u16, Seq<u8>)>::empty() =~= attribute_views(out@));
    }
    out
}

/// The address that four bytes are.
pub open spec fn address_of_bytes(b: Seq<u8>) -> Option<Ipv4Addr> {
    if b.len() == 4 {
        Some(Ipv4Addr { a: b[0], b: b[1], c: b[2], d: b[3] })
    } else {
        None
    }
}

/// The address that four bytes are.
pub fn addr4(val: &[u8]) -> (r: Option<Ipv4Addr>)
    ensures
        r == address_of_bytes(val@),
{
    if val.len() == 4 {
        Some(Ipv4Addr::new(val[0], val[1], val[2], val[3]))
    } else {
        None
    }
}

/// A hexadecimal digit.
pub open spec fn hex_digit(n: int) -> char {
    if n < 10 {
        ('0' as int + n) as char
    } else {
        ('a' as int + n - 10) as char
    }
}

/// A byte as two hexadecimal digits.
pub open spec fn hex_byte(b: u8) -> Seq<char> {
    seq![hex_digit(b as int / 16), hex_digit(b as int % 16)]
}

/// Six bytes as a hardware address.
pub open spec fn mac_of(b: Seq<u8>) -> Option<Seq<char>> {
    if b.len() == 6 {
        Some(text::joined(b.map_values(|x: u8| hex_byte(x)), ":"@))
    } else {
        None
    }
}

fn digit_of(n: u8) -> (c: char)
    requires
        n < 16,
    ensures
        c == hex_digit(n as int),
{
    if n < 10 {
        (0x30 + n) as char
    } else {
        (0x61 + (n - 10)) as char
    }
}

/// Six bytes as a hardware address; `None` for any other length.
pub fn mac_string(val: &[u8]) -> (r: Option<String>)
    ensures
        text::opt_text(r) == mac_of(val@),
{
    if val.len() != 6 {
        return None;
    }
    let mut parts: Vec<String> = Vec::new();
    let ghost goal = val@.map_values(|x: u8| hex_byte(x));
    let mut i: usize = 0;
    while i < val.len()
        invariant
            i <= val@.len(),
            goal == val@.map_values(|x: u8| hex_byte(x)),
            text::texts(parts@) == goal.take(i as int),
        decreases val.len() - i,
    {
        let mut s = String::new();
        s.push(digit_of(val[i] / 16));
        s.push(digit_of(val[i] % 16));
        let ghost before = parts@;
        parts.push(s);
        proof {
            assert(s@ =~= hex_byte(val@[i as int]));
            text::texts_push(before, s);
            assert(text::texts(parts@) =~= goal.take(i + 1));
        }
        i += 1;
    }
    proof {
        assert(goal.take(i as int) =~= goal);
    }
    Some(text::join(&parts, ":"))
}

/// The value of the last attribute of a type.
pub open spec fn last_value(v: Seq<(u16, Seq<u8>)>, kind: u16) -> Option<Seq<u8>>
    decreases v.len(),
{
    if v.len() == 0 {
        None
    } else if v.last().0 == kind {
        Some(v.last().1)
    } else {
        last_value(v.drop_last(), kind)
    }
}

fn find_last(v: &Vec<Attribute>, kind: u16) -> (r: Option<usize>)
    ensures
        match r {
            Some(i) => i < v@.len() && last_value(attribute_views(v@), kind) == Some(
                v@[i as int].value@,
            ),
            None => last_value(attribute_views(v@), kind) is None,
        },
{
    let ghost all = attribute_views(v@);
    let mut n: usize = v.len();
    proof {
        assert(all.take(n as int) =~= all);
    }
    while n > 0
        invariant
            n <= v@.len(),
            all == attribute_views(v@),
            last_value(all, kind) == last_value(all.take(n as int), kind),
        decreases n,
    {
        proof {
            let head = all.take(n as int);
            assert(head.last() == v@[n - 1]@);
            assert(head.drop_last() =~= all.take(n - 1));
        }
        if v[n - 1].kind == kind {
            return Some(n - 1);
        }
        n -= 1;
    }
    None
}

/// The address that the last attribute of a type holds.
pub open spec fn address_under(v: Seq<(u16, Seq<u8>)>, kind: u16) -> Option<Ipv4Addr> {
    match last_value(v, kind) {
        Some(b) => address_of_bytes(b),
        None => None,
    }
}

fn find_address(v: &Vec<Attribute>, kind: u16) -> (r: Option<Ipv4Addr>)
    ensures
        r == address_under(attribute_views(v@), kind),
{
    match find_last(v, kind) {
        Some(i) => addr4(v[i].value.as_slice()),
        None => None,
    }
}

// ---------------------------------------------------------------------------
// Messages
// ---------------------------------------------------------------------------

/// The destinations among attributes.
pub open spec fn destinations(v: Seq<(u16, Seq<u8>)>, len: u8) -> Seq<RoutePrefix>
    decreases v.len(),
{
    if v.len() == 0 {
        Seq::empty()
    } else {
        let rest = destinations(v.drop_last(), len);
        if v.last().0 == RTA_DST && address_of_bytes(v.last().1) is Some {
            rest.push(RoutePrefix { dst: address_of_bytes(v.last().1)->0, len })
        } else {
            rest
        }
    }
}

/// The destinations that a route message names: those of its attributes, where it is one
/// of IPv4.
pub fn route_of_message(msg: &[u8], order: ByteOrder) -> (out: Vec<RoutePrefix>)
    requires
        msg@.len() >= RTMSG,
    ensures
        out@ == if msg@[0] == AF_INET {
            destinations(attributes_in(msg@.skip(RTMSG as int), order), msg@[1])
        } else {
            Seq::empty()
        },
{
    let mut out: Vec<RoutePrefix> = Vec::new();
    if msg[0] != AF_INET {
        return out;
    }
    let len: u8 = msg[1];
    let rest = slice_subrange(msg, RTMSG, msg.len());
    proof {
        assert(rest@ =~= msg@.skip(RTMSG as int));
    }
    let v = attributes(rest, order);
    let ghost all = attribute_views(v@);
    let mut i: usize = 0;
    proof {
        assert(out@ =~= destinations(all.take(0), len));
    }
    while i < v.len()
        invariant
            i <= v@.len(),
            all == attribute_views(v@),
            out@ == destinations(all.take(i as int), len),
        decreases v.len() - i,
    {
        proof {
            let head = all.take(i + 1);
            assert(head.last() == v@[i as int]@);
            assert(head.drop_last() =~= all.take(i as int));
        }
        if v[i].kind == RTA_DST {
            if let Some(dst) = addr4(v[i].value.as_slice()) {
                out.push(RoutePrefix { dst, len });
            }
        }
        i += 1;
    }
    proof {
        assert(all.take(i as int) =~= all);
    }
    out
}

/// The address of this machine that an address message names, with the length of its
/// link's prefix. On a link from point to point the one attribute is the far end, so that
/// of the near one comes first.
pub fn address_of_message(msg: &[u8], order: ByteOrder) -> (r: Option<RoutePrefix>)
    requires
        msg@.len() >= IFADDRMSG,
    ensures
        ({
            let v = attributes_in(msg@.skip(IFADDRMSG as int), order);
            let own = match address_under(v, IFA_LOCAL) {
                Some(ip) => Some(ip),
                None => address_under(v, IFA_ADDRESS),
            };
            r == match own {
                Some(dst) => if msg@[0] == AF_INET {
                    Some(RoutePrefix { dst, len: msg@[1] })
                } else {
                    None
                },
                None => None,
            }
        }),
{
    if msg[0] != AF_INET {
        return None;
    }
    let rest = slice_subrange(msg, IFADDRMSG, msg.len());
    proof {
        assert(rest@ =~= msg@.skip(IFADDRMSG as int));
    }
    let v = attributes(rest, order);
    let own = match find_address(&v, IFA_LOCAL) {
        Some(ip) => Some(ip),
        None => find_address(&v, IFA_ADDRESS),
    };
    match own {
        Some(dst) => Some(RoutePrefix { dst, len: msg[1] }),
        None => None,
    }
}

/// Whether a state is one of a lookup that failed, or never completed.
pub open spec fn lookup_failed(state: int) -> bool {
    state % 2 == 1 || state / 32 % 2 == 1
}

/// The neighbour that a message names: with the hardware address that answered, where the
/// lookup did not fail.
pub fn neighbor_of_message(msg: &[u8], order: ByteOrder) -> (r: Option<Neighbor>)
    requires
        msg@.len() >= NDMSG,
    ensures
        ({
            let v = attributes_in(msg@.skip(NDMSG as int), order);
            let dead = lookup_failed(number16(msg@[8], msg@[9], order));
            match address_under(v, NDA_DST) {
                Some(ip) => r matches Some(n) && n@ == (NeighborView {
                    ip,
                    mac: if dead {
                        None
                    } else {
                        match last_value(v, NDA_LLADDR) {
                            Some(b) => mac_of(b),
                            None => None,
                        }
                    },
                }),
                None => r is None,
            }
        }),
{
    let state: u16 = read16(msg, 8, order);
    let dead = state % 2 == 1 || state / 32 % 2 == 1;
    let rest = slice_subrange(msg, NDMSG, msg.len());
    proof {
        assert(rest@ =~= msg@.skip(NDMSG as int));
    }
    let v = attributes(rest, order);
    match find_address(&v, NDA_DST) {
        Some(ip) => {
            let mac = if dead {
                None
            } else {
                match find_last(&v, NDA_LLADDR) {
                    Some(i) => mac_string(v[i].value.as_slice()),
                    None => None,
                }
            };
            Some(Neighbor { ip, mac })
        },
        None => None,
    }
}

// ---------------------------------------------------------------------------
// Laws
// ---------------------------------------------------------------------------

/// An attribute as it stands in a message, filled up to four bytes.
pub open spec fn attribute_bytes(kind: u16, value: Seq<u8>, order: ByteOrder) -> Seq<u8> {
    let len = 4 + value.len();
    bytes16(len as int, order) + bytes16(kind as int, order) + value + Seq::new(
        (aligned(len as int) - len) as nat,
        |i: int| 0u8,
    )
}

/// The two bytes of a number read back as the number.
pub proof fn number_reads_back(n: u16, order: ByteOrder)
    ensures
        bytes16(n as int, order).len() == 2,
        number16(bytes16(n as int, order)[0], bytes16(n as int, order)[1], order) == n,
{
}

/// An attribute that was written is read back, and what follows it is read next.
pub proof fn attribute_reads_back(
    kind: u16,
    value: Seq<u8>,
    rest: Seq<u8>,
    order: ByteOrder,
)
    requires
        value.len() + 4 <= 0xffff,
    ensures
        attributes_in(attribute_bytes(kind, value, order) + rest, order) == seq![(kind, value)]
            + attributes_in(rest, order),
{
    let len = 4 + value.len();
    let one = attribute_bytes(kind, value, order);
    let b = one + rest;
    number_reads_back(len as u16, order);
    number_reads_back(kind, order);
    let head = bytes16(len as int, order) + bytes16(kind as int, order);
    assert(b[0] == head[0] && b[1] == head[1] && b[2] == head[2] && b[3] == head[3]);
    assert(one.len() == aligned(len as int));
    assert(b.subrange(4, len as int) =~= value);
    assert(b.skip(aligned(len as int)) =~= rest);
}

/// A request says its own length.
pub proof fn request_says_its_length(kind: u16, body_len: nat, order: ByteOrder)
    requires
        body_len <= 0xffff,
    ensures
        request_bytes(kind, body_len, order).len() == NLMSGHDR + body_len,
        number32(request_bytes(kind, body_len, order), 0, order) == NLMSGHDR + body_len,
{
    let n = NLMSGHDR + body_len;
    let r = request_bytes(kind, body_len, order);
    let four = bytes32(n as int, order);
    assert(r[0] == four[0] && r[1] == four[1] && r[2] == four[2] && r[3] == four[3]);
    number_reads_back((n % 0x1_0000) as u16, order);
    number_reads_back((n / 0x1_0000) as u16, order);
}

/// The bytes of a number stand as the order says: the least first, or the greatest.
pub proof fn orders_are_told_by_the_first_byte(b: Seq<u8>, at: int)
    requires
        0 <= at,
        at + 4 <= b.len(),
    ensures
        number16(b[at], b[at + 1], ByteOrder::Little) == b[at] + 0x100 * b[at + 1],
        number16(b[at], b[at + 1], ByteOrder::Big) == 0x100 * b[at] + b[at + 1],
        number32(b, at, ByteOrder::Little) == b[at] + 0x100 * b[at + 1] + 0x1_0000 * b[at + 2]
            + 0x100_0000 * b[at + 3],
        number32(b, at, ByteOrder::Big) == 0x100_0000 * b[at] + 0x1_0000 * b[at + 1] + 0x100 * b[at
            + 2] + b[at + 3],
{
}

/// A request asks for a whole table of the internet family: its kind, that it is a request
/// for a dump, and the family stand where the kernel looks for them.
pub proof fn request_asks_for_the_table(kind: u16, body_len: nat, order: ByteOrder)
    requires
        0 < body_len <= 0xffff,
    ensures
        ({
            let r = request_bytes(kind, body_len, order);
            &&& number16(r[4], r[5], order) == kind
            &&& number16(r[6], r[7], order) == 0x301
            &&& number32(r, 8, order) == 1
            &&& r[16] == 2
            &&& forall|i: int| 16 < i < r.len() ==> #[trigger] r[i] == 0
        }),
{
    let r = request_bytes(kind, body_len, order);
    let k = bytes16(kind as int, order);
    let f = bytes16(0x301, order);
    let one = bytes32(1, order);
    number_reads_back(kind, order);
    number_reads_back(0x301, order);
    number_reads_back(1, order);
    number_reads_back(0, order);
    assert(r[4] == k[0] && r[5] == k[1]);
    assert(r[6] == f[0] && r[7] == f[1]);
    assert(r[8] == one[0] && r[9] == one[1] && r[10] == one[2] && r[11] == one[3]);
}

/// A reply is read message by message: one of the kind that is wanted adds its body, one of
/// another kind nothing, and the next begins at the next multiple of four.
pub proof fn reply_is_read_by_messages(
    buf: Seq<u8>,
    at: int,
    want: u16,
    order: ByteOrder,
    bodies: Seq<Seq<u8>>,
)
    requires
        0 <= at,
        at + 16 <= buf.len(),
        16 <= number32(buf, at, order),
        at + number32(buf, at, order) <= buf.len(),
        number16(buf[at + 4], buf[at + 5], order) != 2,
        number16(buf[at + 4], buf[at + 5], order) != 3,
    ensures
        ({
            let len = number32(buf, at, order);
            let next = at + (len + 3) / 4 * 4;
            &&& number16(buf[at + 4], buf[at + 5], order) == want ==> reply_from(
                buf,
                at,
                want,
                order,
                bodies,
            ) == reply_from(buf, next, want, order, bodies.push(buf.subrange(at + 16, at + len)))
            &&& number16(buf[at + 4], buf[at + 5], order) != want ==> reply_from(
                buf,
                at,
                want,
                order,
                bodies,
            ) == reply_from(buf, next, want, order, bodies)
        }),
{
}

/// A reply ends where the kernel says so, where it refuses, with the number of its error, and
/// where a message does not fit; it goes on where nothing is left of what was received.
pub proof fn reply_ends_as_the_kernel_says(
    buf: Seq<u8>,
    at: int,
    want: u16,
    order: ByteOrder,
    bodies: Seq<Seq<u8>>,
    errno: int,
)
    requires
        0 <= at,
        0 < errno < 0x8000_0000,
    ensures
        at + 16 > buf.len() ==> reply_from(buf, at, want, order, bodies) == (
            bodies,
            ReplyEnd::More,
        ),
        at + 16 <= buf.len() && (number32(buf, at, order) < 16 || at + number32(buf, at, order)
            > buf.len() || number16(buf[at + 4], buf[at + 5], order) == 3) ==> reply_from(
            buf,
            at,
            want,
            order,
            bodies,
        ) == (bodies, ReplyEnd::Done),
        at + 20 <= buf.len() && 20 <= number32(buf, at, order) && at + number32(buf, at, order)
            <= buf.len() && number16(buf[at + 4], buf[at + 5], order) == 2 && number32(
            buf,
            at + 16,
            order,
        ) == 0x1_0000_0000 - errno ==> reply_from(buf, at, want, order, bodies) == (
            bodies,
            ReplyEnd::Refused(errno as i32),
        ),
        at + 20 <= buf.len() && 20 <= number32(buf, at, order) && at + number32(buf, at, order)
            <= buf.len() && number16(buf[at + 4], buf[at + 5], order) == 2 && number32(
            buf,
            at + 16,
            order,
        ) == 0 ==> reply_from(buf, at, want, order, bodies) == (bodies, ReplyEnd::Done),
{
}

/// Four bytes are an address, octet by octet, and no other number of bytes is one.
pub proof fn four_bytes_are_an_address(b: Seq<u8>)
    ensures
        address_of_bytes(b) is Some <==> b.len() == 4,
        b.len() == 4 ==> {
            let ip = address_of_bytes(b)->0;
            ip.a == b[0] && ip.b == b[1] && ip.c == b[2] && ip.d == b[3]
        },
{
}

/// A byte is written as two hexadecimal digits in lower case, which read back as it.
pub proof fn hex_reads_back(b: u8)
    ensures
        hex_byte(b).len() == 2,
        hex_value(hex_byte(b)[0]) * 16 + hex_value(hex_byte(b)[1]) == b,
        forall|i: int|
            0 <= i < 2 ==> ('0' <= #[trigger] hex_byte(b)[i] <= '9') || ('a' <= hex_byte(b)[i]
                <= 'f'),
{
    let x = b as int / 16;
    let y = b as int % 16;
    assert(0 <= x < 16 && 0 <= y < 16);
    assert(x * 16 + y == b);
    assert(hex_byte(b)[0] == hex_digit(x));
    assert(hex_byte(b)[1] == hex_digit(y));
    assert(hex_value(hex_digit(x)) == x);
    assert(hex_value(hex_digit(y)) == y);
}

/// What a hexadecimal digit in lower case stands for.
pub open spec fn hex_value(c: char) -> int {
    if '0' <= c <= '9' {
        c as int - '0' as int
    } else {
        c as int - 'a' as int + 10
    }
}

/// Six bytes are a hardware address, written one after the other with colons between them,
/// and no other number of bytes is one.
pub proof fn six_bytes_are_a_hardware_address(b: Seq<u8>)
    ensures
        mac_of(b) is Some <==> b.len() == 6,
        b.len() == 6 ==> mac_of(b) == Some(
            hex_byte(b[0]) + ":"@ + hex_byte(b[1]) + ":"@ + hex_byte(b[2]) + ":"@ + hex_byte(b[3])
                + ":"@ + hex_byte(b[4]) + ":"@ + hex_byte(b[5]),
        ),
{
    if b.len() == 6 {
        let v = b.map_values(|x: u8| hex_byte(x));
        reveal_with_fuel(text::joined, 7);
        let v5 = v.drop_last();
        let v4 = v5.drop_last();
        let v3 = v4.drop_last();
        let v2 = v3.drop_last();
        let v1 = v2.drop_last();
        assert(text::joined(v1, ":"@) == hex_byte(b[0]));
        assert(text::joined(v2, ":"@) == text::joined(v1, ":"@) + ":"@ + hex_byte(b[1]));
        assert(text::joined(v3, ":"@) == text::joined(v2, ":"@) + ":"@ + hex_byte(b[2]));
        assert(text::joined(v4, ":"@) == text::joined(v3, ":"@) + ":"@ + hex_byte(b[3]));
        assert(text::joined(v5, ":"@) == text::joined(v4, ":"@) + ":"@ + hex_byte(b[4]));
        assert(text::joined(v, ":"@) == text::joined(v5, ":"@) + ":"@ + hex_byte(b[5]));
    }
}

/// Of several attributes of a type the last counts, and none where there is none.
pub proof fn last_attribute_counts(v: Seq<(u16, Seq<u8>)>, kind: u16, i: int)
    requires
        -1 <= i < v.len(),
        forall|j: int| i < j < v.len() ==> (#[trigger] v[j]).0 != kind,
        i >= 0 ==> v[i].0 == kind,
    ensures
        i >= 0 ==> last_value(v, kind) == Some(v[i].1),
        i < 0 ==> last_value(v, kind) is None,
    decreases v.len(),
{
    if v.len() > 0 && i < v.len() - 1 {
        let less = v.drop_last();
        assert(v[v.len() - 1].0 != kind);
        assert forall|j: int| i < j < less.len() implies (#[trigger] less[j]).0 != kind by {
            assert(less[j] == v[j]);
        }
        last_attribute_counts(less, kind, i);
    }
}

/// The destinations of a route are taken one by one, in order: each attribute that is one,
/// with the length of the message's prefix.
pub proof fn destinations_are_taken_in_order(
    a: Seq<(u16, Seq<u8>)>,
    b: Seq<(u16, Seq<u8>)>,
    len: u8,
    kind: u16,
    value: Seq<u8>,
)
    ensures
        destinations(a + b, len) == destinations(a, len) + destinations(b, len),
        kind == 1 && value.len() == 4 ==> destinations(seq![(kind, value)], len) == seq![
            RoutePrefix {
                dst: Ipv4Addr { a: value[0], b: value[1], c: value[2], d: value[3] },
                len,
            },
        ],
        kind != 1 || value.len() != 4 ==> destinations(seq![(kind, value)], len).len() == 0,
    decreases b.len(),
{
    if b.len() == 0 {
        assert(a + b =~= a);
        assert(destinations(a, len) + destinations(b, len) =~= destinations(a, len));
    } else {
        assert((a + b).drop_last() =~= a + b.drop_last());
        destinations_are_taken_in_order(a, b.drop_last(), len, kind, value);
        assert(destinations(a + b, len) =~= destinations(a, len) + destinations(b, len));
    }
    reveal_with_fuel(destinations, 2);
    assert(seq![(kind, value)].drop_last() =~= Seq::empty());
    if kind == 1 && value.len() == 4 {
        assert(destinations(seq![(kind, value)], len) =~= seq![
            RoutePrefix {
                dst: Ipv4Addr { a: value[0], b: value[1], c: value[2], d: value[3] },
                len,
            },
        ]);
    }
}

/// A lookup has failed exactly where the bit for an incomplete one or that for a failed one
/// is set.
pub proof fn failed_lookups_are_told_by_bits(state: u16)
    ensures
        lookup_failed(state as int) <==> state & 0x01 != 0 || state & 0x20 != 0,
{
    assert((state % 2 == 1) == (state & 0x01 != 0)) by (bit_vector);
    assert((state / 32 % 2 == 1) == (state & 0x20 != 0)) by (bit_vector);
}

} // verus!
