//! IPv4 addresses, and the prefixes that routes and links name.
use crate::number::{self, all_digits, digits_value};
use crate::text;
use vstd::prelude::*;

verus! {

/// An IPv4 address: its four octets, in the order in which they are written.
#[derive(Clone, Copy, Debug, PartialEq, Eq, PartialOrd, Ord, Hash, Structural)]
pub struct Ipv4Addr {
    pub a: u8,
    pub b: u8,
    pub c: u8,
    pub d: u8,
}

/// The number that an address is.
pub open spec fn number_of(ip: Ipv4Addr) -> int {
    ip.a * 0x100_0000 + ip.b * 0x1_0000 + ip.c * 0x100 + ip.d
}

/// `a.b.c.d`.
pub open spec fn dotted(ip: Ipv4Addr) -> Seq<char> {
    number::decimal(ip.a as nat) + "."@ + number::decimal(ip.b as nat) + "."@ + number::decimal(
        ip.c as nat,
    ) + "."@ + number::decimal(ip.d as nat)
}

/// The octet that a text writes: one digit to three, up to 255, without a leading zero.
pub open spec fn octet_in(p: Seq<char>) -> Option<int> {
    if 1 <= p.len() <= 3 && all_digits(p) && (p.len() == 1 || p[0] != '0') && digits_value(p)
        <= 255 {
        Some(digits_value(p))
    } else {
        None
    }
}

/// The address that a text writes: four octets with dots between them.
pub open spec fn address_in(s: Seq<char>) -> Option<Ipv4Addr> {
    let p = text::pieces(s, '.');
    if p.len() == 4 && octet_in(p[0]) is Some && octet_in(p[1]) is Some && octet_in(p[2]) is Some
        && octet_in(p[3]) is Some {
        Some(
            Ipv4Addr {
                a: octet_in(p[0])->0 as u8,
                b: octet_in(p[1])->0 as u8,
                c: octet_in(p[2])->0 as u8,
                d: octet_in(p[3])->0 as u8,
            },
        )
    } else {
        None
    }
}

/// Whether an address may be that of another machine: it is not a loopback, unspecified,
/// broadcast, multicast or link-local one.
pub open spec fn foreign(ip: Ipv4Addr) -> bool {
    !(ip.a == 127 || number_of(ip) == 0 || number_of(ip) == 0xffff_ffff || 224 <= ip.a <= 239 || (
    ip.a == 169 && ip.b == 254))
}

/// The octet that a text writes.
fn read_octet(s: &str) -> (r: Option<u8>)
    ensures
        match r {
            Some(n) => octet_in(s@) == Some(n as int),
            None => octet_in(s@) is None,
        },
{
    let cs = text::chars_of(s);
    if cs.len() < 1 || cs.len() > 3 || (cs.len() > 1 && cs[0] == '0') || cs[0] == '+' {
        return None;
    }
    match number::parse_unsigned(cs.as_slice(), 255) {
        Some(n) => Some(n as u8),
        None => None,
    }
}

impl Ipv4Addr {
    /// The address `a.b.c.d`.
    pub fn new(a: u8, b: u8, c: u8, d: u8) -> (ip: Ipv4Addr)
        ensures
            ip == (Ipv4Addr { a, b, c, d }),
    {
        Ipv4Addr { a, b, c, d }
    }

    /// The number that the address is.
    pub fn to_number(&self) -> (n: u32)
        ensures
            n == number_of(*self),
    {
        self.a as u32 * 0x100_0000 + self.b as u32 * 0x1_0000 + self.c as u32 * 0x100
            + self.d as u32
    }

    /// The address that a number is.
    pub fn from_number(n: u32) -> (ip: Ipv4Addr)
        ensures
            number_of(ip) == n,
    {
        let ip = Ipv4Addr {
            a: (n / 0x100_0000) as u8,
            b: (n / 0x1_0000 % 0x100) as u8,
            c: (n / 0x100 % 0x100) as u8,
            d: (n % 0x100) as u8,
        };
        ip
    }

    /// The address that a text writes.
    pub fn parse(s: &str) -> (r: Option<Ipv4Addr>)
        ensures
            r == address_in(s@),
    {
        let parts = text::split(s, '.');
        let ghost p = text::texts(parts@);
        proof {
            assert(p.len() == parts@.len());
        }
        if parts.len() != 4 {
            return None;
        }
        proof {
            assert(p[0] == parts@[0]@ && p[1] == parts@[1]@ && p[2] == parts@[2]@ && p[3]
                == parts@[3]@);
        }
        let a = read_octet(parts[0].as_str());
        let b = read_octet(parts[1].as_str());
        let c = read_octet(parts[2].as_str());
        let d = read_octet(parts[3].as_str());
        match (a, b, c, d) {
            (Some(a), Some(b), Some(c), Some(d)) => Some(Ipv4Addr { a, b, c, d }),
            _ => None,
        }
    }

    /// `a.b.c.d`.
    pub fn text(&self) -> (s: String)
        ensures
            s@ == dotted(*self),
    {
        let mut s = number::print(self.a as u64);
        s.append(".");
        s.append(number::print(self.b as u64).as_str());
        s.append(".");
        s.append(number::print(self.c as u64).as_str());
        s.append(".");
        s.append(number::print(self.d as u64).as_str());
        s
    }
}

/// Whether an address may be that of another machine.
pub fn offerable(ip: &Ipv4Addr) -> (r: bool)
    ensures
        r == foreign(*ip),
{
    let n = ip.to_number();
    !(ip.a == 127 || n == 0 || n == 0xffff_ffff || (224 <= ip.a && ip.a <= 239) || (ip.a == 169
        && ip.b == 254))
}

// ---------------------------------------------------------------------------
// Prefixes
// ---------------------------------------------------------------------------

/// A destination: an address, and how many of its leading bits count.
#[derive(Clone, Copy, Debug, PartialEq, Eq, Structural)]
pub struct RoutePrefix {
    pub dst: Ipv4Addr,
    pub len: u8,
}

/// The shortest prefix that is read as machines, and not as a network.
pub const SMALLEST_HOST_BLOCK: u8 = 29;

/// The shortest prefix of a link that is asked address by address.
pub const LARGEST_SWEPT_LINK: u8 = 24;

/// How many addresses a prefix of this length names; of those with 24 bits or more.
pub open spec fn block_size(len: u8) -> int {
    match len {
        24 => 256,
        25 => 128,
        26 => 64,
        27 => 32,
        28 => 16,
        29 => 8,
        30 => 4,
        31 => 2,
        _ => 1,
    }
}

fn size_of_block(len: u8) -> (n: u32)
    ensures
        n == block_size(len),
        1 <= n <= 256,
{
    match len {
        24 => 256,
        25 => 128,
        26 => 64,
        27 => 32,
        28 => 16,
        29 => 8,
        30 => 4,
        31 => 2,
        _ => 1,
    }
}

/// The first address of the block that a prefix names.
pub open spec fn block_start(p: RoutePrefix) -> int {
    number_of(p.dst) - number_of(p.dst) % block_size(p.len)
}

/// The numbers of addresses.
pub open spec fn numbers(v: Seq<Ipv4Addr>) -> Seq<int> {
    v.map_values(|ip: Ipv4Addr| number_of(ip))
}

/// `n` numbers from `start` on.
pub open spec fn run_of(start: int, n: int) -> Seq<int> {
    Seq::new(
        if n < 0 {
            0
        } else {
            n as nat
        },
        |i: int| start + i,
    )
}

/// The addresses that a route names: the whole block where it is small, and none where it
/// is a network.
pub open spec fn named_by_route(p: RoutePrefix) -> Seq<int> {
    if SMALLEST_HOST_BLOCK <= p.len <= 32 {
        run_of(block_start(p), block_size(p.len))
    } else {
        Seq::empty()
    }
}

/// The addresses of the link that an address of this machine is on, but for that of the
/// network and that of its broadcast; none where the link is too wide to ask, or holds no
/// one else.
pub open spec fn on_link(p: RoutePrefix) -> Seq<int> {
    if LARGEST_SWEPT_LINK <= p.len <= 30 {
        run_of(block_start(p) + 1, block_size(p.len) - 2)
    } else {
        Seq::empty()
    }
}

/// The block of an address lies within the numbers that addresses are.
proof fn block_fits(p: RoutePrefix)
    ensures
        0 <= block_start(p) <= number_of(p.dst),
        block_start(p) + block_size(p.len) <= 0x1_0000_0000,
{
    let v = number_of(p.dst);
    let n = block_size(p.len);
    assert(0 <= v < 0x1_0000_0000);
    match p.len {
        24 => {
            assert(v - v % 256 + 256 <= 0x1_0000_0000);
        },
        25 => {
            assert(v - v % 128 + 128 <= 0x1_0000_0000);
        },
        26 => {
            assert(v - v % 64 + 64 <= 0x1_0000_0000);
        },
        27 => {
            assert(v - v % 32 + 32 <= 0x1_0000_0000);
        },
        28 => {
            assert(v - v % 16 + 16 <= 0x1_0000_0000);
        },
        29 => {
            assert(v - v % 8 + 8 <= 0x1_0000_0000);
        },
        30 => {
            assert(v - v % 4 + 4 <= 0x1_0000_0000);
        },
        31 => {
            assert(v - v % 2 + 2 <= 0x1_0000_0000);
        },
        _ => {
            assert(v % 1 == 0);
        },
    }
}

/// `n` addresses from `start` on.
fn addresses_from(start: u32, n: u32) -> (v: Vec<Ipv4Addr>)
    requires
        start + n <= 0x1_0000_0000,
    ensures
        numbers(v@) == run_of(start as int, n as int),
{
    let mut v: Vec<Ipv4Addr> = Vec::new();
    let mut i: u32 = 0;
    while i < n
        invariant
            i <= n,
            start + n <= 0x1_0000_0000,
            v@.len() == i,
            forall|j: int| 0 <= j < i ==> number_of(#[trigger] v@[j]) == start + j,
        decreases n - i,
    {
        v.push(Ipv4Addr::from_number(start + i));
        i += 1;
    }
    proof {
        assert(numbers(v@) =~= run_of(start as int, n as int));
    }
    v
}

/// The addresses that a route names.
pub fn expand(route: &RoutePrefix) -> (v: Vec<Ipv4Addr>)
    ensures
        numbers(v@) == named_by_route(*route),
{
    if route.len < SMALLEST_HOST_BLOCK || route.len > 32 {
        let v: Vec<Ipv4Addr> = Vec::new();
        proof {
            assert(numbers(v@) =~= Seq::empty());
        }
        return v;
    }
    let n: u32 = size_of_block(route.len);
    let dst: u32 = route.dst.to_number();
    proof {
        block_fits(*route);
    }
    addresses_from(dst - dst % n, n)
}

/// The addresses of the link that an address of this machine is on.
pub fn link_addresses(own: &RoutePrefix) -> (v: Vec<Ipv4Addr>)
    ensures
        numbers(v@) == on_link(*own),
{
    if own.len < LARGEST_SWEPT_LINK || own.len >= 31 {
        let v: Vec<Ipv4Addr> = Vec::new();
        proof {
            assert(numbers(v@) =~= Seq::empty());
        }
        return v;
    }
    let n: u32 = size_of_block(own.len);
    let dst: u32 = own.dst.to_number();
    proof {
        block_fits(*own);
    }
    addresses_from(dst - dst % n + 1, n - 2)
}

// ---------------------------------------------------------------------------
// Laws
// ---------------------------------------------------------------------------

/// An octet is written so that it reads back.
proof fn octet_reads_back(n: nat)
    requires
        n <= 255,
    ensures
        octet_in(number::decimal(n)) == Some(n as int),
        !number::decimal(n).contains('.'),
{
    number::decimal_reads_back(n);
    reveal_with_fuel(number::decimal, 4);
    let d = number::decimal(n);
    assert forall|i: int| 0 <= i < d.len() implies d[i] != '.' by {
        assert(number::is_digit(d[i]));
    }
}

proof fn pieces_between_dots(a: Seq<char>, b: Seq<char>, c: Seq<char>, d: Seq<char>)
    requires
        !a.contains('.'),
        !b.contains('.'),
        !c.contains('.'),
        !d.contains('.'),
    ensures
        text::pieces(a + "."@ + b + "."@ + c + "."@ + d, '.') == seq![a, b, c, d],
{
    reveal_strlit(".");
    assert("."@ =~= seq!['.']);
    let s = a + "."@ + b + "."@ + c + "."@ + d;
    let r2 = c + seq!['.'] + d;
    let r1 = b + seq!['.'] + r2;
    assert(s =~= a + seq!['.'] + r1);
    text::pieces_of_sum(a, '.', r1);
    text::pieces_of_sum(b, '.', r2);
    text::pieces_of_sum(c, '.', d);
    text::pieces_without(d, '.');
    assert(seq![a] + (seq![b] + (seq![c] + seq![d])) =~= seq![a, b, c, d]);
}

/// A text that is written reads back: an address is not lost on the way.
pub proof fn address_reads_back(ip: Ipv4Addr)
    ensures
        address_in(dotted(ip)) == Some(ip),
{
    octet_reads_back(ip.a as nat);
    octet_reads_back(ip.b as nat);
    octet_reads_back(ip.c as nat);
    octet_reads_back(ip.d as nat);
    pieces_between_dots(
        number::decimal(ip.a as nat),
        number::decimal(ip.b as nat),
        number::decimal(ip.c as nat),
        number::decimal(ip.d as nat),
    );
}

/// No two addresses are the same number.
pub proof fn numbers_tell_addresses_apart(x: Ipv4Addr, y: Ipv4Addr)
    requires
        number_of(x) == number_of(y),
    ensures
        x == y,
{
    let p = x.a * 0x1_0000 + x.b * 0x100 + x.c;
    let q = y.a * 0x1_0000 + y.b * 0x100 + y.c;
    assert(0x100 * p + x.d == 0x100 * q + y.d);
    assert(p == q && x.d == y.d);
    let p2 = x.a * 0x100 + x.b;
    let q2 = y.a * 0x100 + y.b;
    assert(0x100 * p2 + x.c == 0x100 * q2 + y.c);
    assert(p2 == q2 && x.c == y.c);
}

/// A route to a network is expanded into nothing, and one to machines names its own
/// destination among at most eight.
pub proof fn only_small_blocks_are_expanded(p: RoutePrefix)
    ensures
        p.len < SMALLEST_HOST_BLOCK || p.len > 32 ==> named_by_route(p).len() == 0,
        SMALLEST_HOST_BLOCK <= p.len <= 32 ==> named_by_route(p).contains(number_of(p.dst)),
        named_by_route(p).len() <= 8,
{
    if SMALLEST_HOST_BLOCK <= p.len <= 32 {
        block_fits(p);
        let i = number_of(p.dst) - block_start(p);
        assert(0 <= i < block_size(p.len));
        assert(named_by_route(p)[i] == number_of(p.dst));
    }
}

/// A link that is swept has at most 254 machines, and neither its network nor its
/// broadcast address is asked.
pub proof fn link_leaves_its_ends_out(p: RoutePrefix)
    ensures
        on_link(p).len() <= 254,
        !on_link(p).contains(block_start(p)),
        !on_link(p).contains(block_start(p) + block_size(p.len) - 1),
{
    let v = on_link(p);
    if v.contains(block_start(p)) {
        let i = choose|i: int| 0 <= i < v.len() && v[i] == block_start(p);
        assert(false);
    }
    if v.contains(block_start(p) + block_size(p.len) - 1) {
        let i = choose|i: int| 0 <= i < v.len() && v[i] == block_start(p) + block_size(p.len) - 1;
        assert(false);
    }
}

/// An address that is read is the one that is written: no other text than its own, octet by
/// octet, reads as it.
pub proof fn only_its_own_text_reads_as_it(s: Seq<char>, ip: Ipv4Addr)
    requires
        address_in(s) == Some(ip),
    ensures
        s == dotted(ip),
{
    reveal_strlit(".");
    assert("."@ =~= seq!['.']);
    let p = text::pieces(s, '.');
    octet_writes_back(p[0]);
    octet_writes_back(p[1]);
    octet_writes_back(p[2]);
    octet_writes_back(p[3]);
    text::pieces_join_back(s, '.');
    assert(p =~= seq![p[0]] + (seq![p[1]] + (seq![p[2]] + seq![p[3]])));
    text::joined_front(p[0], seq![p[1]] + (seq![p[2]] + seq![p[3]]), seq!['.']);
    text::joined_front(p[1], seq![p[2]] + seq![p[3]], seq!['.']);
    text::joined_front(p[2], seq![p[3]], seq!['.']);
    assert(text::joined(seq![p[3]], seq!['.']) == p[3]);
    assert(s =~= dotted(ip));
}

proof fn octet_writes_back(p: Seq<char>)
    requires
        octet_in(p) is Some,
    ensures
        0 <= octet_in(p)->0 <= 255,
        number::decimal(octet_in(p)->0 as nat) == p,
{
    number::value_writes_back(p);
}

/// The addresses that no other machine has are told by their octets.
pub proof fn addresses_of_no_other_machine(ip: Ipv4Addr)
    ensures
        !foreign(ip) <==> {
            ||| ip.a == 127
            ||| ip.a == 0 && ip.b == 0 && ip.c == 0 && ip.d == 0
            ||| ip.a == 255 && ip.b == 255 && ip.c == 255 && ip.d == 255
            ||| 224 <= ip.a <= 239
            ||| ip.a == 169 && ip.b == 254
        },
{
}

/// A route to a machine names that machine alone; one to two, four or eight machines names
/// those of its block, in order.
pub proof fn route_names_its_block(dst: Ipv4Addr, n: int)
    ensures
        named_by_route(RoutePrefix { dst, len: 32 }) == seq![number_of(dst)],
        named_by_route(RoutePrefix { dst, len: 31 }).contains(n) <==> n / 2 == number_of(dst) / 2,
        named_by_route(RoutePrefix { dst, len: 30 }).contains(n) <==> n / 4 == number_of(dst) / 4,
        named_by_route(RoutePrefix { dst, len: 29 }).contains(n) <==> n / 8 == number_of(dst) / 8,
        named_by_route(RoutePrefix { dst, len: 29 }).len() == 8,
        named_by_route(RoutePrefix { dst, len: 28 }).len() == 0,
        named_by_route(RoutePrefix { dst, len: 33 }).len() == 0,
{
    let p32 = RoutePrefix { dst, len: 32 };
    let p31 = RoutePrefix { dst, len: 31 };
    let p30 = RoutePrefix { dst, len: 30 };
    let p29 = RoutePrefix { dst, len: 29 };
    let d = number_of(dst);
    assert(d % 1 == 0);
    assert(named_by_route(p32) =~= seq![d]);
    run_holds(d - d % 2, 2, n);
    run_holds(d - d % 4, 4, n);
    run_holds(d - d % 8, 8, n);
}

proof fn run_holds(start: int, size: int, n: int)
    requires
        size >= 0,
    ensures
        run_of(start, size).contains(n) <==> start <= n < start + size,
{
    if start <= n < start + size {
        assert(run_of(start, size)[n - start] == n);
    }
}

/// The machines that a route or a link names come in the order of their addresses.
pub proof fn named_machines_ascend(p: RoutePrefix, i: int, j: int)
    ensures
        0 <= i < j < named_by_route(p).len() ==> named_by_route(p)[j] - named_by_route(p)[i] == j
            - i,
        0 <= i < j < on_link(p).len() ==> on_link(p)[j] - on_link(p)[i] == j - i,
{
}

/// A link that is swept has the addresses of its block but for the first and the last; one
/// that is wider than 254 machines, or has no one else on it, is not swept.
pub proof fn link_is_swept_between_its_ends(dst: Ipv4Addr, n: int)
    ensures
        on_link(RoutePrefix { dst, len: 24 }).contains(n) <==> n / 256 == number_of(dst) / 256 && 0
            < n % 256 < 255,
        on_link(RoutePrefix { dst, len: 25 }).contains(n) <==> n / 128 == number_of(dst) / 128 && 0
            < n % 128 < 127,
        on_link(RoutePrefix { dst, len: 26 }).contains(n) <==> n / 64 == number_of(dst) / 64 && 0 < n
            % 64 < 63,
        on_link(RoutePrefix { dst, len: 27 }).contains(n) <==> n / 32 == number_of(dst) / 32 && 0 < n
            % 32 < 31,
        on_link(RoutePrefix { dst, len: 28 }).contains(n) <==> n / 16 == number_of(dst) / 16 && 0 < n
            % 16 < 15,
        on_link(RoutePrefix { dst, len: 29 }).contains(n) <==> n / 8 == number_of(dst) / 8 && 0 < n
            % 8 < 7,
        on_link(RoutePrefix { dst, len: 30 }).contains(n) <==> n / 4 == number_of(dst) / 4 && 0 < n
            % 4 < 3,
        on_link(RoutePrefix { dst, len: 23 }).len() == 0,
        on_link(RoutePrefix { dst, len: 31 }).len() == 0,
        on_link(RoutePrefix { dst, len: 32 }).len() == 0,
{
    let d = number_of(dst);
    run_holds(d - d % 256 + 1, 254, n);
    run_holds(d - d % 128 + 1, 126, n);
    run_holds(d - d % 64 + 1, 62, n);
    run_holds(d - d % 32 + 1, 30, n);
    run_holds(d - d % 16 + 1, 14, n);
    run_holds(d - d % 8 + 1, 6, n);
    run_holds(d - d % 4 + 1, 2, n);
}

} // verus!
