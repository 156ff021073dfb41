//! The machines that this one reaches in a single hop, as the operating system knows
//! them: routes to single addresses, and the neighbours on its links.
use crate::number;
use crate::provision::ipv4::{
    address_in, dotted, expand, foreign, link_addresses, named_by_route, numbers, offerable,
    on_link, Ipv4Addr, RoutePrefix,
};
use crate::text;
use vstd::prelude::*;

verus! {

/// The milliseconds that an address has to answer on the ssh port.
pub const SSH_PROBE_TIMEOUT_MS: u64 = 700;

/// How many addresses are asked at once.
pub const SSH_PROBE_CONCURRENCY: usize = 64;

// ---------------------------------------------------------------------------
// Routes
// ---------------------------------------------------------------------------

/// What a destination field names: an address with the length of its prefix, or a single
/// address.
pub open spec fn destination_in(s: Seq<char>) -> Option<RoutePrefix> {
    match text::cut_at(s, '/') {
        Some((addr, len)) => match (address_in(addr), number::read_unsigned(len, 255)) {
            (Some(dst), Some(n)) => Some(RoutePrefix { dst, len: n as u8 }),
            _ => None,
        },
        None => match address_in(s) {
            Some(dst) => Some(RoutePrefix { dst, len: 32 }),
            None => None,
        },
    }
}

/// What a destination field names.
pub fn destination(dest: &str) -> (r: Option<RoutePrefix>)
    ensures
        r == destination_in(dest@),
{
    match text::split_once_str(dest, '/') {
        Some((addr, len)) => {
            let cs = text::chars_of(len);
            match (Ipv4Addr::parse(addr), number::parse_unsigned(cs.as_slice(), 255)) {
                (Some(dst), Some(n)) => Some(RoutePrefix { dst, len: n as u8 }),
                _ => None,
            }
        },
        None => match Ipv4Addr::parse(dest) {
            Some(dst) => Some(RoutePrefix { dst, len: 32 }),
            None => None,
        },
    }
}

/// The route of a line. A table with flags marks a route to one machine by an `H` in its
/// third field; any other route of such a table is none.
pub open spec fn route_in(line: Seq<char>, flagged: bool) -> Option<RoutePrefix> {
    let f = text::words(line);
    if f.len() == 0 || (flagged && !(f.len() > 2 && f[2].contains('H'))) {
        None
    } else {
        destination_in(f[0])
    }
}

/// The routes of lines, in order.
pub open spec fn routes_in(lines: Seq<Seq<char>>, flagged: bool) -> Seq<RoutePrefix>
    decreases lines.len(),
{
    if lines.len() == 0 {
        Seq::empty()
    } else {
        match route_in(lines.last(), flagged) {
            Some(r) => routes_in(lines.drop_last(), flagged).push(r),
            None => routes_in(lines.drop_last(), flagged),
        }
    }
}

/// The destinations in a routing table, whatever printed it. `flagged` tells that it has
/// a column of flags, as that of `netstat` has.
pub fn parse_host_routes(out: &str, flagged: bool) -> (found: Vec<RoutePrefix>)
    ensures
        found@ == routes_in(text::lines_of(out@), flagged),
{
    let lines = text::lines(out);
    let ghost all = text::texts(lines@);
    let mut found: Vec<RoutePrefix> = Vec::new();
    let mut i: usize = 0;
    proof {
        assert(found@ =~= routes_in(all.take(0), flagged));
    }
    while i < lines.len()
        invariant
            i <= lines@.len(),
            all == text::texts(lines@),
            found@ == routes_in(all.take(i as int), flagged),
        decreases lines.len() - i,
    {
        let f = text::split_whitespace(lines[i].as_str());
        proof {
            let head = all.take(i + 1);
            assert(head.drop_last() =~= all.take(i as int));
            assert(head.last() == lines@[i as int]@);
            assert(text::texts(f@).len() == f@.len());
            if f@.len() > 0 {
                assert(text::texts(f@)[0] == f@[0]@);
            }
            if f@.len() > 2 {
                assert(text::texts(f@)[2] == f@[2]@);
            }
        }
        if f.len() > 0 && (!flagged || (f.len() > 2 && text::contains_char(f[2].as_str(), 'H'))) {
            if let Some(route) = destination(f[0].as_str()) {
                found.push(route);
            }
        }
        i += 1;
    }
    proof {
        assert(all.take(i as int) =~= all);
    }
    found
}

/// The addresses that routes name, in order.
pub open spec fn all_named(routes: Seq<RoutePrefix>) -> Seq<int>
    decreases routes.len(),
{
    if routes.len() == 0 {
        Seq::empty()
    } else {
        all_named(routes.drop_last()) + named_by_route(routes.last())
    }
}

/// The addresses of links, in order.
pub open spec fn all_on_links(own: Seq<RoutePrefix>) -> Seq<int>
    decreases own.len(),
{
    if own.len() == 0 {
        Seq::empty()
    } else {
        all_on_links(own.drop_last()) + on_link(own.last())
    }
}

/// The numbers of addresses that follow others.
proof fn numbers_of_sum(a: Seq<Ipv4Addr>, b: Seq<Ipv4Addr>)
    ensures
        numbers(a + b) == numbers(a) + numbers(b),
{
    assert(numbers(a + b) =~= numbers(a) + numbers(b));
}

/// The addresses that routes name.
pub fn host_routes(routes: &Vec<RoutePrefix>) -> (v: Vec<Ipv4Addr>)
    ensures
        numbers(v@) == all_named(routes@),
{
    let mut v: Vec<Ipv4Addr> = Vec::new();
    let mut i: usize = 0;
    proof {
        assert(numbers(v@) =~= all_named(routes@.take(0)));
    }
    while i < routes.len()
        invariant
            i <= routes@.len(),
            numbers(v@) == all_named(routes@.take(i as int)),
        decreases routes.len() - i,
    {
        let mut more = expand(&routes[i]);
        proof {
            let head = routes@.take(i + 1);
            assert(head.drop_last() =~= routes@.take(i as int));
            assert(head.last() == routes@[i as int]);
            numbers_of_sum(v@, more@);
        }
        v.append(&mut more);
        i += 1;
    }
    proof {
        assert(routes@.take(i as int) =~= routes@);
    }
    v
}

/// The addresses of the links that this machine is on.
pub fn link_sweep(own: &Vec<RoutePrefix>) -> (v: Vec<Ipv4Addr>)
    ensures
        numbers(v@) == all_on_links(own@),
{
    let mut v: Vec<Ipv4Addr> = Vec::new();
    let mut i: usize = 0;
    proof {
        assert(numbers(v@) =~= all_on_links(own@.take(0)));
    }
    while i < own.len()
        invariant
            i <= own@.len(),
            numbers(v@) == all_on_links(own@.take(i as int)),
        decreases own.len() - i,
    {
        let mut more = link_addresses(&own[i]);
        proof {
            let head = own@.take(i + 1);
            assert(head.drop_last() =~= own@.take(i as int));
            assert(head.last() == own@[i as int]);
            numbers_of_sum(v@, more@);
        }
        v.append(&mut more);
        i += 1;
    }
    proof {
        assert(own@.take(i as int) =~= own@);
    }
    v
}

/// The command that prints the routes of this machine.
pub open spec fn route_command_of(os: Seq<char>) -> (Seq<char>, Seq<Seq<char>>) {
    if os == "windows"@ {
        (
            "powershell"@,
            seq![
                "-NoProfile"@,
                "-Command"@,
                "Get-NetRoute -AddressFamily IPv4 | ForEach-Object { $_.DestinationPrefix }"@,
            ],
        )
    } else if os == "macos"@ {
        ("netstat"@, seq!["-rn"@, "-f"@, "inet"@])
    } else {
        ("ip"@, seq!["-4"@, "-o"@, "route"@, "show"@, "table"@, "all"@])
    }
}

/// The command that prints the routes of this machine: of every table, for a tunnel may
/// have its peers in one of its own.
pub fn route_command(os: &str) -> (r: (&'static str, Vec<String>))
    ensures
        (r.0@, text::texts(r.1@)) == route_command_of(os@),
{
    if text::same(os, "windows") {
        let v = crate::mux::vocab::argv(
            &[
                "-NoProfile",
                "-Command",
                "Get-NetRoute -AddressFamily IPv4 | ForEach-Object { $_.DestinationPrefix }",
            ],
        );
        proof {
            assert(text::texts(v@) =~= route_command_of(os@).1);
        }
        ("powershell", v)
    } else if text::same(os, "macos") {
        let v = crate::mux::vocab::argv(&["-rn", "-f", "inet"]);
        proof {
            assert(text::texts(v@) =~= route_command_of(os@).1);
        }
        ("netstat", v)
    } else {
        let v = crate::mux::vocab::argv(&["-4", "-o", "route", "show", "table", "all"]);
        proof {
            assert(text::texts(v@) =~= route_command_of(os@).1);
        }
        ("ip", v)
    }
}

/// The command that prints the neighbour table of this machine.
pub open spec fn neighbor_command_of(os: Seq<char>) -> (Seq<char>, Seq<Seq<char>>) {
    if os == "windows"@ {
        (
            "powershell"@,
            seq![
                "-NoProfile"@,
                "-Command"@,
                "Get-NetNeighbor -AddressFamily IPv4 | ForEach-Object { \"$($_.IPAddress) $($_.LinkLayerAddress) $($_.State)\" }"@,
            ],
        )
    } else if os == "macos"@ {
        ("arp"@, seq!["-an"@])
    } else {
        ("ip"@, seq!["-4"@, "-o"@, "neigh"@, "show"@])
    }
}

/// The command that prints the neighbour table of this machine.
pub fn neighbor_command(os: &str) -> (r: (&'static str, Vec<String>))
    ensures
        (r.0@, text::texts(r.1@)) == neighbor_command_of(os@),
{
    if text::same(os, "windows") {
        let v = crate::mux::vocab::argv(
            &[
                "-NoProfile",
                "-Command",
                "Get-NetNeighbor -AddressFamily IPv4 | ForEach-Object { \"$($_.IPAddress) $($_.LinkLayerAddress) $($_.State)\" }",
            ],
        );
        proof {
            assert(text::texts(v@) =~= neighbor_command_of(os@).1);
        }
        ("powershell", v)
    } else if text::same(os, "macos") {
        let v = crate::mux::vocab::argv(&["-an"]);
        proof {
            assert(text::texts(v@) =~= neighbor_command_of(os@).1);
        }
        ("arp", v)
    } else {
        let v = crate::mux::vocab::argv(&["-4", "-o", "neigh", "show"]);
        proof {
            assert(text::texts(v@) =~= neighbor_command_of(os@).1);
        }
        ("ip", v)
    }
}

// ---------------------------------------------------------------------------
// The neighbour table
// ---------------------------------------------------------------------------

/// An entry of a neighbour table: an address, and the hardware address that answered for
/// it, where one did.
#[derive(Clone, Debug, PartialEq, Eq)]
pub struct Neighbor {
    pub ip: Ipv4Addr,
    pub mac: Option<String>,
}

/// A [`Neighbor`] with its text as a sequence.
pub struct NeighborView {
    pub ip: Ipv4Addr,
    pub mac: Option<Seq<char>>,
}

impl View for Neighbor {
    type V = NeighborView;

    open spec fn view(&self) -> NeighborView {
        NeighborView { ip: self.ip, mac: text::opt_text(self.mac) }
    }
}

/// The views of a sequence of neighbours.
pub open spec fn neighbor_views(v: Seq<Neighbor>) -> Seq<NeighborView> {
    v.map_values(|n: Neighbor| n@)
}

/// Whether a character is a hexadecimal digit.
pub open spec fn is_hex(c: char) -> bool {
    ('0' <= c && c <= '9') || ('a' <= c && c <= 'f') || ('A' <= c && c <= 'F')
}

/// Whether a part is one or two hexadecimal digits.
pub open spec fn is_hex_pair(p: Seq<char>) -> bool {
    1 <= p.len() <= 2 && forall|i: int| 0 <= i < p.len() ==> is_hex(#[trigger] p[i])
}

/// The text with colons in the place of hyphens.
pub open spec fn with_colons(s: Seq<char>) -> Seq<char> {
    s.map_values(
        |c: char|
            if c == '-' {
                ':'
            } else {
                c
            },
    )
}

/// Whether a field is a hardware address: six pairs of hexadecimal digits or more, with
/// colons or hyphens between them.
pub open spec fn is_mac_text(s: Seq<char>) -> bool {
    let parts = text::pieces(with_colons(s), ':');
    parts.len() >= 6 && forall|i: int| 0 <= i < parts.len() ==> is_hex_pair(#[trigger] parts[i])
}

/// The text without the parentheses around it.
pub open spec fn bare(s: Seq<char>) -> Seq<char>
    decreases s.len(),
{
    if s.len() > 0 && (s[0] == '(' || s[0] == ')') {
        bare(s.drop_first())
    } else if s.len() > 0 && (s.last() == '(' || s.last() == ')') {
        bare(s.drop_last())
    } else {
        s
    }
}

/// The first address among fields.
pub open spec fn first_address(f: Seq<Seq<char>>) -> Option<Ipv4Addr>
    decreases f.len(),
{
    if f.len() == 0 {
        None
    } else {
        match address_in(bare(f[0])) {
            Some(ip) => Some(ip),
            None => first_address(f.drop_first()),
        }
    }
}

/// The first hardware address among fields, in lower case.
pub open spec fn first_mac(f: Seq<Seq<char>>) -> Option<Seq<char>>
    decreases f.len(),
{
    if f.len() == 0 {
        None
    } else if is_mac_text(f[0]) {
        Some(text::lowercase(f[0]))
    } else {
        first_mac(f.drop_first())
    }
}

/// The entries of lines, in order: each line with an address is one.
pub open spec fn neighbors_in(lines: Seq<Seq<char>>) -> Seq<NeighborView>
    decreases lines.len(),
{
    if lines.len() == 0 {
        Seq::empty()
    } else {
        let f = text::words(lines.last());
        match first_address(f) {
            Some(ip) => neighbors_in(lines.drop_last()).push(
                NeighborView { ip, mac: first_mac(f) },
            ),
            None => neighbors_in(lines.drop_last()),
        }
    }
}

fn hex(c: char) -> (r: bool)
    ensures
        r == is_hex(c),
{
    ('0' <= c && c <= '9') || ('a' <= c && c <= 'f') || ('A' <= c && c <= 'F')
}

fn hex_pair(p: &str) -> (r: bool)
    ensures
        r == is_hex_pair(p@),
{
    let cs = text::chars_of(p);
    if cs.len() == 1 {
        hex(cs[0])
    } else if cs.len() == 2 {
        let first = hex(cs[0]);
        let second = hex(cs[1]);
        proof {
            assert(is_hex_pair(p@) ==> is_hex(p@[0]) && is_hex(p@[1]));
        }
        first && second
    } else {
        false
    }
}

/// Whether a field is a hardware address.
pub fn is_mac(field: &str) -> (r: bool)
    ensures
        r == is_mac_text(field@),
{
    let cs = text::chars_of(field);
    let mut even: Vec<char> = Vec::new();
    let mut i: usize = 0;
    while i < cs.len()
        invariant
            cs@ == field@,
            i <= cs@.len(),
            even@ == with_colons(field@).take(i as int),
        decreases cs.len() - i,
    {
        if cs[i] == '-' {
            even.push(':');
        } else {
            even.push(cs[i]);
        }
        proof {
            assert(even@ =~= with_colons(field@).take(i + 1));
        }
        i += 1;
    }
    proof {
        assert(even@ =~= with_colons(field@));
    }
    let line = text::string_of(even.as_slice());
    let parts = text::split(line.as_str(), ':');
    let ghost all = text::texts(parts@);
    proof {
        assert(all.len() == parts@.len());
    }
    if parts.len() < 6 {
        return false;
    }
    let mut j: usize = 0;
    while j < parts.len()
        invariant
            j <= parts@.len(),
            parts@.len() >= 6,
            all == text::texts(parts@),
            all == text::pieces(with_colons(field@), ':'),
            forall|k: int| 0 <= k < j ==> is_hex_pair(#[trigger] all[k]),
        decreases parts.len() - j,
    {
        proof {
            assert(all[j as int] == parts@[j as int]@);
        }
        if !hex_pair(parts[j].as_str()) {
            return false;
        }
        j += 1;
    }
    true
}

/// The text without the parentheses around it.
fn unwrapped(s: &str) -> (r: String)
    ensures
        r@ == bare(s@),
{
    let cs = text::chars_of(s);
    let mut a: usize = 0;
    let mut b: usize = cs.len();
    proof {
        assert(cs@.subrange(0, cs@.len() as int) =~= s@);
    }
    while a < b && (cs[a] == '(' || cs[a] == ')')
        invariant
            a <= b <= cs@.len(),
            bare(cs@.subrange(a as int, b as int)) == bare(s@),
        decreases b - a,
    {
        proof {
            assert(cs@.subrange(a as int, b as int).drop_first() =~= cs@.subrange(
                a + 1,
                b as int,
            ));
        }
        a += 1;
    }
    let ghost head = a;
    while a < b && (cs[b - 1] == '(' || cs[b - 1] == ')')
        invariant
            a == head,
            a <= b <= cs@.len(),
            a < b ==> !(cs@[a as int] == '(' || cs@[a as int] == ')'),
            bare(cs@.subrange(a as int, b as int)) == bare(s@),
        decreases b - a,
    {
        proof {
            let now = cs@.subrange(a as int, b as int);
            assert(now[0] == cs@[a as int]);
            assert(now.last() == cs@[b - 1]);
            assert(now.drop_last() =~= cs@.subrange(a as int, b - 1));
        }
        b -= 1;
    }
    proof {
        let now = cs@.subrange(a as int, b as int);
        if a < b {
            assert(now[0] == cs@[a as int]);
            assert(now.last() == cs@[b - 1]);
        }
        assert(bare(now) == now);
    }
    text::string_of(vstd::slice::slice_subrange(cs.as_slice(), a, b))
}

fn find_address(f: &Vec<String>) -> (r: Option<Ipv4Addr>)
    ensures
        r == first_address(text::texts(f@)),
{
    let ghost all = text::texts(f@);
    let mut i: usize = 0;
    proof {
        assert(all.skip(0) =~= all);
    }
    while i < f.len()
        invariant
            i <= f@.len(),
            all == text::texts(f@),
            first_address(all) == first_address(all.skip(i as int)),
        decreases f.len() - i,
    {
        proof {
            assert(all.skip(i as int)[0] == f@[i as int]@);
            assert(all.skip(i as int).drop_first() =~= all.skip(i + 1));
        }
        let field = unwrapped(f[i].as_str());
        if let Some(ip) = Ipv4Addr::parse(field.as_str()) {
            return Some(ip);
        }
        i += 1;
    }
    None
}

fn find_mac(f: &Vec<String>) -> (r: Option<String>)
    ensures
        text::opt_text(r) == first_mac(text::texts(f@)),
{
    let ghost all = text::texts(f@);
    let mut i: usize = 0;
    proof {
        assert(all.skip(0) =~= all);
    }
    while i < f.len()
        invariant
            i <= f@.len(),
            all == text::texts(f@),
            first_mac(all) == first_mac(all.skip(i as int)),
        decreases f.len() - i,
    {
        proof {
            assert(all.skip(i as int)[0] == f@[i as int]@);
            assert(all.skip(i as int).drop_first() =~= all.skip(i + 1));
        }
        if is_mac(f[i].as_str()) {
            return Some(text::to_lowercase(f[i].as_str()));
        }
        i += 1;
    }
    None
}

/// The entries of a neighbour table, whatever printed it.
pub fn parse_neighbors(out: &str) -> (found: Vec<Neighbor>)
    ensures
        neighbor_views(found@) == neighbors_in(text::lines_of(out@)),
{
    let lines = text::lines(out);
    let ghost all = text::texts(lines@);
    let mut found: Vec<Neighbor> = Vec::new();
    let mut i: usize = 0;
    proof {
        assert(neighbor_views(found@) =~= neighbors_in(all.take(0)));
    }
    while i < lines.len()
        invariant
            i <= lines@.len(),
            all == text::texts(lines@),
            neighbor_views(found@) == neighbors_in(all.take(i as int)),
        decreases lines.len() - i,
    {
        let f = text::split_whitespace(lines[i].as_str());
        proof {
            let head = all.take(i + 1);
            assert(head.drop_last() =~= all.take(i as int));
            assert(head.last() == lines@[i as int]@);
        }
        if let Some(ip) = find_address(&f) {
            let ghost before = found@;
            let n = Neighbor { ip, mac: find_mac(&f) };
            found.push(n);
            proof {
                assert(neighbor_views(found@) =~= neighbor_views(before).push(n@));
            }
        }
        i += 1;
    }
    proof {
        assert(all.take(i as int) =~= all);
    }
    found
}

/// Whether the entry at a place names a machine of its own: a hardware address answered
/// for it, and that answered for no other. One that answers for several is a router.
pub open spec fn names_a_machine(v: Seq<NeighborView>, i: int) -> bool {
    v[i].mac is Some && forall|j: int|
        0 <= j < v.len() && j != i ==> (#[trigger] v[j]).mac != v[i].mac
}

/// The addresses of the first `n` entries that name a machine of their own.
pub open spec fn machines_in(v: Seq<NeighborView>, n: int) -> Seq<Ipv4Addr>
    decreases n,
{
    if n <= 0 {
        Seq::empty()
    } else if names_a_machine(v, n - 1) {
        machines_in(v, n - 1).push(v[n - 1].ip)
    } else {
        machines_in(v, n - 1)
    }
}

fn is_alone(v: &[Neighbor], i: usize) -> (r: bool)
    requires
        i < v@.len(),
    ensures
        r == names_a_machine(neighbor_views(v@), i as int),
{
    let ghost all = neighbor_views(v@);
    match &v[i].mac {
        None => false,
        Some(mac) => {
            proof {
                assert(all[i as int].mac == Some(mac@));
            }
            let mut j: usize = 0;
            while j < v.len()
                invariant
                    j <= v@.len(),
                    i < v@.len(),
                    all == neighbor_views(v@),
                    all[i as int].mac == Some(mac@),
                    forall|k: int|
                        0 <= k < j && k != i ==> (#[trigger] all[k]).mac != all[i as int].mac,
                decreases v.len() - j,
            {
                proof {
                    assert(all[j as int] == v@[j as int]@);
                }
                if j != i {
                    if let Some(other) = &v[j].mac {
                        if text::same(other.as_str(), mac.as_str()) {
                            proof {
                                assert(all[j as int].mac == all[i as int].mac);
                            }
                            return false;
                        }
                    }
                }
                j += 1;
            }
            true
        },
    }
}

/// The addresses of the entries that name a machine of their own.
pub fn usable_neighbors(entries: &[Neighbor]) -> (v: Vec<Ipv4Addr>)
    ensures
        v@ == machines_in(neighbor_views(entries@), entries@.len() as int),
{
    let ghost all = neighbor_views(entries@);
    let mut v: Vec<Ipv4Addr> = Vec::new();
    let mut i: usize = 0;
    while i < entries.len()
        invariant
            i <= entries@.len(),
            all == neighbor_views(entries@),
            v@ == machines_in(all, i as int),
        decreases entries.len() - i,
    {
        if is_alone(entries, i) {
            v.push(entries[i].ip);
        }
        i += 1;
    }
    v
}

/// The neighbours on the links of this machine: those that its table names, or, where the
/// system refuses the table, every address on the links. `own` are the addresses of this
/// machine.
pub fn link_neighbors(table: &Option<Vec<Neighbor>>, own: &Vec<RoutePrefix>) -> (v: Vec<Ipv4Addr>)
    ensures
        match *table {
            Some(t) => v@ == machines_in(neighbor_views(t@), t@.len() as int),
            None => numbers(v@) == all_on_links(own@),
        },
{
    match table {
        Some(t) => usable_neighbors(t.as_slice()),
        None => link_sweep(own),
    }
}

// ---------------------------------------------------------------------------
// Whom to offer
// ---------------------------------------------------------------------------

/// The addresses that may be those of other machines, each once, in the order in which
/// they come.
pub open spec fn worth_asking(v: Seq<Ipv4Addr>) -> Seq<Ipv4Addr>
    decreases v.len(),
{
    if v.len() == 0 {
        Seq::empty()
    } else {
        let rest = worth_asking(v.drop_last());
        if foreign(v.last()) && !rest.contains(v.last()) {
            rest.push(v.last())
        } else {
            rest
        }
    }
}

fn has_address(v: &Vec<Ipv4Addr>, ip: Ipv4Addr) -> (r: bool)
    ensures
        r == v@.contains(ip),
{
    let mut i: usize = 0;
    while i < v.len()
        invariant
            i <= v@.len(),
            forall|j: int| 0 <= j < i ==> v@[j] != ip,
        decreases v.len() - i,
    {
        if v[i] == ip {
            return true;
        }
        i += 1;
    }
    false
}

/// The addresses to ask whether they answer ssh.
pub fn candidates(found: &Vec<Ipv4Addr>) -> (v: Vec<Ipv4Addr>)
    ensures
        v@ == worth_asking(found@),
{
    let mut v: Vec<Ipv4Addr> = Vec::new();
    let mut i: usize = 0;
    proof {
        assert(worth_asking(found@.take(0)) =~= v@);
    }
    while i < found.len()
        invariant
            i <= found@.len(),
            v@ == worth_asking(found@.take(i as int)),
        decreases found.len() - i,
    {
        let ip = found[i];
        proof {
            let head = found@.take(i + 1);
            assert(head.drop_last() =~= found@.take(i as int));
            assert(head.last() == ip);
        }
        if offerable(&ip) && !has_address(&v, ip) {
            v.push(ip);
        }
        i += 1;
    }
    proof {
        assert(found@.take(i as int) =~= found@);
    }
    v
}

/// Whether a connection has reached this machine: it has the same address at both ends.
pub fn reached_this_box(local: Ipv4Addr, peer: Ipv4Addr) -> (r: bool)
    ensures
        r == (local == peer),
{
    local == peer
}

/// Whether what a port said is the greeting of an ssh server.
pub fn is_ssh_banner(head: &[u8]) -> (r: bool)
    ensures
        r == (head@ == seq![0x53u8, 0x53, 0x48, 0x2d]),
{
    let r = head.len() == 4 && head[0] == 0x53 && head[1] == 0x53 && head[2] == 0x48 && head[3]
        == 0x2d;
    proof {
        if r {
            assert(head@ =~= seq![0x53u8, 0x53, 0x48, 0x2d]);
        }
    }
    r
}

/// The text without the dots at its end.
pub open spec fn without_dots(s: Seq<char>) -> Seq<char>
    decreases s.len(),
{
    if s.len() > 0 && s.last() == '.' {
        without_dots(s.drop_last())
    } else {
        s
    }
}

/// Whether a character may stand in a name that is handed to ssh.
pub open spec fn is_label_char(c: char) -> bool {
    ('a' <= c && c <= 'z') || ('A' <= c && c <= 'Z') || ('0' <= c && c <= '9') || c == '-' || c
        == '_'
}

/// Whether a label may be handed to ssh: 63 characters at most, and no dash in front.
pub open spec fn is_label(s: Seq<char>) -> bool {
    1 <= s.len() <= 63 && (forall|i: int| 0 <= i < s.len() ==> is_label_char(#[trigger] s[i]))
        && s[0] != '-'
}

/// The first label of a name that a resolver gave.
pub open spec fn first_label(name: Seq<char>) -> Seq<char> {
    text::pieces(without_dots(text::trimmed(name)), '.')[0]
}

/// The first label of a name that a resolver gave, in lower case; `None` where it is
/// nothing that ssh could be handed.
pub fn dns_label(name: &str) -> (r: Option<String>)
    ensures
        text::opt_text(r) == if is_label(first_label(name@)) {
            Some(text::lowercase(first_label(name@)))
        } else {
            None
        },
{
    let cs = text::chars_of(text::trim(name).as_str());
    let mut n: usize = cs.len();
    proof {
        assert(cs@.take(n as int) =~= cs@);
    }
    while n > 0 && cs[n - 1] == '.'
        invariant
            n <= cs@.len(),
            cs@ == text::trimmed(name@),
            without_dots(cs@) == without_dots(cs@.take(n as int)),
        decreases n,
    {
        proof {
            let now = cs@.take(n as int);
            assert(now.last() == cs@[n - 1]);
            assert(now.drop_last() =~= cs@.take(n - 1));
        }
        n -= 1;
    }
    proof {
        let now = cs@.take(n as int);
        if n > 0 {
            assert(now.last() == cs@[n - 1]);
        }
        assert(without_dots(now) == now);
    }
    let kept = text::string_of(vstd::slice::slice_subrange(cs.as_slice(), 0, n));
    proof {
        assert(kept@ =~= cs@.take(n as int));
    }
    let parts = text::split(kept.as_str(), '.');
    proof {
        assert(text::texts(parts@).len() == parts@.len());
        assert(text::pieces(kept@, '.').len() > 0);
        assert(text::texts(parts@)[0] == parts@[0]@);
    }
    let label = parts[0].as_str();
    let ls = text::chars_of(label);
    if ls.len() < 1 || ls.len() > 63 || ls[0] == '-' {
        return None;
    }
    let mut i: usize = 0;
    while i < ls.len()
        invariant
            ls@ == label@,
            label@ == first_label(name@),
            i <= ls@.len(),
            forall|j: int| 0 <= j < i ==> is_label_char(#[trigger] ls@[j]),
        decreases ls.len() - i,
    {
        let c = ls[i];
        if !(('a' <= c && c <= 'z') || ('A' <= c && c <= 'Z') || ('0' <= c && c <= '9') || c == '-'
            || c == '_') {
            proof {
                assert(!is_label_char(first_label(name@)[i as int]));
            }
            return None;
        }
        i += 1;
    }
    Some(text::to_lowercase(label))
}

// ---------------------------------------------------------------------------
// The list
// ---------------------------------------------------------------------------

/// A machine that is offered: its name, and the address that it answers on.
#[derive(Clone, Debug, PartialEq, Eq)]
pub struct Offer {
    pub name: String,
    pub addr: String,
}

impl View for Offer {
    type V = (Seq<char>, Seq<char>);

    open spec fn view(&self) -> (Seq<char>, Seq<char>) {
        (self.name@, self.addr@)
    }
}

/// The views of a sequence of offers.
pub open spec fn offer_views(v: Seq<Offer>) -> Seq<(Seq<char>, Seq<char>)> {
    v.map_values(|o: Offer| o@)
}

/// The name and the address of a machine that answered: the address is the name of one
/// that nothing names.
pub open spec fn offer_of(ip: Ipv4Addr, name: Option<Seq<char>>) -> (Seq<char>, Seq<char>) {
    (
        match name {
            Some(n) => n,
            None => dotted(ip),
        },
        dotted(ip),
    )
}

/// What there is to offer.
pub open spec fn offers_of(ips: Seq<Ipv4Addr>, names: Seq<Option<String>>) -> Seq<
    (Seq<char>, Seq<char>),
> {
    Seq::new(ips.len(), |i: int| offer_of(ips[i], text::opt_text(names[i])))
}

/// Whether the names of a list are in order, so that none is there twice.
pub open spec fn in_name_order(list: Seq<(Seq<char>, Seq<char>)>) -> bool {
    forall|i: int, j: int|
        0 <= i < j < list.len() ==> text::precedes(
            (#[trigger] list[i]).0,
            (#[trigger] list[j]).0,
        )
}

/// Whether a list holds nothing else than what is offered.
pub open spec fn drawn_from(
    list: Seq<(Seq<char>, Seq<char>)>,
    all: Seq<(Seq<char>, Seq<char>)>,
) -> bool {
    forall|i: int| 0 <= i < list.len() ==> all.contains(#[trigger] list[i])
}

/// Whether a list has no address where the name answers on a lesser one.
pub open spec fn with_least_addresses(
    list: Seq<(Seq<char>, Seq<char>)>,
    all: Seq<(Seq<char>, Seq<char>)>,
) -> bool {
    forall|i: int, k: int|
        0 <= i < list.len() && 0 <= k < all.len() && (#[trigger] list[i]).0 == (
        #[trigger] all[k]).0 ==> !text::precedes(all[k].1, list[i].1)
}

/// Whether a list has a name.
pub open spec fn has_name(list: Seq<(Seq<char>, Seq<char>)>, name: Seq<char>) -> bool {
    exists|i: int| 0 <= i < list.len() && (#[trigger] list[i]).0 == name
}

/// Whether a list has every name that is offered.
pub open spec fn with_every_name(
    list: Seq<(Seq<char>, Seq<char>)>,
    all: Seq<(Seq<char>, Seq<char>)>,
) -> bool {
    forall|k: int| 0 <= k < all.len() ==> has_name(list, (#[trigger] all[k]).0)
}

/// Whether a list offers each name once, in order, with the least of its addresses.
#[verifier::opaque]
pub open spec fn is_list_of(
    list: Seq<(Seq<char>, Seq<char>)>,
    all: Seq<(Seq<char>, Seq<char>)>,
) -> bool {
    &&& in_name_order(list)
    &&& drawn_from(list, all)
    &&& with_least_addresses(list, all)
    &&& with_every_name(list, all)
}

/// What is drawn from some is drawn from more.
proof fn drawn_from_more(
    list: Seq<(Seq<char>, Seq<char>)>,
    all: Seq<(Seq<char>, Seq<char>)>,
    o: (Seq<char>, Seq<char>),
)
    requires
        drawn_from(list, all),
    ensures
        drawn_from(list, all.push(o)),
        all.push(o).contains(o),
{
    let more = all.push(o);
    assert(more[all.len() as int] == o);
    assert forall|i: int| 0 <= i < list.len() implies more.contains(#[trigger] list[i]) by {
        let k = choose|k: int| 0 <= k < all.len() && all[k] == list[i];
        assert(more[k] == list[i]);
    }
}

/// The name at a place is nowhere else in a list.
proof fn name_stands_once(list: Seq<(Seq<char>, Seq<char>)>, i: int, j: int)
    requires
        in_name_order(list),
        0 <= i < list.len(),
        0 <= j < list.len(),
        list[i].0 == list[j].0,
    ensures
        i == j,
{
    text::precedes_irreflexive(list[i].0);
    if i < j {
        assert(text::precedes(list[i].0, list[j].0));
    } else if j < i {
        assert(text::precedes(list[j].0, list[i].0));
    }
}

/// A list goes on to be one when the address of a name is replaced by a lesser one, or
/// kept where the new one is not less.
proof fn replaced(
    list: Seq<(Seq<char>, Seq<char>)>,
    all: Seq<(Seq<char>, Seq<char>)>,
    o: (Seq<char>, Seq<char>),
    at: int,
)
    requires
        is_list_of(list, all),
        0 <= at < list.len(),
        list[at].0 == o.0,
    ensures
        text::precedes(o.1, list[at].1) ==> is_list_of(list.update(at, o), all.push(o)),
        !text::precedes(o.1, list[at].1) ==> is_list_of(list, all.push(o)),
{
    reveal(is_list_of);
    let more = all.push(o);
    let less = text::precedes(o.1, list[at].1);
    let new = if less {
        list.update(at, o)
    } else {
        list
    };
    assert forall|i: int| 0 <= i < new.len() implies (#[trigger] new[i]).0 == list[i].0 by {}
    assert(in_name_order(new)) by {
        assert forall|i: int, j: int| 0 <= i < j < new.len() implies text::precedes(
            (#[trigger] new[i]).0,
            (#[trigger] new[j]).0,
        ) by {
            assert(text::precedes(list[i].0, list[j].0));
        }
    }
    assert(drawn_from(new, more)) by {
        drawn_from_more(list, all, o);
        assert forall|i: int| 0 <= i < new.len() implies more.contains(#[trigger] new[i]) by {
            if new[i] != o {
                assert(more.contains(list[i]));
            }
        }
    }
    assert(with_least_addresses(new, more)) by {
        assert forall|i: int, k: int|
            0 <= i < new.len() && 0 <= k < more.len() && (#[trigger] new[i]).0 == (
            #[trigger] more[k]).0 implies !text::precedes(more[k].1, new[i].1) by {
            if k < all.len() {
                assert(more[k] == all[k]);
                assert(list[i].0 == all[k].0);
                assert(!text::precedes(all[k].1, list[i].1));
                if i == at && less && text::precedes(all[k].1, o.1) {
                    text::precedes_transitive(all[k].1, o.1, list[at].1);
                }
            } else {
                assert(more[k] == o);
                name_stands_once(list, i, at);
                text::precedes_irreflexive(o.1);
            }
        }
    }
    assert(with_every_name(new, more)) by {
        assert forall|k: int| 0 <= k < more.len() implies has_name(new, (#[trigger] more[k]).0) by {
            if k < all.len() {
                assert(more[k] == all[k]);
                assert(has_name(list, all[k].0));
                let i = choose|i: int| 0 <= i < list.len() && (#[trigger] list[i]).0 == all[k].0;
                assert(new[i].0 == more[k].0);
            } else {
                assert(new[at].0 == more[k].0);
            }
        }
    }
}

/// The place that an element of a list had before another came in.
spec fn place_before(i: int, at: int) -> int {
    if i < at {
        i
    } else {
        i - 1
    }
}

/// A list goes on to be one when a name that it does not have comes in at its place.
proof fn put_in(
    list: Seq<(Seq<char>, Seq<char>)>,
    all: Seq<(Seq<char>, Seq<char>)>,
    o: (Seq<char>, Seq<char>),
    at: int,
)
    requires
        is_list_of(list, all),
        0 <= at <= list.len(),
        forall|i: int| 0 <= i < at ==> text::precedes((#[trigger] list[i]).0, o.0),
        at < list.len() ==> text::precedes(o.0, list[at].0),
    ensures
        is_list_of(list.insert(at, o), all.push(o)),
{
    reveal(is_list_of);
    let more = all.push(o);
    let new = list.insert(at, o);
    assert forall|i: int| at <= i < list.len() implies text::precedes(
        o.0,
        (#[trigger] list[i]).0,
    ) by {
        if i > at {
            assert(text::precedes(list[at].0, list[i].0));
            text::precedes_transitive(o.0, list[at].0, list[i].0);
        }
    }
    assert forall|i: int| 0 <= i < list.len() implies (#[trigger] list[i]).0 != o.0 by {
        text::precedes_irreflexive(o.0);
    }
    assert forall|i: int| 0 <= i < new.len() && i != at implies #[trigger] new[i]
        == list[place_before(i, at)] by {}
    assert(new[at] == o);
    assert(in_name_order(new)) by {
        assert forall|i: int, j: int| 0 <= i < j < new.len() implies text::precedes(
            (#[trigger] new[i]).0,
            (#[trigger] new[j]).0,
        ) by {
            let x = place_before(i, at);
            let y = place_before(j, at);
            if i == at {
                assert(text::precedes(o.0, list[y].0));
            } else if j == at {
                assert(text::precedes(list[x].0, o.0));
            } else {
                assert(text::precedes(list[x].0, list[y].0));
            }
        }
    }
    assert(drawn_from(new, more)) by {
        drawn_from_more(list, all, o);
        assert forall|i: int| 0 <= i < new.len() implies more.contains(#[trigger] new[i]) by {
            if i != at {
                assert(more.contains(list[place_before(i, at)]));
            }
        }
    }
    assert(with_least_addresses(new, more)) by {
        assert forall|i: int, k: int|
            0 <= i < new.len() && 0 <= k < more.len() && (#[trigger] new[i]).0 == (
            #[trigger] more[k]).0 implies !text::precedes(more[k].1, new[i].1) by {
            if k < all.len() {
                assert(more[k] == all[k]);
                if i == at {
                    assert(has_name(list, all[k].0));
                } else {
                    assert(!text::precedes(all[k].1, list[place_before(i, at)].1));
                }
            } else {
                assert(more[k] == o);
                if i != at {
                    assert(list[place_before(i, at)].0 != o.0);
                }
                text::precedes_irreflexive(o.1);
            }
        }
    }
    assert(with_every_name(new, more)) by {
        assert forall|k: int| 0 <= k < more.len() implies has_name(new, (#[trigger] more[k]).0) by {
            if k < all.len() {
                assert(more[k] == all[k]);
                assert(has_name(list, all[k].0));
                let y = choose|y: int| 0 <= y < list.len() && (#[trigger] list[y]).0 == all[k].0;
                let i = if y < at {
                    y
                } else {
                    y + 1
                };
                assert(new[i] == list[y]);
            } else {
                assert(new[at].0 == more[k].0);
            }
        }
    }
}

/// The machines that answered, each once by its name, in the order of their names: with
/// the least address, where one answers on several. `names` are what the resolver calls
/// them, one for each.
pub fn named_neighbors(reachable: &Vec<Ipv4Addr>, names: &Vec<Option<String>>) -> (list: Vec<
    Offer,
>)
    requires
        names@.len() == reachable@.len(),
    ensures
        is_list_of(offer_views(list@), offers_of(reachable@, names@)),
{
    let ghost all = offers_of(reachable@, names@);
    let mut list: Vec<Offer> = Vec::new();
    let mut i: usize = 0;
    proof {
        reveal(is_list_of);
        assert(is_list_of(offer_views(list@), all.take(0)));
    }
    while i < reachable.len()
        invariant
            i <= reachable@.len(),
            names@.len() == reachable@.len(),
            all == offers_of(reachable@, names@),
            is_list_of(offer_views(list@), all.take(i as int)),
        decreases reachable.len() - i,
    {
        let addr = reachable[i].text();
        let name = match &names[i] {
            Some(n) => n.clone(),
            None => reachable[i].text(),
        };
        let ghost was = offer_views(list@);
        let mut at: usize = 0;
        while at < list.len() && text::before(list[at].name.as_str(), name.as_str())
            invariant
                at <= list@.len(),
                was == offer_views(list@),
                forall|k: int| 0 <= k < at ==> text::precedes((#[trigger] was[k]).0, name@),
            decreases list.len() - at,
        {
            proof {
                assert(was[at as int] == list@[at as int]@);
            }
            at += 1;
        }
        let o = Offer { name, addr };
        proof {
            assert(o@ == all[i as int]);
            assert(all.take(i + 1) =~= all.take(i as int).push(o@));
            if at < list@.len() {
                assert(was[at as int] == list@[at as int]@);
                text::precedes_total(was[at as int].0, o@.0);
            }
        }
        if at < list.len() && text::same(list[at].name.as_str(), o.name.as_str()) {
            proof {
                replaced(was, all.take(i as int), o@, at as int);
            }
            if text::before(o.addr.as_str(), list[at].addr.as_str()) {
                list.set(at, o);
                proof {
                    assert(offer_views(list@) =~= was.update(at as int, o@));
                }
            }
        } else {
            proof {
                put_in(was, all.take(i as int), o@, at as int);
            }
            list.insert(at, o);
            proof {
                assert(offer_views(list@) =~= was.insert(at as int, o@));
            }
        }
        i += 1;
    }
    proof {
        assert(all.take(i as int) =~= all);
    }
    list
}

/// What a source of addresses has to say, where it was read, or why it was not.
pub open spec fn read_text(n: nat) -> Seq<char> {
    number::decimal(n) + " read"@
}

/// What the sources of addresses have to say: how many routes and how many neighbours
/// were read, or why the system refused the table.
pub fn source_report(routes: usize, table: &Result<usize, String>) -> (v: Vec<
    (&'static str, String),
>)
    ensures
        v@.len() == 2,
        v@[0].0@ == "routes"@,
        v@[0].1@ == read_text(routes as nat),
        v@[1].0@ == "neighbour table"@,
        v@[1].1@ == match *table {
            Ok(n) => read_text(n as nat),
            Err(e) => "refused by the OS ("@ + e@ + "); the link is swept instead"@,
        },
{
    let mut first = number::print(routes as u64);
    first.append(" read");
    let second = match table {
        Ok(n) => {
            let mut s = number::print(*n as u64);
            s.append(" read");
            s
        },
        Err(e) => {
            let mut s = "refused by the OS (".to_owned();
            s.append(e.as_str());
            s.append("); the link is swept instead");
            s
        },
    };
    let mut v: Vec<(&'static str, String)> = Vec::new();
    v.push(("routes", first));
    v.push(("neighbour table", second));
    v
}

// ---------------------------------------------------------------------------
// Laws
// ---------------------------------------------------------------------------

/// Nobody is asked twice, and no one who cannot be another machine is asked at all.
pub proof fn asked_once_and_foreign(v: Seq<Ipv4Addr>)
    ensures
        worth_asking(v).no_duplicates(),
        forall|i: int| 0 <= i < worth_asking(v).len() ==> foreign(#[trigger] worth_asking(v)[i]),
        forall|i: int| 0 <= i < v.len() && foreign(#[trigger] v[i]) ==> worth_asking(v).contains(v[i]),
    decreases v.len(),
{
    if v.len() > 0 {
        let t = v.drop_last();
        let rest = worth_asking(t);
        asked_once_and_foreign(t);
        let w = worth_asking(v);
        assert forall|i: int, j: int| 0 <= i < w.len() && 0 <= j < w.len() && i != j implies w[i]
            != w[j] by {
            if i == rest.len() {
                assert(rest.contains(rest[j]));
            } else if j == rest.len() {
                assert(rest.contains(rest[i]));
            }
        }
        assert forall|i: int| 0 <= i < v.len() && foreign(#[trigger] v[i]) implies w.contains(
            v[i],
        ) by {
            if i < t.len() {
                assert(t[i] == v[i]);
                let k = choose|k: int| 0 <= k < rest.len() && rest[k] == v[i];
                assert(w[k] == v[i]);
            } else if !rest.contains(v.last()) {
                assert(w[rest.len() as int] == v[i]);
            } else {
                let k = choose|k: int| 0 <= k < rest.len() && rest[k] == v[i];
                assert(w[k] == v[i]);
            }
        }
    }
}

/// What is handed to ssh begins with no dash, so that it is never taken for an option,
/// and a root or an empty name is none.
pub proof fn label_is_no_option(name: Seq<char>)
    ensures
        is_label(first_label(name)) ==> first_label(name).len() > 0 && first_label(name)[0] != '-',
{
}

/// A hardware address that answers for two addresses names neither.
pub proof fn router_names_nobody(v: Seq<NeighborView>, i: int, j: int)
    requires
        0 <= i < v.len(),
        0 <= j < v.len(),
        i != j,
        v[i].mac == v[j].mac,
    ensures
        !names_a_machine(v, i),
        !names_a_machine(v, j),
{
}

// ---------------------------------------------------------------------------
// Laws of tables
// ---------------------------------------------------------------------------

/// A destination reads back: an address with the length of its prefix, and one without as a
/// single machine.
pub proof fn destination_reads_back(ip: Ipv4Addr, len: u8)
    ensures
        destination_in(dotted(ip) + "/"@ + number::decimal(len as nat)) == Some(
            RoutePrefix { dst: ip, len },
        ),
        destination_in(dotted(ip)) == Some(RoutePrefix { dst: ip, len: 32 }),
{
    reveal_strlit("/");
    let a = dotted(ip);
    let n = number::decimal(len as nat);
    let s = a + "/"@ + n;
    crate::provision::ipv4::address_reads_back(ip);
    dotted_holds_no_slash(ip);
    number::decimal_reads_back(len as nat);
    assert(number::read_unsigned(n, 255) == Some(len as int));
    let k = a.len() as int;
    assert forall|j: int| 0 <= j < k implies s[j] != '/' by {
        assert(a.contains(a[j]));
    }
    text::first_index_is(s, '/', k);
    assert(s.take(k) =~= a);
    assert(s.skip(k + 1) =~= n);
    text::first_index_bounds(a, '/');
    if text::first_index(a, '/') < a.len() {
        assert(a.contains(a[text::first_index(a, '/')]));
    }
}

proof fn dotted_holds_no_slash(ip: Ipv4Addr)
    ensures
        !dotted(ip).contains('/'),
{
    reveal_strlit(".");
    let a = number::decimal(ip.a as nat);
    let b = number::decimal(ip.b as nat);
    let c = number::decimal(ip.c as nat);
    let d = number::decimal(ip.d as nat);
    number::decimal_holds_digits(ip.a as nat, '/');
    number::decimal_holds_digits(ip.b as nat, '/');
    number::decimal_holds_digits(ip.c as nat, '/');
    number::decimal_holds_digits(ip.d as nat, '/');
    let s = dotted(ip);
    if s.contains('/') {
        let k = choose|k: int| 0 <= k < s.len() && s[k] == '/';
        if k < a.len() {
            assert(a.contains(a[k]));
        } else if k == a.len() {
        } else if k < a.len() + 1 + b.len() {
            assert(b.contains(b[k - a.len() - 1]));
        } else if k == a.len() + 1 + b.len() {
        } else if k < a.len() + b.len() + 2 + c.len() {
            assert(c.contains(c[k - a.len() - b.len() - 2]));
        } else if k == a.len() + b.len() + 2 + c.len() {
        } else {
            assert(d.contains(d[k - a.len() - b.len() - c.len() - 3]));
        }
    }
}

/// A line of a table gives the route in its first field; in a table with flags only where the
/// third field marks it as one to a machine.
pub proof fn lines_give_their_routes(line: Seq<char>)
    ensures
        ({
            let f = text::words(line);
            &&& f.len() > 0 ==> route_in(line, false) == destination_in(f[0])
            &&& f.len() > 2 && f[2].contains('H') ==> route_in(line, true) == destination_in(f[0])
            &&& f.len() > 2 && !f[2].contains('H') ==> route_in(line, true) is None
            &&& f.len() <= 2 ==> route_in(line, true) is None
            &&& f.len() == 0 ==> route_in(line, false) is None
        }),
{
}

/// Routes are read line by line, in order, however many there are.
pub proof fn routes_add_up(a: Seq<Seq<char>>, b: Seq<Seq<char>>, line: Seq<char>, flagged: bool)
    ensures
        routes_in(a + b, flagged) == routes_in(a, flagged) + routes_in(b, flagged),
        routes_in(seq![line], flagged) == match route_in(line, flagged) {
            Some(r) => seq![r],
            None => Seq::empty(),
        },
    decreases b.len(),
{
    if b.len() == 0 {
        assert(a + b =~= a);
        assert(routes_in(a, flagged) + routes_in(b, flagged) =~= routes_in(a, flagged));
    } else {
        assert((a + b).drop_last() =~= a + b.drop_last());
        routes_add_up(a, b.drop_last(), line, flagged);
        assert(routes_in(a + b, flagged) =~= routes_in(a, flagged) + routes_in(b, flagged));
    }
    reveal_with_fuel(routes_in, 2);
    assert(seq![line].drop_last() =~= Seq::empty());
    if let Some(r) = route_in(line, flagged) {
        assert(Seq::<RoutePrefix>::empty().push(r) =~= seq![r]);
    }
}

/// What routes and links name comes one after the other, in order.
pub proof fn named_machines_add_up(a: Seq<RoutePrefix>, r: RoutePrefix)
    ensures
        all_named(a.push(r)) == all_named(a) + named_by_route(r),
        all_on_links(a.push(r)) == all_on_links(a) + on_link(r),
        all_named(Seq::empty()).len() == 0,
        all_on_links(Seq::empty()).len() == 0,
{
    assert(a.push(r).drop_last() =~= a);
}

/// Entries are read line by line, in order: a line with an address is one, with the hardware
/// address in it, and a line without is none.
pub proof fn entries_add_up(a: Seq<Seq<char>>, b: Seq<Seq<char>>, line: Seq<char>)
    ensures
        neighbors_in(a + b) == neighbors_in(a) + neighbors_in(b),
        neighbors_in(seq![line]) == match first_address(text::words(line)) {
            Some(ip) => seq![NeighborView { ip, mac: first_mac(text::words(line)) }],
            None => Seq::empty(),
        },
    decreases b.len(),
{
    if b.len() == 0 {
        assert(a + b =~= a);
        assert(neighbors_in(a) + neighbors_in(b) =~= neighbors_in(a));
    } else {
        assert((a + b).drop_last() =~= a + b.drop_last());
        entries_add_up(a, b.drop_last(), line);
        assert(neighbors_in(a + b) =~= neighbors_in(a) + neighbors_in(b));
    }
    reveal_with_fuel(neighbors_in, 2);
    assert(seq![line].drop_last() =~= Seq::empty());
    if let Some(ip) = first_address(text::words(line)) {
        let e = NeighborView { ip, mac: first_mac(text::words(line)) };
        assert(Seq::<NeighborView>::empty().push(e) =~= seq![e]);
    }
}

/// The address of an entry is the first field that is one, in parentheses or not.
pub proof fn first_address_is_taken(f: Seq<Seq<char>>, i: int, ip: Ipv4Addr)
    requires
        0 <= i < f.len(),
        f[i] == dotted(ip) || f[i] == "("@ + dotted(ip) + ")"@,
        forall|j: int| 0 <= j < i ==> address_in(bare(#[trigger] f[j])) is None,
    ensures
        first_address(f) == Some(ip),
    decreases f.len(),
{
    if i == 0 {
        reveal_strlit("(");
        reveal_strlit(")");
        let a = dotted(ip);
        crate::provision::ipv4::address_reads_back(ip);
        dotted_has_no_parentheses(ip);
        assert(bare(a) == a);
        let s = "("@ + a + ")"@;
        if f[0] == s {
            reveal_with_fuel(bare, 3);
            let t = s.drop_first();
            assert(t =~= a + ")"@);
            assert(t[0] == a[0]);
            assert(t.last() == ')');
            assert(t.drop_last() =~= a);
        }
    } else {
        let t = f.drop_first();
        assert(address_in(bare(f[0])) is None);
        assert forall|j: int| 0 <= j < i - 1 implies address_in(bare(#[trigger] t[j])) is None by {
            assert(t[j] == f[j + 1]);
        }
        first_address_is_taken(t, i - 1, ip);
    }
}

proof fn dotted_has_no_parentheses(ip: Ipv4Addr)
    ensures
        dotted(ip).len() > 0,
        dotted(ip)[0] != '(' && dotted(ip)[0] != ')',
        dotted(ip).last() != '(' && dotted(ip).last() != ')',
{
    let a = number::decimal(ip.a as nat);
    let d = number::decimal(ip.d as nat);
    number::decimal_reads_back(ip.a as nat);
    number::decimal_reads_back(ip.d as nat);
    assert(dotted(ip)[0] == a[0]);
    assert(dotted(ip).last() == d[d.len() - 1]);
    assert(number::is_digit(a[0]));
    assert(number::is_digit(d[d.len() - 1]));
}

/// The hardware address of an entry is the first field that is one, in lower case.
pub proof fn first_mac_is_taken(f: Seq<Seq<char>>, i: int)
    requires
        0 <= i <= f.len(),
        forall|j: int| 0 <= j < i ==> !is_mac_text(#[trigger] f[j]),
        i < f.len() ==> is_mac_text(f[i]),
    ensures
        i < f.len() ==> first_mac(f) == Some(text::lowercase(f[i])),
        i == f.len() ==> first_mac(f) is None,
    decreases f.len(),
{
    if f.len() > 0 && i > 0 {
        let t = f.drop_first();
        assert(!is_mac_text(f[0]));
        assert forall|j: int| 0 <= j < i - 1 implies !is_mac_text(#[trigger] t[j]) by {
            assert(t[j] == f[j + 1]);
        }
        first_mac_is_taken(t, i - 1);
    }
}

/// A field is a hardware address where it is six parts with colons between them, each of one
/// or two hexadecimal digits; one with a part of another kind is none.
pub proof fn hardware_addresses_are_hexadecimal(parts: Seq<Seq<char>>)
    requires
        parts.len() > 0,
        forall|i: int|
            0 <= i < parts.len() ==> !(#[trigger] parts[i]).contains(':') && !parts[i].contains('-'),
    ensures
        is_mac_text(text::joined(parts, seq![':'])) <==> parts.len() >= 6 && forall|i: int|
            0 <= i < parts.len() ==> 1 <= (#[trigger] parts[i]).len() <= 2 && forall|j: int|
                0 <= j < parts[i].len() ==> {
                    let c = #[trigger] parts[i][j];
                    ('0' <= c && c <= '9') || ('a' <= c && c <= 'f') || ('A' <= c && c <= 'F')
                },
{
    let s = text::joined(parts, seq![':']);
    joined_holds_no_hyphen(parts);
    assert(with_colons(s) =~= s) by {
        assert forall|i: int| 0 <= i < s.len() implies with_colons(s)[i] == s[i] by {
            assert(s.contains(s[i]));
        }
    }
    pieces_of_joined(parts);
    if is_mac_text(s) {
        assert forall|i: int| 0 <= i < parts.len() implies 1 <= (#[trigger] parts[i]).len() <= 2
            && forall|j: int|
            0 <= j < parts[i].len() ==> {
                let c = #[trigger] parts[i][j];
                ('0' <= c && c <= '9') || ('a' <= c && c <= 'f') || ('A' <= c && c <= 'F')
            } by {
            assert(is_hex_pair(parts[i]));
        }
    }
    if parts.len() >= 6 && forall|i: int|
        0 <= i < parts.len() ==> 1 <= (#[trigger] parts[i]).len() <= 2 && forall|j: int|
            0 <= j < parts[i].len() ==> {
                let c = #[trigger] parts[i][j];
                ('0' <= c && c <= '9') || ('a' <= c && c <= 'f') || ('A' <= c && c <= 'F')
            } {
        assert forall|i: int| 0 <= i < parts.len() implies is_hex_pair(#[trigger] parts[i]) by {
            assert forall|j: int| 0 <= j < parts[i].len() implies is_hex(#[trigger] parts[i][j]) by {}
        }
    }
}

proof fn joined_holds_no_hyphen(parts: Seq<Seq<char>>)
    requires
        forall|i: int| 0 <= i < parts.len() ==> !(#[trigger] parts[i]).contains('-'),
    ensures
        !text::joined(parts, seq![':']).contains('-'),
    decreases parts.len(),
{
    let s = text::joined(parts, seq![':']);
    if parts.len() == 1 {
        assert(!parts[0].contains('-'));
    } else if parts.len() > 1 {
        let v = parts.drop_last();
        assert forall|i: int| 0 <= i < v.len() implies !(#[trigger] v[i]).contains('-') by {
            assert(v[i] == parts[i]);
        }
        joined_holds_no_hyphen(v);
        let front = text::joined(v, seq![':']);
        let last = parts[parts.len() - 1];
        assert(!last.contains('-'));
        if s.contains('-') {
            let k = choose|k: int| 0 <= k < s.len() && s[k] == '-';
            if k < front.len() {
                assert(front.contains(front[k]));
            } else if k > front.len() {
                assert(last.contains(last[k - front.len() - 1]));
            }
        }
    }
}

proof fn pieces_of_joined(parts: Seq<Seq<char>>)
    requires
        parts.len() > 0,
        forall|i: int| 0 <= i < parts.len() ==> !(#[trigger] parts[i]).contains(':'),
    ensures
        text::pieces(text::joined(parts, seq![':']), ':') == parts,
    decreases parts.len(),
{
    let last = parts[parts.len() - 1];
    assert(!last.contains(':'));
    text::pieces_without(last, ':');
    if parts.len() == 1 {
        assert(seq![last] =~= parts);
    } else {
        let v = parts.drop_last();
        assert forall|i: int| 0 <= i < v.len() implies !(#[trigger] v[i]).contains(':') by {
            assert(v[i] == parts[i]);
        }
        pieces_of_joined(v);
        text::pieces_of_join(text::joined(v, seq![':']), ':', last);
        assert(v + seq![last] =~= parts);
    }
}

/// An entry names a machine exactly where it has a hardware address that no other entry has;
/// the machines stand in the order of the table.
pub proof fn machines_have_their_own_hardware(v: Seq<NeighborView>, n: int, i: int)
    requires
        0 <= i < n <= v.len(),
    ensures
        machines_in(v, n) == machines_in(v, n - 1) + if v[n - 1].mac is Some && forall|j: int|
            0 <= j < v.len() && j != n - 1 ==> (#[trigger] v[j]).mac != v[n - 1].mac {
            seq![v[n - 1].ip]
        } else {
            Seq::empty()
        },
        v[i].mac is Some && (forall|j: int|
            0 <= j < v.len() && j != i ==> (#[trigger] v[j]).mac != v[i].mac) ==> machines_in(
            v,
            n,
        ).contains(v[i].ip),
    decreases n,
{
    let less = machines_in(v, n - 1);
    let all = machines_in(v, n);
    assert(less + Seq::<Ipv4Addr>::empty() =~= less);
    assert(less + seq![v[n - 1].ip] =~= less.push(v[n - 1].ip));
    if names_a_machine(v, i) {
        if i < n - 1 {
            machines_have_their_own_hardware(v, n - 1, i);
            let k = choose|k: int| 0 <= k < less.len() && less[k] == v[i].ip;
            assert(all[k] == v[i].ip);
        } else {
            assert(all[less.len() as int] == v[i].ip);
        }
    }
}

/// Machines are asked in the order in which they were found first.
pub proof fn asked_in_the_order_found(a: Seq<Ipv4Addr>, b: Seq<Ipv4Addr>)
    ensures
        worth_asking(a).is_prefix_of(worth_asking(a + b)),
    decreases b.len(),
{
    if b.len() == 0 {
        assert(a + b =~= a);
    } else {
        assert((a + b).drop_last() =~= a + b.drop_last());
        asked_in_the_order_found(a, b.drop_last());
    }
}

/// The label of a name is what stands before its first dot.
pub proof fn label_stands_before_the_dot(label: Seq<char>, domain: Seq<char>)
    requires
        text::is_word(label),
        !label.contains('.'),
        domain.len() > 0 ==> text::is_word(domain) && domain.last() != '.',
    ensures
        first_label(label) == label,
        domain.len() > 0 ==> first_label(label + seq!['.'] + domain) == label,
        first_label(label + seq!['.']) == label,
{
    let whole = label + seq!['.'] + domain;
    let rooted = label + seq!['.'];
    word_is_trimmed(label);
    word_is_trimmed(rooted);
    assert(label.last() != '.') by {
        assert(label.contains(label.last()));
    }
    assert(without_dots(label) == label);
    assert(rooted.drop_last() =~= label);
    assert(without_dots(rooted) == label);
    text::pieces_without(label, '.');
    if domain.len() > 0 {
        assert forall|i: int| 0 <= i < whole.len() implies !text::is_space(#[trigger] whole[i]) by {
            if i < label.len() {
                assert(whole[i] == label[i]);
            } else if i > label.len() {
                assert(whole[i] == domain[i - label.len() - 1]);
            }
        }
        word_is_trimmed(whole);
        assert(whole.last() == domain.last());
        text::pieces_of_sum(label, '.', domain);
    }
}

proof fn word_is_trimmed(w: Seq<char>)
    requires
        text::is_word(w),
    ensures
        text::trimmed(w) == w,
{
    assert(!text::is_space(w[0]));
    assert(!text::is_space(w[w.len() - 1]));
}

/// A label may be handed to ssh exactly where it has one to 63 letters, digits, dashes and
/// underscores of ASCII, and no dash in front.
pub proof fn labels_are_plain(s: Seq<char>)
    ensures
        is_label(s) <==> 1 <= s.len() <= 63 && s[0] != '-' && forall|i: int|
            0 <= i < s.len() ==> {
                let c = #[trigger] s[i];
                ('a' <= c && c <= 'z') || ('A' <= c && c <= 'Z') || ('0' <= c && c <= '9') || c
                    == '-' || c == '_'
            },
{
    if is_label(s) {
        assert forall|i: int| 0 <= i < s.len() implies {
            let c = #[trigger] s[i];
            ('a' <= c && c <= 'z') || ('A' <= c && c <= 'Z') || ('0' <= c && c <= '9') || c == '-'
                || c == '_'
        } by {
            assert(is_label_char(s[i]));
        }
    }
}

/// A machine that answered is offered by its name, or by its address where it has none, and
/// always with its address.
pub proof fn machines_are_offered_by_name(ip: Ipv4Addr, name: Seq<char>)
    ensures
        offer_of(ip, Some(name)) == (name, dotted(ip)),
        offer_of(ip, None) == (dotted(ip), dotted(ip)),
{
}

/// The tables are asked for in the words of each system.
pub proof fn tables_are_asked_for_by_system(os: Seq<char>)
    requires
        os != "windows"@,
        os != "macos"@,
    ensures
        route_command_of(os) == (
            "ip"@,
            seq!["-4"@, "-o"@, "route"@, "show"@, "table"@, "all"@],
        ),
        neighbor_command_of(os) == ("ip"@, seq!["-4"@, "-o"@, "neigh"@, "show"@]),
        route_command_of("macos"@) == ("netstat"@, seq!["-rn"@, "-f"@, "inet"@]),
        neighbor_command_of("macos"@) == ("arp"@, seq!["-an"@]),
        route_command_of("windows"@).0 == "powershell"@,
        route_command_of("windows"@).1.last()
            == "Get-NetRoute -AddressFamily IPv4 | ForEach-Object { $_.DestinationPrefix }"@,
        neighbor_command_of("windows"@).0 == "powershell"@,
        neighbor_command_of("windows"@).1.last()
            == "Get-NetNeighbor -AddressFamily IPv4 | ForEach-Object { \"$($_.IPAddress) $($_.LinkLayerAddress) $($_.State)\" }"@,
{
    reveal_strlit("macos");
    reveal_strlit("windows");
    assert("macos"@.len() != "windows"@.len());
}

} // verus!
