use xmux::provision::ipv4::{expand, link_addresses, offerable, Ipv4Addr, RoutePrefix};
use xmux::provision::mdns::{first_pointer_name, read_name, reverse_question, skip_name};
use xmux::provision::neighbor::{
    candidates, destination, dns_label, host_routes, is_mac, is_ssh_banner, link_neighbors,
    link_sweep, named_neighbors, neighbor_command, parse_host_routes, parse_neighbors,
    reached_this_box, route_command, source_report, usable_neighbors, Neighbor, Offer,
};
use xmux::provision::netlink::{
    addr4, address_of_message, align4, attributes, dump_request, mac_string, neighbor_of_message,
    read_reply, route_of_message, Attribute, ByteOrder, ReplyEnd, NLMSG_DONE, NLMSG_ERROR,
    RTM_GETROUTE, RTM_NEWROUTE,
};

fn ip(s: &str) -> Ipv4Addr {
    Ipv4Addr::parse(s).unwrap()
}

#[test]
fn the_question_asks_for_the_address_backwards() {
    let q = reverse_question(ip("192.168.45.180"));
    let text = String::from_utf8_lossy(&q).into_owned();
    assert!(
        text.contains("180") && text.contains("in-addr") && text.contains("arpa"),
        "the question names the address in reverse: {text:?}"
    );
    assert_eq!(&q[4..6], &[0, 1], "exactly one question");
    assert_eq!(&q[q.len() - 4..], &[0, 12, 0, 1], "a PTR question in IN");
}

#[test]
fn the_name_is_read_out_of_the_answer() {
    let mut msg = reverse_question(ip("1.0.0.11"));
    msg[2] = 0x84;
    msg[6] = 0x00;
    msg[7] = 0x01;
    msg.extend_from_slice(&[0xc0, 0x0c]);
    msg.extend_from_slice(&[0x00, 0x0c, 0x00, 0x01]);
    msg.extend_from_slice(&[0x00, 0x00, 0x00, 0x78]);
    let name: &[u8] = &[
        9, b'j', b'u', b'p', b'i', b't', b'e', b'r', b'0', b'0', 5, b'l', b'o', b'c', b'a', b'l',
        0,
    ];
    msg.extend_from_slice(&(name.len() as u16).to_be_bytes());
    msg.extend_from_slice(name);
    assert_eq!(first_pointer_name(&msg).as_deref(), Some("jupiter00.local"));
}

#[test]
fn a_message_with_no_answer_names_nothing() {
    let q = reverse_question(ip("10.0.0.1"));
    assert_eq!(first_pointer_name(&q), None);
    assert_eq!(first_pointer_name(&[]), None);
    assert_eq!(first_pointer_name(&[0; 12]), None);
}

#[test]
fn a_circular_name_ends() {
    let msg = [0u8; 12].into_iter().chain([0xc0, 0x0c]).collect::<Vec<u8>>();
    assert_eq!(read_name(&msg, 12), None);
}

#[test]
fn a_name_is_read_to_where_it_is_skipped_to() {
    let msg = [2u8, b'a', b'b', 1, b'c', 0, 9];
    assert_eq!(read_name(&msg, 0), Some(("ab.c".to_string(), 6)));
    assert_eq!(skip_name(&msg, 0), Some(6));
}

#[test]
fn a_label_that_is_no_utf8_is_read_with_replacements() {
    let msg = [1u8, 0xff, 0];
    assert_eq!(read_name(&msg, 0), Some(("\u{fffd}".to_string(), 3)));
}

const IP_ROUTE: &str = "\
default via 143.248.140.1 dev eno1 proto static metric 100
100.64.141.117 dev tailscale0 table 52
100.77.0.2 dev tailscale0 table 52
143.248.140.0/24 dev eno1 proto kernel scope link src 143.248.140.120 metric 100
192.168.0.0/24 dev docker0 proto kernel scope link src 192.168.0.1 linkdown
local 143.248.140.120 dev eno1 table local proto kernel scope host src 143.248.140.120
broadcast 143.248.140.255 dev eno1 table local proto kernel scope link src 143.248.140.120
";

fn addresses(out: &str) -> Vec<Ipv4Addr> {
    host_routes(&parse_host_routes(out, false))
}

#[test]
fn a_route_to_one_address_is_a_neighbour_and_a_route_to_a_range_is_not() {
    assert_eq!(
        addresses(IP_ROUTE),
        vec![ip("100.64.141.117"), ip("100.77.0.2")],
        "only the per-peer routes name a machine"
    );
}

#[test]
fn a_summarised_route_names_every_machine_in_it() {
    let got = addresses(
        "\
100.77.0.1/32
100.77.0.2/31
100.88.0.6/31
192.168.45.0/24
",
    );
    assert!(
        got.contains(&ip("100.77.0.2"))
            && got.contains(&ip("100.77.0.3"))
            && got.contains(&ip("100.88.0.6"))
            && got.contains(&ip("100.88.0.7")),
        "both halves of each summarised route are asked: {got:?}"
    );
    assert!(
        !got.iter().any(|a| (a.a, a.b, a.c) == (192, 168, 45)),
        "a /24 is a network, and asking every address in one is a scan: {got:?}"
    );
}

#[test]
fn a_link_is_swept_only_while_it_is_a_link() {
    let link = |len| link_addresses(&RoutePrefix { dst: ip("192.168.45.180"), len });
    assert_eq!(link(24).len(), 254);
    assert_eq!(link(24)[0], ip("192.168.45.1"));
    assert_eq!(link(24)[253], ip("192.168.45.254"));
    assert_eq!(link(30).len(), 2);
    assert!(link(23).is_empty(), "wider than a link, and asking it is a scan");
    assert!(link(31).is_empty(), "a point-to-point link holds nobody else");
    assert!(link(32).is_empty());
}

#[test]
fn a_block_is_expanded_only_while_it_is_small() {
    let block = |len| expand(&RoutePrefix { dst: ip("10.0.0.9"), len });
    assert_eq!(block(32), vec![ip("10.0.0.9")]);
    assert_eq!(block(31).len(), 2);
    assert_eq!(block(29).len(), 8);
    assert_eq!(
        block(29)[0],
        ip("10.0.0.8"),
        "the block starts where the prefix does, not at the address given"
    );
    assert!(block(28).is_empty());
    assert!(block(24).is_empty());
}

#[test]
fn a_windows_routing_table_names_its_peers_by_the_thirty_two() {
    let out = "\
100.119.48.112/32
100.117.199.32/32
100.64.0.0/10
127.0.0.1/32
224.0.0.0/4
255.255.255.255/32
";
    let got = addresses(out);
    assert!(
        got.contains(&ip("100.119.48.112")) && got.contains(&ip("100.117.199.32")),
        "the peers are taken: {got:?}"
    );
    assert!(
        !got.contains(&ip("100.64.0.0")),
        "the range the tunnel claims is not a machine: {got:?}"
    );
    assert!(!offerable(&ip("127.0.0.1")));
    assert!(!offerable(&ip("255.255.255.255")));
    assert!(!offerable(&ip("224.0.0.1")));
}

#[test]
fn a_flagged_table_marks_its_host_routes() {
    let out = "\
Destination        Gateway            Flags  Netif Expire
default            192.168.1.1        UGScg    en0
100.77.0.2         link#12            UHS     utun3
192.168.1/24       link#6             UCS      en0
";
    assert_eq!(
        parse_host_routes(out, true),
        vec![RoutePrefix { dst: ip("100.77.0.2"), len: 32 }]
    );
}

#[test]
fn addresses_are_written_and_read() {
    assert_eq!(ip("10.0.200.9"), Ipv4Addr::new(10, 0, 200, 9));
    assert_eq!(ip("10.0.200.9").text(), "10.0.200.9");
    assert_eq!(Ipv4Addr::from_number(ip("1.2.3.4").to_number()), ip("1.2.3.4"));
    assert_eq!(ip("1.2.3.4").to_number(), 0x0102_0304);
    for bad in ["", "1.2.3", "1.2.3.4.5", "256.0.0.1", "01.2.3.4", "1.2.3.x"] {
        assert_eq!(Ipv4Addr::parse(bad), None, "{bad}");
    }
    assert_eq!(
        destination("10.0.0.0/8"),
        Some(RoutePrefix { dst: ip("10.0.0.0"), len: 8 })
    );
    assert_eq!(destination("10.0.0.0/x"), None);
}

#[test]
fn the_neighbour_table_keeps_only_entries_that_name_a_machine() {
    let out = "\
143.248.140.60 dev eno1 lladdr 7c:c2:55:29:f3:8c REACHABLE
143.248.140.69 dev eno1 lladdr 7c:c2:55:29:f3:90 STALE
192.168.0.164 dev docker0  FAILED
10.249.15.165 dev eno1 lladdr 00:90:27:ef:64:ee STALE
143.248.90.79 dev eno1 lladdr 00:90:27:ef:64:ee STALE
1.1.1.1 dev eno1 lladdr 00:90:27:ef:64:ee STALE
";
    let entries = parse_neighbors(out);
    assert_eq!(entries.len(), 6, "every line is an entry: {entries:?}");
    assert_eq!(entries[2].mac, None, "a failed lookup resolved to no hardware address");
    let usable = usable_neighbors(&entries);
    assert_eq!(
        usable,
        vec![ip("143.248.140.60"), ip("143.248.140.69")],
        "the failed entry and the router's three addresses are not machines"
    );
}

#[test]
fn a_bsd_neighbour_table_reads_the_same_way() {
    let out = "\
? (192.168.1.20) at 3c:07:54:72:6e:ee on en0 ifscope [ethernet]
? (192.168.1.30) at (incomplete) on en0 ifscope [ethernet]
";
    let entries = parse_neighbors(out);
    assert_eq!(entries.len(), 2);
    assert_eq!(entries[0].ip, ip("192.168.1.20"));
    assert_eq!(entries[0].mac.as_deref(), Some("3c:07:54:72:6e:ee"));
    assert_eq!(entries[1].mac, None, "`(incomplete)` is no hardware address");
}

#[test]
fn a_windows_neighbour_table_reads_the_same_way() {
    let out = "\
192.168.0.219 34-5A-60-7E-F5-56 Stale
192.168.0.1 8C-90-2D-9B-AE-F2 Reachable
192.168.0.99  Unreachable
";
    let entries = parse_neighbors(out);
    assert_eq!(entries.len(), 3);
    assert_eq!(entries[0].mac.as_deref(), Some("34-5a-60-7e-f5-56"));
    assert_eq!(entries[2].mac, None);
}

#[test]
fn a_resolver_answer_is_kept_as_its_first_label() {
    assert_eq!(dns_label("mars02.tail1cbccc.ts.net").as_deref(), Some("mars02"));
    assert_eq!(dns_label("mars02.tail1cbccc.ts.net.").as_deref(), Some("mars02"));
    assert_eq!(dns_label("jupiter06").as_deref(), Some("jupiter06"));
    assert_eq!(dns_label("Kyla.tail0.ts.net").as_deref(), Some("kyla"));
}

#[test]
fn an_answer_that_is_not_a_name_is_refused() {
    assert_eq!(dns_label("-weird.example"), None, "a leading dash");
    assert_eq!(dns_label("."), None, "a root with no label");
    assert_eq!(dns_label(""), None, "nothing at all");
    assert_eq!(dns_label("has space.example"), None, "a space is not a label");
    assert_eq!(dns_label(&"x".repeat(64)), None, "longer than a label may be");
}

#[test]
fn an_unnamed_neighbour_keeps_its_address_as_its_name() {
    let got = named_neighbors(&vec![ip("10.0.0.9")], &vec![None]);
    assert_eq!(got[0].name, "10.0.0.9");
}

#[test]
fn a_machine_with_several_addresses_is_offered_once() {
    let name = |s: &str| Some(s.to_string());
    let got = named_neighbors(
        &vec![ip("10.0.0.9"), ip("10.0.0.2"), ip("10.0.0.7")],
        &vec![name("mars"), name("kyla"), name("kyla")],
    );
    assert_eq!(
        got,
        vec![
            Offer { name: "kyla".into(), addr: "10.0.0.2".into() },
            Offer { name: "mars".into(), addr: "10.0.0.9".into() },
        ]
    );
}

#[test]
fn naming_nothing_runs_nothing() {
    assert!(named_neighbors(&vec![], &vec![]).is_empty());
}

#[test]
fn only_an_ssh_greeting_makes_a_neighbour_a_host() {
    assert!(is_ssh_banner(b"SSH-"));
    assert!(!is_ssh_banner(b"HTTP"), "a web server is not a host");
    assert!(!is_ssh_banner(b""), "a port that said nothing is not one either");
    assert!(!is_ssh_banner(b"SS"), "half a greeting is not one");
}

#[test]
fn a_connection_to_this_box_is_not_a_neighbour() {
    let mine = ip("143.248.140.120");
    let theirs = ip("143.248.140.60");
    assert!(reached_this_box(mine, mine));
    assert!(!reached_this_box(mine, theirs));
}

#[test]
fn an_address_is_asked_once_and_never_one_of_this_box() {
    assert_eq!(
        candidates(&vec![ip("10.0.0.9"), ip("127.0.0.1"), ip("10.0.0.9"), ip("169.254.1.1")]),
        vec![ip("10.0.0.9")]
    );
}

#[test]
fn a_refused_table_has_the_link_swept() {
    let own = vec![RoutePrefix { dst: ip("10.0.0.5"), len: 30 }];
    assert_eq!(link_neighbors(&None, &own), vec![ip("10.0.0.5"), ip("10.0.0.6")]);
    assert_eq!(link_sweep(&own), vec![ip("10.0.0.5"), ip("10.0.0.6")]);
    let table = vec![Neighbor {
        ip: ip("10.0.0.9"),
        mac: Some("00:1a:2b:3c:4d:5e".into()),
    }];
    assert_eq!(link_neighbors(&Some(table), &own), vec![ip("10.0.0.9")]);
}

#[test]
fn the_commands_of_the_systems() {
    assert_eq!(route_command("macos").0, "netstat");
    assert_eq!(route_command("linux").0, "ip");
    assert_eq!(route_command("windows").0, "powershell");
    assert_eq!(neighbor_command("macos").0, "arp");
    assert!(is_mac("00:1a:2b:3c:4d:5e") && !is_mac("(incomplete)"));
}

#[test]
fn a_report_counts_what_was_read() {
    let got = source_report(3, &Ok(2));
    assert_eq!(got[0], ("routes", "3 read".to_string()));
    assert_eq!(got[1], ("neighbour table", "2 read".to_string()));
    let got = source_report(0, &Err("denied".into()));
    assert!(got[1].1.contains("denied"));
}

fn order() -> ByteOrder {
    if u16::from_ne_bytes([1, 0]) == 1 {
        ByteOrder::Little
    } else {
        ByteOrder::Big
    }
}

#[test]
fn attributes_are_read_in_order_and_stop_at_a_bad_length() {
    let mut buf = Vec::new();
    buf.extend_from_slice(&8u16.to_ne_bytes());
    buf.extend_from_slice(&1u16.to_ne_bytes());
    buf.extend_from_slice(&[10, 0, 0, 1]);
    buf.extend_from_slice(&6u16.to_ne_bytes());
    buf.extend_from_slice(&2u16.to_ne_bytes());
    buf.extend_from_slice(&[7, 7, 0, 0]);
    let got = attributes(&buf, order());
    assert_eq!(got.len(), 2);
    assert_eq!(got[0], Attribute { kind: 1, value: vec![10, 0, 0, 1] });
    assert_eq!(got[1], Attribute { kind: 2, value: vec![7, 7] });

    let mut bad = Vec::new();
    bad.extend_from_slice(&64u16.to_ne_bytes());
    bad.extend_from_slice(&1u16.to_ne_bytes());
    bad.extend_from_slice(&[10, 0, 0, 1]);
    assert!(attributes(&bad, order()).is_empty());
}

#[test]
fn a_hardware_address_is_read_only_at_its_own_length() {
    assert_eq!(
        mac_string(&[0x00, 0x1a, 0x2b, 0x3c, 0x4d, 0x5e]).as_deref(),
        Some("00:1a:2b:3c:4d:5e")
    );
    assert_eq!(mac_string(&[0, 1, 2]), None, "an infiniband-length address");
    assert_eq!(addr4(&[10, 0, 0, 1]), Some(ip("10.0.0.1")));
    assert_eq!(addr4(&[10, 0, 0]), None);
}

#[test]
fn a_request_says_its_length_and_kind() {
    let msg = dump_request(RTM_GETROUTE, 12, ByteOrder::Little);
    assert_eq!(msg.len(), 28);
    assert_eq!(&msg[..4], &[28, 0, 0, 0]);
    assert_eq!(&msg[4..6], &[26, 0]);
    assert_eq!(msg[16], 2, "IPv4 is asked for");
    assert_eq!(align4(5), 8);
}

fn message(kind: u16, body: &[u8]) -> Vec<u8> {
    let mut m = Vec::new();
    m.extend_from_slice(&((16 + body.len()) as u32).to_le_bytes());
    m.extend_from_slice(&kind.to_le_bytes());
    m.extend_from_slice(&[0; 10]);
    m.extend_from_slice(body);
    m
}

#[test]
fn a_reply_is_read_to_its_end() {
    let route = [2u8, 32, 0, 0, 0, 0, 0, 0, 0, 0, 0, 0, 8, 0, 1, 0, 10, 0, 0, 9];
    let mut buf = message(RTM_NEWROUTE, &route);
    let (got, end) = read_reply(&buf, RTM_NEWROUTE, ByteOrder::Little);
    assert_eq!(end, ReplyEnd::More);
    assert_eq!(got, vec![route.to_vec()]);
    assert_eq!(
        route_of_message(&got[0], ByteOrder::Little),
        vec![RoutePrefix { dst: ip("10.0.0.9"), len: 32 }]
    );
    buf.extend_from_slice(&message(NLMSG_DONE, &[0; 4]));
    let (got, end) = read_reply(&buf, RTM_NEWROUTE, ByteOrder::Little);
    assert_eq!((got.len(), end), (1, ReplyEnd::Done));
    let refused = message(NLMSG_ERROR, &(-13i32).to_le_bytes());
    assert!(matches!(
        read_reply(&refused, RTM_NEWROUTE, ByteOrder::Little).1,
        ReplyEnd::Refused(_)
    ));
}

#[test]
fn a_link_and_a_neighbour_are_read_from_their_messages() {
    let link = [2u8, 24, 0, 0, 0, 0, 0, 0, 8, 0, 2, 0, 192, 168, 1, 5];
    assert_eq!(
        address_of_message(&link, ByteOrder::Little),
        Some(RoutePrefix { dst: ip("192.168.1.5"), len: 24 })
    );
    let mut near = vec![2u8, 0, 0, 0, 0, 0, 0, 0, 0, 0, 0, 0, 8, 0, 1, 0, 10, 0, 0, 9];
    near.extend_from_slice(&[10, 0, 2, 0, 0, 0x1a, 0x2b, 0x3c, 0x4d, 0x5e, 0, 0]);
    assert_eq!(
        neighbor_of_message(&near, ByteOrder::Little),
        Some(Neighbor { ip: ip("10.0.0.9"), mac: Some("00:1a:2b:3c:4d:5e".into()) })
    );
}
