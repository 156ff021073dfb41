//! Every host by its id, in the order in which they are shown.
use crate::link::{HostEvent, HostEventView};
use crate::model::host::{new_host, Host, HostView, Liveness};
use crate::model::source::{
    control_path, control_socket, local_sources, spec_source, spec_sources, transport_of,
    SourceView,
};
use crate::model::transport::{transport_id, Transport, TransportView};
use crate::mux::{for_binary, kind_called, server_socket_for, socket_for, MuxView};
use crate::provision::config::{
    conventional_mux, host_entries, local_muxes_of, merged_specs, spec_views, Config, SpecView,
};
use crate::session::{source_id_text, wsl_distro_text, LOCAL_SOURCE};
use crate::table::{keyed, Table};
use crate::text;
use vstd::prelude::*;

verus! {

/// Every host by its id, in the order in which they came.
pub struct Hosts {
    table: Table<Host>,
}

/// What [`Hosts`] holds.
#[verifier::ext_equal]
pub struct HostsView {
    pub order: Seq<Seq<char>>,
    pub map: Map<Seq<char>, HostView>,
}

impl View for Hosts {
    type V = HostsView;

    closed spec fn view(&self) -> HostsView {
        HostsView { order: self.table.order(), map: self.table@.map_values(|h: Host| h@) }
    }
}

/// No hosts.
pub open spec fn no_hosts() -> HostsView {
    HostsView { order: Seq::empty(), map: Map::empty() }
}

/// The hosts with one more, or with one in the place of that with its id.
pub open spec fn inserted(hs: HostsView, h: HostView) -> HostsView {
    let id = transport_id(h.transport);
    HostsView {
        order: if hs.map.dom().contains(id) {
            hs.order
        } else {
            hs.order.push(id)
        },
        map: hs.map.insert(id, h),
    }
}

/// The hosts once that with `id` is `h`.
pub open spec fn changed(hs: HostsView, id: Seq<char>, h: HostView) -> HostsView {
    HostsView { map: hs.map.insert(id, h), ..hs }
}

/// The hosts with that of a mux, where `bin` names one.
pub open spec fn with_mux(hs: HostsView, transport: TransportView, bin: Seq<char>) -> HostsView {
    match kind_called(bin) {
        Some(kind) => inserted(hs, new_host(transport, MuxView { kind, bin })),
        None => hs,
    }
}

/// The hosts with those that specs describe. The name of this machine is taken.
pub open spec fn with_specs(
    hs: HostsView,
    specs: Seq<SpecView>,
    os: Seq<char>,
    dir: Seq<char>,
) -> HostsView
    decreases specs.len(),
{
    if specs.len() == 0 {
        hs
    } else {
        let rest = with_specs(hs, specs.drop_last(), os, dir);
        let spec = specs.last();
        if spec.alias == LOCAL_SOURCE@ {
            rest
        } else {
            with_mux(
                rest,
                TransportView::Ssh {
                    alias: spec.alias,
                    control_path: control_socket(dir, spec.alias),
                    os,
                },
                spec.bin,
            )
        }
    }
}

/// The hosts with that of this machine, where a mux serves it. A mux that takes no
/// socket is given none.
pub open spec fn with_local(
    hs: HostsView,
    muxes: Seq<Seq<char>>,
    socket: Option<Seq<char>>,
) -> HostsView {
    if muxes.len() == 0 {
        hs
    } else {
        with_mux(hs, TransportView::Local { socket: socket_for(muxes[0], socket) }, muxes[0])
    }
}

/// The hosts of a configuration.
pub open spec fn hosts_of(
    local_muxes: Seq<Seq<char>>,
    specs: Seq<SpecView>,
    os: Seq<char>,
    dir: Seq<char>,
    socket: Option<Seq<char>>,
) -> HostsView {
    with_specs(with_local(no_hosts(), local_muxes, socket), specs, os, dir)
}

/// The hosts once an event has come. One of a host that is not known changes nothing.
pub open spec fn after_event(hs: HostsView, ev: HostEventView) -> HostsView {
    match ev {
        HostEventView::Connected { host } | HostEventView::Inventory { host } =>
            if hs.map.dom().contains(host) {
                changed(hs, host, HostView { liveness: Liveness::Live, ..hs.map[host] })
            } else {
                hs
            },
        HostEventView::Exited { host, .. } => if hs.map.dom().contains(host) {
            changed(
                hs,
                host,
                HostView { liveness: Liveness::Unreachable, tty: None, ..hs.map[host] },
            )
        } else {
            hs
        },
        HostEventView::DisplayTty { host, tty } => if hs.map.dom().contains(host) {
            changed(hs, host, HostView { tty, ..hs.map[host] })
        } else {
            hs
        },
        _ => hs,
    }
}

impl Default for Hosts {
    fn default() -> (hs: Hosts)
        ensures
            hs@ == no_hosts(),
    {
        let hs = Hosts { table: Table::new() };
        proof {
            assert(hs@ =~= no_hosts());
        }
        hs
    }
}

impl Hosts {
    /// No hosts.
    pub fn new() -> (hs: Hosts)
        ensures
            hs@ == no_hosts(),
    {
        Hosts::default()
    }

    /// Takes a host in, in the place of that with its id, where there is one.
    pub fn insert(&mut self, host: Host)
        ensures
            final(self)@ == inserted(old(self)@, host@),
    {
        let id = host.id().to_owned();
        self.table.insert(id.as_str(), host);
        proof {
            assert(self@ =~= inserted(old(self)@, host@));
        }
    }

    /// Takes in the host of a mux, where `bin` names one.
    fn insert_mux(&mut self, transport: Transport, bin: &str)
        ensures
            final(self)@ == with_mux(old(self)@, transport@, bin@),
    {
        if let Some(mux) = for_binary(bin) {
            self.insert(Host::new(transport, mux));
        }
    }

    /// The hosts of a configuration: this machine first, with the mux that serves it,
    /// then those that ssh reaches.
    pub fn build(
        cfg: &Config,
        ssh_aliases: &[String],
        os: &str,
        xmux_dir: &str,
        local_socket: Option<String>,
    ) -> (hs: Hosts)
        ensures
            hs@ == hosts_of(
                local_muxes_of(cfg.local.mux@, os@, seq![conventional_mux(os@)]),
                merged_specs(
                    text::texts(ssh_aliases@),
                    host_entries(cfg.hosts@),
                    text::texts(cfg.exclude@),
                    true,
                ),
                os@,
                xmux_dir@,
                text::opt_text(local_socket),
            ),
    {
        let mut hs = Hosts::default();
        let ghost socket = text::opt_text(local_socket);
        if let Some(bin) = cfg.local_bin(os) {
            let socket = server_socket_for(bin.as_str(), local_socket);
            hs.insert_mux(Transport::Local { socket }, bin.as_str());
        }
        let ghost first = hs@;
        let specs = cfg.host_specs(ssh_aliases);
        let ghost all = spec_views(specs@);
        let mut i: usize = 0;
        proof {
            assert(with_specs(first, all.take(0), os@, xmux_dir@) == first);
        }
        while i < specs.len()
            invariant
                i <= specs@.len(),
                all == spec_views(specs@),
                hs@ == with_specs(first, all.take(i as int), os@, xmux_dir@),
            decreases specs.len() - i,
        {
            let alias = specs[i].alias.as_str();
            proof {
                let head = all.take(i + 1);
                assert(head.drop_last() =~= all.take(i as int));
                assert(head.last() == specs@[i as int]@);
            }
            if !text::same(alias, LOCAL_SOURCE) {
                let transport = Transport::Ssh {
                    alias: alias.to_owned(),
                    control_path: control_path(xmux_dir, alias),
                    os: os.to_owned(),
                };
                hs.insert_mux(transport, specs[i].bin.as_str());
            }
            i += 1;
        }
        proof {
            assert(all.take(i as int) =~= all);
        }
        hs
    }

    /// The host with an id.
    pub fn get(&self, id: &str) -> (r: Option<&Host>)
        ensures
            match r {
                Some(h) => self@.map.dom().contains(id@) && h@ == self@.map[id@],
                None => !self@.map.dom().contains(id@),
            },
    {
        self.table.get(id)
    }

    /// The host with an id, to change in place.
    pub fn get_mut(&mut self, id: &str) -> (r: Option<&mut Host>)
        ensures
            match r {
                Some(h) => old(self)@.map.dom().contains(id@) && h@ == old(self)@.map[id@]
                    && final(self)@ == changed(old(self)@, id@, final(h)@),
                None => !old(self)@.map.dom().contains(id@) && final(self)@ == old(self)@,
            },
    {
        let ghost was = self@;
        let ghost t = self.table@;
        proof {
            assert forall|h: Host|
                (#[trigger] t.insert(id@, h)).map_values(|h: Host| h@) == was.map.insert(
                    id@,
                    h@,
                ) by {
                assert(t.insert(id@, h).map_values(|h: Host| h@) =~= was.map.insert(id@, h@));
            }
        }
        self.table.get_mut(id)
    }

    /// The ids, in the order in which the hosts came.
    pub fn ids(&self) -> (v: &Vec<String>)
        ensures
            text::texts(v@) == self@.order,
            keyed(self@.order, self@.map),
    {
        let n: usize = self.table.len();
        proof {
            assert forall|k: Seq<char>| #[trigger]
                self@.map.dom().contains(k) <==> self@.order.contains(k) by {
                assert(self.table@.dom().contains(k) == self@.map.dom().contains(k));
            }
        }
        self.table.keys()
    }

    /// Takes in an event of a host: that it answers, that its connection has ended, or
    /// the tty of this program's own client. What else comes is for others.
    pub fn apply_host_event(&mut self, ev: &HostEvent)
        ensures
            final(self)@ == after_event(old(self)@, ev@),
    {
        match ev {
            HostEvent::Connected { host } | HostEvent::Inventory { host } => {
                if let Some(h) = self.get_mut(host.as_str()) {
                    h.liveness = Liveness::Live;
                }
            },
            HostEvent::Exited { host, .. } => {
                if let Some(h) = self.get_mut(host.as_str()) {
                    h.clear_display_tty();
                    h.liveness = Liveness::Unreachable;
                }
            },
            HostEvent::DisplayTty { host, tty } => {
                if let Some(h) = self.get_mut(host.as_str()) {
                    let tty = match tty {
                        Some(t) => Some(t.clone()),
                        None => None,
                    };
                    h.record_display_tty(tty);
                }
            },
            _ => {},
        }
    }
}

// ---------------------------------------------------------------------------
// Laws
// ---------------------------------------------------------------------------

/// The order lists each host once, whatever is taken in.
pub proof fn order_lists_each_once(hs: HostsView, h: HostView)
    requires
        keyed(hs.order, hs.map),
    ensures
        keyed(inserted(hs, h).order, inserted(hs, h).map),
{
    let id = transport_id(h.transport);
    let after = inserted(hs, h);
    assert(hs.map.dom().contains(id) <==> hs.order.contains(id));
    if !hs.map.dom().contains(id) {
        assert forall|i: int, j: int|
            0 <= i < after.order.len() && 0 <= j < after.order.len() && i != j implies after.order[i]
            != after.order[j] by {
            if i == hs.order.len() {
                assert(hs.order.contains(hs.order[j]));
            } else if j == hs.order.len() {
                assert(hs.order.contains(hs.order[i]));
            }
        }
    }
    assert forall|k: Seq<char>| #[trigger] after.map.dom().contains(k) <==> after.order.contains(
        k,
    ) by {
        assert(hs.map.dom().contains(k) <==> hs.order.contains(k));
        if !hs.map.dom().contains(id) {
            if hs.order.contains(k) {
                let i = choose|i: int| 0 <= i < hs.order.len() && hs.order[i] == k;
                assert(after.order[i] == k);
            }
            if k == id {
                assert(after.order[hs.order.len() as int] == k);
            }
        }
    }
}

/// A host that is taken in again keeps its place.
pub proof fn reinserted_keeps_its_place(hs: HostsView, a: HostView, b: HostView)
    requires
        transport_id(a.transport) == transport_id(b.transport),
    ensures
        inserted(inserted(hs, a), b) == inserted(hs, b),
{
    assert(inserted(inserted(hs, a), b) =~= inserted(hs, b));
}

/// An event changes no host but its own, and makes none.
pub proof fn event_stays_with_its_host(hs: HostsView, ev: HostEventView, other: Seq<char>)
    requires
        ev matches HostEventView::Connected { host } ==> host != other,
        ev matches HostEventView::Inventory { host } ==> host != other,
        ev matches HostEventView::Exited { host, .. } ==> host != other,
        ev matches HostEventView::DisplayTty { host, .. } ==> host != other,
    ensures
        after_event(hs, ev).order == hs.order,
        after_event(hs, ev).map.dom().contains(other) == hs.map.dom().contains(other),
        hs.map.dom().contains(other) ==> after_event(hs, ev).map[other] == hs.map[other],
{
}

/// An event of a host that is not known changes nothing.
pub proof fn unknown_host_is_ignored(hs: HostsView, host: Seq<char>, tty: Option<Seq<char>>)
    requires
        !hs.map.dom().contains(host),
    ensures
        after_event(hs, HostEventView::Connected { host }) == hs,
        after_event(hs, HostEventView::Inventory { host }) == hs,
        after_event(hs, HostEventView::Exited { host, reason: tty }) == hs,
        after_event(hs, HostEventView::DisplayTty { host, tty }) == hs,
{
}

/// The ids that sources answer as.
pub open spec fn aliases_of(v: Seq<SourceView>) -> Seq<Seq<char>> {
    v.map_values(|s: SourceView| s.alias)
}

/// Whether each machine has one source, which goes by the machine's name, and no two are
/// on the same.
pub open spec fn one_each(specs: Seq<SpecView>) -> bool {
    &&& forall|i: int|
        0 <= i < specs.len() ==> (#[trigger] specs[i]).id == specs[i].alias && specs[i].alias
            != LOCAL_SOURCE@ && kind_called(specs[i].bin) is Some
    &&& forall|i: int, j: int|
        0 <= i < j < specs.len() ==> (#[trigger] specs[i]).alias != (#[trigger] specs[j]).alias
}

/// The hosts are those of the sources, in their order, where each machine is served by
/// one mux: this machine first, then those that ssh reaches.
pub proof fn hosts_follow_the_sources(
    local: Seq<char>,
    specs: Seq<SpecView>,
    os: Seq<char>,
    dir: Seq<char>,
    socket: Option<Seq<char>>,
)
    requires
        kind_called(local) is Some,
        one_each(specs),
    ensures
        hosts_of(seq![local], specs, os, dir, socket).order == aliases_of(
            local_sources(seq![local], os, dir, socket) + spec_sources(specs, os, dir),
        ),
    decreases specs.len(),
{
    let goal = aliases_of(
        local_sources(seq![local], os, dir, socket) + spec_sources(specs, os, dir),
    );
    let got = hosts_of(seq![local], specs, os, dir, socket);
    let first = with_local(no_hosts(), seq![local], socket);
    assert(first.order =~= seq![LOCAL_SOURCE@]);
    order_lists_each_once(
        no_hosts(),
        new_host(
            TransportView::Local { socket: socket_for(local, socket) },
            MuxView { kind: kind_called(local)->0, bin: local },
        ),
    );
    assert(source_id_text(LOCAL_SOURCE@, local, false) == LOCAL_SOURCE@);
    if specs.len() == 0 {
        assert(got == first);
        assert(got.order =~= goal);
    } else {
        let less = specs.drop_last();
        assert(one_each(less)) by {
            assert forall|i: int| 0 <= i < less.len() implies (#[trigger] less[i]).id
                == less[i].alias && less[i].alias != LOCAL_SOURCE@ && kind_called(
                less[i].bin,
            ) is Some by {
                assert(less[i] == specs[i]);
            }
            assert forall|i: int, j: int| 0 <= i < j < less.len() implies (#[trigger] less[i]).alias
                != (#[trigger] less[j]).alias by {
                assert(less[i] == specs[i] && less[j] == specs[j]);
            }
        }
        hosts_follow_the_sources(local, less, os, dir, socket);
        let before = hosts_of(seq![local], less, os, dir, socket);
        let part = aliases_of(
            local_sources(seq![local], os, dir, socket) + spec_sources(less, os, dir),
        );
        hosts_are_keyed(seq![local], less, os, dir, socket);
        let spec = specs.last();
        assert(spec == specs[specs.len() - 1]);
        assert(!before.order.contains(spec.alias)) by {
            if before.order.contains(spec.alias) {
                let i = choose|i: int| 0 <= i < before.order.len() && before.order[i] == spec.alias;
                assert(part[i] == spec.alias);
                if i > 0 {
                    assert(part[i] == less[i - 1].id);
                    assert(specs[i - 1].alias == spec.alias);
                }
            }
        }
        assert(!before.map.dom().contains(spec.alias));
        assert(got.order == before.order.push(spec.alias));
        assert(goal =~= part.push(spec.alias));
    }
}

/// A source and the host of its machine reach the machine the same way, and on this
/// machine over the same server socket.
pub proof fn source_and_host_share_a_server(
    local: Seq<char>,
    specs: Seq<SpecView>,
    os: Seq<char>,
    dir: Seq<char>,
    socket: Option<Seq<char>>,
)
    requires
        kind_called(local) is Some,
        one_each(specs),
    ensures
        ({
            let hs = hosts_of(seq![local], specs, os, dir, socket);
            let here = local_sources(seq![local], os, dir, socket)[0];
            &&& hs.map.dom().contains(LOCAL_SOURCE@)
            &&& transport_of(here.kind) == Some(hs.map[LOCAL_SOURCE@].transport)
            &&& forall|i: int|
                0 <= i < specs.len() && wsl_distro_text((#[trigger] specs[i]).alias) is None
                    ==> hs.map.dom().contains(specs[i].alias) && transport_of(
                    spec_source(specs[i], os, dir).kind,
                ) == Some(hs.map[specs[i].alias].transport)
        }),
    decreases specs.len(),
{
    let hs = hosts_of(seq![local], specs, os, dir, socket);
    if specs.len() > 0 {
        let less = specs.drop_last();
        assert forall|i: int| 0 <= i < less.len() implies (#[trigger] less[i]) == specs[i] by {}
        source_and_host_share_a_server(local, less, os, dir, socket);
        let spec = specs.last();
        assert(spec == specs[specs.len() - 1]);
        assert forall|i: int|
            0 <= i < specs.len() && wsl_distro_text((#[trigger] specs[i]).alias) is None implies
            hs.map.dom().contains(specs[i].alias) && transport_of(
            spec_source(specs[i], os, dir).kind,
        ) == Some(hs.map[specs[i].alias].transport) by {
            if i < less.len() {
                assert(less[i] == specs[i]);
                assert(specs[i].alias != spec.alias);
            }
        }
    }
}

/// The order of the hosts of a configuration lists each once.
pub proof fn hosts_are_keyed(
    local_muxes: Seq<Seq<char>>,
    specs: Seq<SpecView>,
    os: Seq<char>,
    dir: Seq<char>,
    socket: Option<Seq<char>>,
)
    ensures
        ({
            let hs = hosts_of(local_muxes, specs, os, dir, socket);
            keyed(hs.order, hs.map)
        }),
    decreases specs.len(),
{
    if specs.len() == 0 {
        if local_muxes.len() > 0 && kind_called(local_muxes[0]) is Some {
            order_lists_each_once(
                no_hosts(),
                new_host(
                    TransportView::Local { socket: socket_for(local_muxes[0], socket) },
                    MuxView { kind: kind_called(local_muxes[0])->0, bin: local_muxes[0] },
                ),
            );
        }
    } else {
        let less = specs.drop_last();
        hosts_are_keyed(local_muxes, less, os, dir, socket);
        let spec = specs.last();
        if spec.alias != LOCAL_SOURCE@ && kind_called(spec.bin) is Some {
            order_lists_each_once(
                hosts_of(local_muxes, less, os, dir, socket),
                new_host(
                    TransportView::Ssh {
                        alias: spec.alias,
                        control_path: control_socket(dir, spec.alias),
                        os,
                    },
                    MuxView { kind: kind_called(spec.bin)->0, bin: spec.bin },
                ),
            );
        }
    }
}

/// An event of a known host is noted on it, and touches nothing else of it: a connection
/// and an inventory say that it answers, the end of the connection that it does not and
/// that the tty is gone, and a tty is kept as it was told.
pub proof fn event_is_noted_on_its_host(
    hs: HostsView,
    host: Seq<char>,
    reason: Option<Seq<char>>,
    tty: Option<Seq<char>>,
)
    requires
        hs.map.dom().contains(host),
    ensures
        ({
            let was = hs.map[host];
            let connected = after_event(hs, HostEventView::Connected { host }).map[host];
            let listed = after_event(hs, HostEventView::Inventory { host }).map[host];
            let exited = after_event(hs, HostEventView::Exited { host, reason }).map[host];
            let told = after_event(hs, HostEventView::DisplayTty { host, tty }).map[host];
            &&& connected.liveness is Live && connected.tty == was.tty
            &&& listed == connected
            &&& exited.liveness is Unreachable && exited.tty is None
            &&& told.tty == tty && told.liveness == was.liveness
            &&& same_but_for_answering(was, connected)
            &&& same_but_for_answering(was, exited)
            &&& same_but_for_answering(was, told)
        }),
{
}

/// Whether two hosts differ in nothing but whether they answer and in their ttys.
pub open spec fn same_but_for_answering(a: HostView, b: HostView) -> bool {
    &&& a.transport == b.transport
    &&& a.mux == b.mux
    &&& a.sessions == b.sessions
    &&& a.display == b.display
    &&& a.detected == b.detected
}

/// Events of other kinds are for others: they change no host.
pub proof fn other_events_change_nothing(hs: HostsView, ev: HostEventView)
    requires
        !(ev is Connected),
        !(ev is Inventory),
        !(ev is Exited),
        !(ev is DisplayTty),
    ensures
        after_event(hs, ev) == hs,
{
}

/// A host that is taken in is known under its id, behind those that were known, and no
/// other is touched.
pub proof fn taken_in_is_known(hs: HostsView, h: HostView, other: Seq<char>)
    ensures
        ({
            let id = transport_id(h.transport);
            let after = inserted(hs, h);
            &&& after.map.dom().contains(id) && after.map[id] == h
            &&& other != id ==> after.map.dom().contains(other) == hs.map.dom().contains(other)
            &&& other != id && hs.map.dom().contains(other) ==> after.map[other] == hs.map[other]
            &&& hs.map.dom().contains(id) ==> after.order == hs.order
            &&& !hs.map.dom().contains(id) ==> after.order == hs.order + seq![id]
        }),
{
    assert(hs.order.push(transport_id(h.transport)) =~= hs.order + seq![
        transport_id(h.transport),
    ]);
}

/// The hosts of specs are taken in one after the other, however many there are.
pub proof fn specs_add_up(
    hs: HostsView,
    a: Seq<SpecView>,
    b: Seq<SpecView>,
    os: Seq<char>,
    dir: Seq<char>,
)
    ensures
        with_specs(hs, a + b, os, dir) == with_specs(with_specs(hs, a, os, dir), b, os, dir),
    decreases b.len(),
{
    if b.len() == 0 {
        assert(a + b =~= a);
    } else {
        assert((a + b).drop_last() =~= a + b.drop_last());
        specs_add_up(hs, a, b.drop_last(), os, dir);
    }
}

/// A spec of a machine other than this one, with a mux that is known, makes a host that
/// ssh reaches by the alias: nothing is known of it yet. Any other spec makes none.
pub proof fn spec_makes_its_host(hs: HostsView, spec: SpecView, os: Seq<char>, dir: Seq<char>)
    ensures
        ({
            let after = with_specs(hs, seq![spec], os, dir);
            let known = kind_called(spec.bin) is Some && spec.alias != "local"@;
            &&& !known ==> after == hs
            &&& known ==> after.map.dom().contains(spec.alias)
            &&& known ==> {
                let h = after.map[spec.alias];
                &&& h.transport == (TransportView::Ssh {
                    alias: spec.alias,
                    control_path: control_socket(dir, spec.alias),
                    os,
                })
                &&& h.mux.bin == spec.bin
                &&& Some(h.mux.kind) == kind_called(spec.bin)
                &&& h.sessions.len() == 0
                &&& h.tty is None
                &&& h.liveness is Connecting
                &&& !h.detected
                &&& h.display.current == Map::<Seq<char>, Seq<char>>::empty()
                &&& h.display.in_flight == Map::<Seq<char>, u64>::empty()
                &&& h.display.pending == Map::<u64, Seq<char>>::empty()
                &&& h.display.reaped == Set::<u64>::empty()
            }
        }),
{
    reveal_with_fuel(with_specs, 2);
    assert(seq![spec].drop_last() =~= Seq::empty());
}

/// This machine is served by the first of its muxes, under the name `local`.
pub proof fn this_machine_is_local(muxes: Seq<Seq<char>>, socket: Option<Seq<char>>)
    ensures
        ({
            let after = with_local(no_hosts(), muxes, socket);
            let served = muxes.len() > 0 && kind_called(muxes[0]) is Some;
            &&& !served ==> after.order.len() == 0 && after.map == Map::<Seq<char>, HostView>::empty()
            &&& served ==> after.order == seq!["local"@] && after.map.dom().contains("local"@)
            &&& served ==> after.map["local"@].transport == (TransportView::Local {
                socket: socket_for(muxes[0], socket),
            }) && after.map["local"@].mux.bin == muxes[0] && Some(after.map["local"@].mux.kind)
                == kind_called(muxes[0]) && after.map["local"@].liveness is Connecting
        }),
{
    let after = with_local(no_hosts(), muxes, socket);
    if muxes.len() > 0 && kind_called(muxes[0]) is Some {
        assert(after.order =~= seq!["local"@]);
    }
}

} // verus!
