//! The resolved state that the commands share: which sources there are, what offered
//! their machines, and the fixed values of the process.
use crate::model::source::{
    all_sources, build, local_sources, source_views, Source, SourceView,
};
use crate::number;
use crate::paths;
use crate::provision::config::{
    distro_machine, host_entries, host_warnings, is_default_config, local_muxes_of, merged_specs,
    open_choice, warnings_for, wsl_entries, wsl_machine, wsl_warnings, Config,
};
use crate::provision::roster::{
    self, merged, names_of, offer_views, Provider,
};
use crate::session::{
    address_of, address_text, is_local_source, machine_of, machine_text, session_views, Session,
    SessionView, LOCAL_SOURCE,
};
use crate::table::Table;
use crate::text;
use vstd::prelude::*;

verus! {

/// How many sources are scanned at once.
pub const SCAN_CONCURRENCY: usize = 8;

/// The seconds that the scan of a source has: more than an ssh connect has.
pub const SCAN_TIMEOUT_SECS: u64 = 6;

/// The seconds that any other command has.
pub const DETAIL_TIMEOUT_SECS: u64 = 6;

/// The seconds that an unlock has.
pub const UNLOCK_TIMEOUT_SECS: u64 = 20;

// ---------------------------------------------------------------------------
// Places
// ---------------------------------------------------------------------------

/// The home directory, or the current one, and whether it had to be that.
pub fn home_or_cwd(home: Option<String>) -> (r: (String, bool))
    ensures
        match home {
            Some(h) => r.0@ == h@ && !r.1,
            None => r.0@ == "."@ && r.1,
        },
{
    match home {
        Some(h) => (h, false),
        None => (".".to_owned(), true),
    }
}

/// The home directory that ssh reads its configuration from: that of the environment,
/// which may differ from that of the platform.
pub fn ssh_home(env_home: Option<String>, platform_home: Option<String>) -> (h: String)
    ensures
        h@ == match (env_home, platform_home) {
            (Some(e), _) => e@,
            (None, Some(p)) => p@,
            (None, None) => "."@,
        },
{
    match env_home {
        Some(h) => h,
        None => home_or_cwd(platform_home).0,
    }
}

/// The file of the configuration.
pub fn config_path(home: &str) -> (p: String)
    ensures
        p@ == paths::below(
            paths::below(paths::below(home@, ".config"@), "xmux"@),
            "config.toml"@,
        ),
{
    let a = paths::join(home, ".config");
    let b = paths::join(a.as_str(), "xmux");
    paths::join(b.as_str(), "config.toml")
}

/// The file of the configuration of ssh.
pub fn ssh_config_path(home: &str) -> (p: String)
    ensures
        p@ == paths::below(paths::below(home@, ".ssh"@), "config"@),
{
    paths::join(paths::join(home, ".ssh").as_str(), "config")
}

/// The directory of this program.
pub fn xmux_dir_path(home: &str) -> (p: String)
    ensures
        p@ == paths::below(home@, ".xmux"@),
{
    paths::join(home, ".xmux")
}

/// The socket that `$TMUX` names: what stands before its first comma.
pub open spec fn socket_in(tmux: Option<Seq<char>>) -> Option<Seq<char>> {
    match tmux {
        None => None,
        Some(t) => {
            let first = text::pieces(t, ',')[0];
            if first.len() == 0 {
                None
            } else {
                Some(first)
            }
        },
    }
}

/// The socket of the mux server that this program runs under, from `$TMUX`.
pub fn local_socket(tmux: Option<&str>) -> (s: Option<String>)
    ensures
        text::opt_text(s) == socket_in(text::opt_str(tmux)),
{
    match tmux {
        None => None,
        Some(t) => {
            let parts = text::split(t, ',');
            proof {
                assert(text::texts(parts@).len() == parts@.len());
                assert(text::pieces(t@, ',').len() > 0);
                assert(text::texts(parts@)[0] == parts@[0]@);
            }
            if parts[0].as_str().is_empty() {
                None
            } else {
                Some(parts[0].clone())
            }
        },
    }
}

// ---------------------------------------------------------------------------
// This program's own session
// ---------------------------------------------------------------------------

/// Whether a binary is of the kinds that tmux's clients talk to.
pub open spec fn talks_tmux(bin: Seq<char>) -> bool {
    bin == "tmux"@ || bin == "psmux"@
}

/// The sources of this machine.
pub open spec fn local_ones(v: Seq<SourceView>) -> Seq<SourceView>
    decreases v.len(),
{
    if v.len() == 0 {
        Seq::empty()
    } else if machine_text(v.last().alias) == LOCAL_SOURCE@ {
        local_ones(v.drop_last()).push(v.last())
    } else {
        local_ones(v.drop_last())
    }
}

/// The first of the sources whose binary has this name.
pub open spec fn first_with_binary(v: Seq<SourceView>, bin: Seq<char>) -> Option<Seq<char>>
    decreases v.len(),
{
    if v.len() == 0 {
        None
    } else if v[0].binary == bin {
        Some(v[0].alias)
    } else {
        first_with_binary(v.drop_first(), bin)
    }
}

/// Those of the sources that tmux's clients talk to.
pub open spec fn talking_tmux(v: Seq<SourceView>) -> Seq<SourceView>
    decreases v.len(),
{
    if v.len() == 0 {
        Seq::empty()
    } else if talks_tmux(v.last().binary) {
        talking_tmux(v.drop_last()).push(v.last())
    } else {
        talking_tmux(v.drop_last())
    }
}

/// The source of this machine that serves a kind of mux: the first whose binary is called
/// so, or, of the kinds that answer to each other's name, the only one.
pub open spec fn own_source(v: Seq<SourceView>, kind: Seq<char>) -> Option<Seq<char>> {
    let local = local_ones(v);
    match first_with_binary(local, kind) {
        Some(id) => Some(id),
        None => if talks_tmux(kind) && talking_tmux(local).len() == 1 {
            Some(talking_tmux(local)[0].alias)
        } else {
            None
        },
    }
}

/// The sources of this machine, by their places.
fn local_places(srcs: &[Source]) -> (v: Vec<usize>)
    ensures
        forall|i: int| 0 <= i < v@.len() ==> #[trigger] v@[i] < srcs@.len(),
        local_ones(source_views(srcs@)) == v@.map_values(|i: usize| srcs@[i as int]@),
{
    let ghost all = source_views(srcs@);
    let mut v: Vec<usize> = Vec::new();
    let mut i: usize = 0;
    proof {
        assert(local_ones(all.take(0)) =~= v@.map_values(|i: usize| srcs@[i as int]@));
    }
    while i < srcs.len()
        invariant
            i <= srcs@.len(),
            all == source_views(srcs@),
            forall|k: int| 0 <= k < v@.len() ==> #[trigger] v@[k] < srcs@.len(),
            local_ones(all.take(i as int)) == v@.map_values(|i: usize| srcs@[i as int]@),
        decreases srcs.len() - i,
    {
        let ghost before = v@;
        proof {
            let head = all.take(i + 1);
            assert(head.drop_last() =~= all.take(i as int));
            assert(head.last() == srcs@[i as int]@);
        }
        if is_local_source(srcs[i].alias.as_str()) {
            v.push(i);
            proof {
                assert(v@.map_values(|i: usize| srcs@[i as int]@) =~= before.map_values(
                    |i: usize| srcs@[i as int]@,
                ).push(srcs@[i as int]@));
            }
        }
        i += 1;
    }
    proof {
        assert(all.take(i as int) =~= all);
    }
    v
}

/// The source of this machine that serves the mux `kind`, as the mux calls itself. A
/// source is spelled as it was configured, and psmux answers to `tmux` too; so where no
/// binary is called `kind`, the only source of those two is taken.
pub fn own_source_id<'a>(srcs: &'a [Source], kind: &str) -> (r: Option<&'a str>)
    ensures
        text::opt_str(r) == own_source(source_views(srcs@), kind@),
{
    let local = local_places(srcs);
    let ghost all = local_ones(source_views(srcs@));
    proof {
        assert(all.len() == local@.len());
        assert(all.skip(0) =~= all);
    }
    let mut i: usize = 0;
    while i < local.len()
        invariant
            i <= local@.len(),
            all == local@.map_values(|i: usize| srcs@[i as int]@),
            all == local_ones(source_views(srcs@)),
            forall|k: int| 0 <= k < local@.len() ==> #[trigger] local@[k] < srcs@.len(),
            first_with_binary(all, kind@) == first_with_binary(all.skip(i as int), kind@),
        decreases local.len() - i,
    {
        let s = &srcs[local[i]];
        proof {
            assert(all.skip(i as int)[0] == s@);
            assert(all.skip(i as int).drop_first() =~= all.skip(i + 1));
        }
        if text::same(s.binary.as_str(), kind) {
            return Some(s.alias.as_str());
        }
        i += 1;
    }
    if !(text::same(kind, "tmux") || text::same(kind, "psmux")) {
        return None;
    }
    let mut found: Vec<usize> = Vec::new();
    let mut j: usize = 0;
    proof {
        assert(talking_tmux(all.take(0)) =~= found@.map_values(|i: usize| srcs@[i as int]@));
    }
    while j < local.len()
        invariant
            j <= local@.len(),
            all == local@.map_values(|i: usize| srcs@[i as int]@),
            forall|k: int| 0 <= k < local@.len() ==> #[trigger] local@[k] < srcs@.len(),
            forall|k: int| 0 <= k < found@.len() ==> #[trigger] found@[k] < srcs@.len(),
            talking_tmux(all.take(j as int)) == found@.map_values(|i: usize| srcs@[i as int]@),
        decreases local.len() - j,
    {
        let at: usize = local[j];
        let bin = srcs[at].binary.as_str();
        let ghost before = found@;
        proof {
            let head = all.take(j + 1);
            assert(head.drop_last() =~= all.take(j as int));
            assert(head.last() == srcs@[at as int]@);
        }
        if text::same(bin, "tmux") || text::same(bin, "psmux") {
            found.push(at);
            proof {
                assert(found@.map_values(|i: usize| srcs@[i as int]@) =~= before.map_values(
                    |i: usize| srcs@[i as int]@,
                ).push(srcs@[at as int]@));
            }
        }
        j += 1;
    }
    proof {
        assert(all.take(j as int) =~= all);
        assert(talking_tmux(all).len() == found@.len());
    }
    if found.len() == 1 {
        proof {
            assert(talking_tmux(all)[0] == srcs@[found@[0] as int]@);
        }
        Some(srcs[found[0]].alias.as_str())
    } else {
        None
    }
}

/// The address of the session that this program runs in: `own` is the mux that it runs
/// under, as that calls itself, and the session.
pub fn own_session_address(srcs: &[Source], own: Option<(String, String)>) -> (a: Option<String>)
    ensures
        text::opt_text(a) == match own {
            Some((kind, session)) => match own_source(source_views(srcs@), kind@) {
                Some(id) => Some(address_text(id, session@)),
                None => None,
            },
            None => None,
        },
{
    match own {
        Some((kind, session)) => match own_source_id(srcs, kind.as_str()) {
            Some(id) => Some(address_of(id, session.as_str())),
            None => None,
        },
        None => None,
    }
}

// ---------------------------------------------------------------------------
// The roster
// ---------------------------------------------------------------------------

/// One more name with what offers it, unless it has one.
pub open spec fn first_wins(
    m: Map<Seq<char>, Provider>,
    name: Seq<char>,
    p: Provider,
) -> Map<Seq<char>, Provider> {
    if m.dom().contains(name) {
        m
    } else {
        m.insert(name, p)
    }
}

/// What offers each name, once those that are offered are in.
pub open spec fn with_offered(
    m: Map<Seq<char>, Provider>,
    v: Seq<(Seq<char>, Provider)>,
) -> Map<Seq<char>, Provider>
    decreases v.len(),
{
    if v.len() == 0 {
        m
    } else {
        first_wins(with_offered(m, v.drop_last()), v.last().0, v.last().1)
    }
}

/// The names, each offered by the same.
pub open spec fn all_by(names: Seq<Seq<char>>, p: Provider) -> Seq<(Seq<char>, Provider)> {
    names.map_values(|n: Seq<char>| (n, p))
}

/// The names that are not empty.
pub open spec fn nonempty(names: Seq<Seq<char>>) -> Seq<Seq<char>>
    decreases names.len(),
{
    if names.len() == 0 {
        Seq::empty()
    } else if names.last().len() == 0 {
        nonempty(names.drop_last())
    } else {
        nonempty(names.drop_last()).push(names.last())
    }
}

/// What offers each machine: the providers, then the list of distributions, then the
/// configuration, the first that names it; and this machine is offered by no one.
pub open spec fn providers_of(
    offered: Seq<(Seq<char>, Provider)>,
    distros: Seq<Seq<char>>,
    hosts: Seq<Seq<char>>,
    wsl: Seq<Seq<char>>,
) -> Map<Seq<char>, Provider> {
    let a = with_offered(Map::empty(), offered);
    let b = with_offered(a, all_by(distros, Provider::Wsl));
    let c = with_offered(b, all_by(hosts, Provider::Config));
    let d = with_offered(c, all_by(nonempty(wsl), Provider::Config));
    d.insert(LOCAL_SOURCE@, Provider::Local)
}

/// The machines that the entries of a configuration name.
pub open spec fn host_names(cfg: Config) -> Seq<Seq<char>> {
    cfg.hosts@.map_values(|h: crate::provision::config::HostConfig| h.ssh@)
}

/// The machines that the WSL entries of a configuration name.
pub open spec fn wsl_names(cfg: Config) -> Seq<Seq<char>> {
    cfg.wsl@.map_values(|w: crate::provision::config::WslConfig| distro_machine(w.distro@))
}

fn offer_first(t: &mut Table<Provider>, name: &str, p: Provider)
    ensures
        final(t)@ == first_wins(old(t)@, name@, p),
{
    if !t.contains_key(name) {
        t.insert(name, p);
    }
}

fn offer_all(t: &mut Table<Provider>, names: &[String], p: Provider)
    ensures
        final(t)@ == with_offered(old(t)@, all_by(text::texts(names@), p)),
{
    let ghost all = all_by(text::texts(names@), p);
    let mut i: usize = 0;
    proof {
        assert(with_offered(t@, all.take(0)) == t@);
    }
    while i < names.len()
        invariant
            i <= names@.len(),
            all == all_by(text::texts(names@), p),
            t@ == with_offered(old(t)@, all.take(i as int)),
        decreases names.len() - i,
    {
        proof {
            let head = all.take(i + 1);
            assert(head.drop_last() =~= all.take(i as int));
            assert(head.last() == (names@[i as int]@, p));
        }
        offer_first(t, names[i].as_str(), p);
        i += 1;
    }
    proof {
        assert(all.take(i as int) =~= all);
    }
}

/// What offers each machine. A machine that a provider lists keeps that provider, though
/// the configuration names it too.
pub fn roster_providers(
    cfg: &Config,
    offered: &[(String, Provider)],
    wsl_distros: &[String],
) -> (t: Table<Provider>)
    ensures
        t@ == providers_of(
            offer_views(offered@),
            text::texts(wsl_distros@),
            host_names(*cfg),
            wsl_names(*cfg),
        ),
{
    let mut t: Table<Provider> = Table::new();
    let ghost none = t@;
    let ghost all = offer_views(offered@);
    let mut i: usize = 0;
    proof {
        assert(with_offered(none, all.take(0)) == none);
    }
    while i < offered.len()
        invariant
            i <= offered@.len(),
            all == offer_views(offered@),
            t@ == with_offered(none, all.take(i as int)),
        decreases offered.len() - i,
    {
        proof {
            let head = all.take(i + 1);
            assert(head.drop_last() =~= all.take(i as int));
            assert(head.last() == (offered@[i as int].0@, offered@[i as int].1));
        }
        offer_first(&mut t, offered[i].0.as_str(), offered[i].1);
        i += 1;
    }
    proof {
        assert(all.take(i as int) =~= all);
    }
    offer_all(&mut t, wsl_distros, Provider::Wsl);
    let mut hosts: Vec<String> = Vec::new();
    let mut j: usize = 0;
    while j < cfg.hosts.len()
        invariant
            j <= cfg.hosts@.len(),
            hosts@.len() == j,
            forall|k: int| 0 <= k < j ==> (#[trigger] hosts@[k])@ == host_names(*cfg)[k],
        decreases cfg.hosts.len() - j,
    {
        hosts.push(cfg.hosts[j].ssh.clone());
        j += 1;
    }
    proof {
        assert(text::texts(hosts@) =~= host_names(*cfg));
    }
    offer_all(&mut t, hosts.as_slice(), Provider::Config);
    let ghost named = wsl_names(*cfg);
    let mut wsl: Vec<String> = Vec::new();
    let mut k: usize = 0;
    proof {
        assert(text::texts(wsl@) =~= nonempty(named.take(0)));
    }
    while k < cfg.wsl.len()
        invariant
            k <= cfg.wsl@.len(),
            named == wsl_names(*cfg),
            text::texts(wsl@) == nonempty(named.take(k as int)),
        decreases cfg.wsl.len() - k,
    {
        let m = wsl_machine(cfg.wsl[k].distro.as_str());
        let ghost before = wsl@;
        proof {
            let head = named.take(k + 1);
            assert(head.drop_last() =~= named.take(k as int));
            assert(head.last() == m@);
        }
        if !m.as_str().is_empty() {
            wsl.push(m);
            proof {
                text::texts_push(before, m);
            }
        }
        k += 1;
    }
    proof {
        assert(named.take(k as int) =~= named);
    }
    offer_all(&mut t, wsl.as_slice(), Provider::Config);
    t.insert(LOCAL_SOURCE, Provider::Local);
    t
}

/// Everything that a look at the configuration and the providers decides.
pub struct Roster {
    pub cfg: Config,
    pub cfg_warnings: Vec<String>,
    pub sources: Vec<Source>,
    pub local_muxes: Vec<String>,
    /// What offers each machine.
    pub roster_providers: Table<Provider>,
    pub ssh_aliases: Vec<String>,
    /// The WSL distributions, as machines.
    pub wsl_distros: Vec<String>,
}

/// What was found out from outside for a roster.
pub struct Found {
    /// The warnings that reading the configuration gave.
    pub warnings: Vec<String>,
    /// The lists of the providers, in order of precedence.
    pub offers: Vec<(Provider, Vec<String>)>,
    /// The WSL distributions, as machines.
    pub wsl_distros: Vec<String>,
    /// The muxes that are installed on this machine.
    pub installed: Vec<String>,
}

/// What is asked outside for a roster.
#[derive(Clone, Copy, Debug, PartialEq, Eq, Structural)]
pub struct Asks {
    /// The aliases of the ssh configuration.
    pub ssh_config: bool,
    /// The peers on the tailnet.
    pub tailscale: bool,
    /// The WSL distributions.
    pub wsl: bool,
    /// The muxes that are installed on this machine.
    pub installed: bool,
}

/// What is asked outside for a roster: the providers that are not turned off, and the
/// installed muxes where the configuration leaves the choice open.
pub fn asks(cfg: &Config) -> (a: Asks)
    ensures
        a.ssh_config == cfg.discovery.ssh_config,
        a.tailscale == cfg.discovery.tailscale,
        a.wsl == cfg.discovery.wsl,
        a.installed == open_choice(cfg.local.mux@),
{
    Asks {
        ssh_config: cfg.discovery.ssh_config,
        tailscale: cfg.discovery.tailscale,
        wsl: cfg.discovery.wsl,
        installed: cfg.local.mux.is_auto(),
    }
}

impl Default for Roster {
    fn default() -> (r: Roster)
        ensures
            r.sources@.len() == 0,
            r.cfg_warnings@.len() == 0,
            r.local_muxes@.len() == 0,
            r.ssh_aliases@.len() == 0,
            r.wsl_distros@.len() == 0,
            r.roster_providers@ == Map::<Seq<char>, Provider>::empty(),
            is_default_config(r.cfg),
    {
        Roster {
            cfg: Config::default(),
            cfg_warnings: Vec::new(),
            sources: Vec::new(),
            local_muxes: Vec::new(),
            roster_providers: Table::new(),
            ssh_aliases: Vec::new(),
            wsl_distros: Vec::new(),
        }
    }
}

/// The roster of a configuration, from what was found outside: the warnings about its
/// values behind those of reading it, the machines that the providers offer, the muxes of
/// this machine, and the sources of all of them.
pub fn resolve_roster(
    cfg: Config,
    found: Found,
    os: &str,
    xmux_dir: &str,
    local_socket: Option<String>,
) -> (r: Roster)
    ensures
        r.cfg == cfg,
        text::texts(r.cfg_warnings@) == text::texts(found.warnings@) + (warnings_for(
            "local "@,
            cfg.local.mux@,
        ) + host_warnings(cfg.hosts@) + wsl_warnings(cfg.wsl@)),
        text::texts(r.ssh_aliases@) == names_of(merged(found.offers@)),
        r.wsl_distros == found.wsl_distros,
        text::texts(r.local_muxes@) == local_muxes_of(
            cfg.local.mux@,
            os@,
            text::texts(found.installed@),
        ),
        source_views(r.sources@) == all_sources(
            local_sources(
                text::texts(r.local_muxes@),
                os@,
                xmux_dir@,
                text::opt_text(local_socket),
            ),
            merged_specs(
                text::texts(r.ssh_aliases@),
                host_entries(cfg.hosts@),
                text::texts(cfg.exclude@),
                true,
            ),
            merged_specs(
                text::texts(r.wsl_distros@),
                wsl_entries(cfg.wsl@),
                text::texts(cfg.exclude@),
                false,
            ),
            os@,
            xmux_dir@,
        ),
        r.roster_providers@ == providers_of(
            merged(found.offers@),
            text::texts(found.wsl_distros@),
            host_names(cfg),
            wsl_names(cfg),
        ),
{
    let mut cfg_warnings = found.warnings;
    let mut more = cfg.value_warnings();
    let ghost first = cfg_warnings@;
    let ghost second = more@;
    cfg_warnings.append(&mut more);
    proof {
        assert(text::texts(cfg_warnings@) =~= text::texts(first) + text::texts(second));
    }
    let offered = roster::merge(found.offers.as_slice());
    let ssh_aliases = roster::names(&offered);
    let local_muxes = cfg.local_muxes(os, found.installed.as_slice());
    let sources = build(
        &cfg,
        ssh_aliases.as_slice(),
        found.wsl_distros.as_slice(),
        os,
        local_muxes.as_slice(),
        xmux_dir,
        local_socket,
    );
    let providers = roster_providers(&cfg, offered.as_slice(), found.wsl_distros.as_slice());
    Roster {
        cfg,
        cfg_warnings,
        sources,
        local_muxes,
        roster_providers: providers,
        ssh_aliases,
        wsl_distros: found.wsl_distros,
    }
}

// ---------------------------------------------------------------------------
// The runtime
// ---------------------------------------------------------------------------

/// The resolved runtime: a roster that can be replaced, and the fixed values.
pub struct Env {
    pub roster: Roster,
    pub ui_prefix: String,
    pub xmux_dir: String,
    /// The address of the session that this program runs in, where it is known.
    pub own_session: Option<String>,
    /// The socket of the mux server of this machine, as `$TMUX` names it.
    pub local_socket: Option<String>,
}

/// Whether a source answers as an id.
pub open spec fn answers_as(v: Seq<SourceView>, alias: Seq<char>) -> bool {
    exists|i: int| 0 <= i < v.len() && (#[trigger] v[i]).alias == alias
}

/// Whether a machine has a source.
pub open spec fn has_machine(v: Seq<SourceView>, machine: Seq<char>) -> bool {
    exists|i: int| 0 <= i < v.len() && machine_text((#[trigger] v[i]).alias) == machine
}

/// Whether a source is carried over to a fresh roster: it was found on a machine that the
/// roster still names, and the roster does not name it.
pub open spec fn is_carried(fresh: Seq<SourceView>, s: SourceView) -> bool {
    !answers_as(fresh, s.alias) && has_machine(fresh, machine_text(s.alias))
}

/// The sources that are carried over.
pub open spec fn carried(fresh: Seq<SourceView>, was: Seq<SourceView>) -> Seq<SourceView>
    decreases was.len(),
{
    if was.len() == 0 {
        Seq::empty()
    } else if is_carried(fresh, was.last()) {
        carried(fresh, was.drop_last()).push(was.last())
    } else {
        carried(fresh, was.drop_last())
    }
}

/// The place of the source that answers as an id.
pub open spec fn source_named(v: Seq<SourceView>, alias: Seq<char>) -> Option<SourceView>
    decreases v.len(),
{
    if v.len() == 0 {
        None
    } else if v[0].alias == alias {
        Some(v[0])
    } else {
        source_named(v.drop_first(), alias)
    }
}

fn answering(v: &Vec<Source>, n: usize, alias: &str) -> (r: bool)
    requires
        n <= v@.len(),
    ensures
        r == answers_as(source_views(v@).take(n as int), alias@),
{
    let ghost all = source_views(v@).take(n as int);
    let mut i: usize = 0;
    while i < n
        invariant
            i <= n <= v@.len(),
            all == source_views(v@).take(n as int),
            forall|j: int| 0 <= j < i ==> (#[trigger] all[j]).alias != alias@,
        decreases n - i,
    {
        proof {
            assert(all[i as int] == v@[i as int]@);
        }
        if text::same(v[i].alias.as_str(), alias) {
            return true;
        }
        i += 1;
    }
    false
}

fn serving(v: &Vec<Source>, n: usize, machine: &str) -> (r: bool)
    requires
        n <= v@.len(),
    ensures
        r == has_machine(source_views(v@).take(n as int), machine@),
{
    let ghost all = source_views(v@).take(n as int);
    let mut i: usize = 0;
    while i < n
        invariant
            i <= n <= v@.len(),
            all == source_views(v@).take(n as int),
            forall|j: int| 0 <= j < i ==> machine_text((#[trigger] all[j]).alias) != machine@,
        decreases n - i,
    {
        proof {
            assert(all[i as int] == v@[i as int]@);
        }
        if text::same(machine_of(v[i].alias.as_str()), machine) {
            return true;
        }
        i += 1;
    }
    false
}

impl Env {
    /// The runtime around a roster.
    pub fn new(
        roster: Roster,
        ui_prefix: String,
        xmux_dir: String,
        own_session: Option<String>,
        local_socket: Option<String>,
    ) -> (e: Env)
        ensures
            e == (Env { roster, ui_prefix, xmux_dir, own_session, local_socket }),
    {
        Env { roster, ui_prefix, xmux_dir, own_session, local_socket }
    }

    /// The roster as it stands.
    pub fn roster(&self) -> (r: &Roster)
        ensures
            *r == self.roster,
    {
        &self.roster
    }

    /// What `f` makes of the roster.
    pub fn with_roster<T, F: FnOnce(&Roster) -> T>(&self, f: F) -> (t: T)
        requires
            call_requires(f, (&self.roster,)),
        ensures
            call_ensures(f, (&self.roster,), t),
    {
        f(&self.roster)
    }

    /// A copy of the sources, in order.
    pub fn source_list(&self) -> (v: Vec<Source>)
        ensures
            source_views(v@) == source_views(self.roster.sources@),
    {
        let mut v: Vec<Source> = Vec::new();
        let mut i: usize = 0;
        while i < self.roster.sources.len()
            invariant
                i <= self.roster.sources@.len(),
                v@.len() == i,
                forall|j: int| 0 <= j < i ==> (#[trigger] v@[j])@ == self.roster.sources@[j]@,
            decreases self.roster.sources.len() - i,
        {
            v.push(self.roster.sources[i].copied());
            i += 1;
        }
        proof {
            assert(source_views(v@) =~= source_views(self.roster.sources@));
        }
        v
    }

    /// The source that answers as `alias`.
    pub fn source(&self, alias: &str) -> (r: Option<Source>)
        ensures
            match source_named(source_views(self.roster.sources@), alias@) {
                Some(s) => r matches Some(x) && x@ == s,
                None => r is None,
            },
    {
        let ghost all = source_views(self.roster.sources@);
        let mut i: usize = 0;
        proof {
            assert(all.skip(0) =~= all);
        }
        while i < self.roster.sources.len()
            invariant
                i <= self.roster.sources@.len(),
                all == source_views(self.roster.sources@),
                source_named(all, alias@) == source_named(all.skip(i as int), alias@),
            decreases self.roster.sources.len() - i,
        {
            let s = &self.roster.sources[i];
            proof {
                assert(all.skip(i as int)[0] == s@);
                assert(all.skip(i as int).drop_first() =~= all.skip(i + 1));
            }
            if text::same(s.alias.as_str(), alias) {
                return Some(s.copied());
            }
            i += 1;
        }
        None
    }

    /// Takes in a source that was found later, unless one answers as its id already.
    pub fn add_source(&mut self, src: Source) -> (r: bool)
        ensures
            r == !answers_as(source_views(old(self).roster.sources@), src@.alias),
            source_views(final(self).roster.sources@) == if r {
                source_views(old(self).roster.sources@).push(src@)
            } else {
                source_views(old(self).roster.sources@)
            },
            *final(self) == (Env {
                roster: Roster {
                    sources: final(self).roster.sources,
                    ..old(self).roster
                },
                ..*old(self)
            }),
    {
        let ghost was = self.roster.sources@;
        proof {
            assert(source_views(was).take(was.len() as int) =~= source_views(was));
        }
        let n: usize = self.roster.sources.len();
        if answering(&self.roster.sources, n, src.alias.as_str()) {
            return false;
        }
        self.roster.sources.push(src);
        proof {
            assert(source_views(self.roster.sources@) =~= source_views(was).push(src@));
        }
        true
    }

    /// Puts a fresh roster in the place of the old one. The sources that were found on
    /// machines which it still names are carried over, behind its own.
    pub fn replace_roster(&mut self, fresh: Roster)
        ensures
            source_views(final(self).roster.sources@) == source_views(fresh.sources@) + carried(
                source_views(fresh.sources@),
                source_views(old(self).roster.sources@),
            ),
            *final(self) == (Env {
                roster: Roster { sources: final(self).roster.sources, ..fresh },
                ..*old(self)
            }),
    {
        let mut next = fresh;
        let ghost named = source_views(next.sources@);
        let ghost was = source_views(self.roster.sources@);
        let n: usize = next.sources.len();
        let mut i: usize = 0;
        proof {
            assert(named + carried(named, was.take(0)) =~= named);
            assert(named.take(n as int) =~= named);
        }
        while i < self.roster.sources.len()
            invariant
                *self == *old(self),
                i <= self.roster.sources@.len(),
                n <= next.sources@.len(),
                n == named.len(),
                was == source_views(self.roster.sources@),
                source_views(next.sources@) == named + carried(named, was.take(i as int)),
                source_views(next.sources@).take(n as int) == named,
                next == (Roster { sources: next.sources, ..fresh }),
            decreases self.roster.sources.len() - i,
        {
            let s = &self.roster.sources[i];
            proof {
                let head = was.take(i + 1);
                assert(head.drop_last() =~= was.take(i as int));
                assert(head.last() == s@);
            }
            if !answering(&next.sources, n, s.alias.as_str()) && serving(
                &next.sources,
                n,
                machine_of(s.alias.as_str()),
            ) {
                let ghost before = source_views(next.sources@);
                let c = s.copied();
                next.sources.push(c);
                proof {
                    assert(source_views(next.sources@) =~= before.push(c@));
                    assert(source_views(next.sources@) =~= named + carried(
                        named,
                        was.take(i + 1),
                    ));
                    assert(source_views(next.sources@).take(n as int) =~= named);
                }
            }
            i += 1;
        }
        proof {
            assert(was.take(i as int) =~= was);
        }
        self.roster = next;
    }

    /// The ids of the sources, in order.
    pub fn sources(&self) -> (v: Vec<String>)
        ensures
            text::texts(v@) == source_views(self.roster.sources@).map_values(
                |s: SourceView| s.alias,
            ),
    {
        let mut v: Vec<String> = Vec::new();
        let mut i: usize = 0;
        while i < self.roster.sources.len()
            invariant
                i <= self.roster.sources@.len(),
                v@.len() == i,
                forall|j: int| 0 <= j < i ==> (#[trigger] v@[j])@ == self.roster.sources@[j].alias@,
            decreases self.roster.sources.len() - i,
        {
            v.push(self.roster.sources[i].alias.clone());
            i += 1;
        }
        proof {
            assert(text::texts(v@) =~= source_views(self.roster.sources@).map_values(
                |s: SourceView| s.alias,
            ));
        }
        v
    }
}

// ---------------------------------------------------------------------------
// Listings
// ---------------------------------------------------------------------------

/// The sessions of a source, or why there are none to show.
#[derive(Clone, Debug, PartialEq, Eq)]
pub struct Group {
    pub source: String,
    pub err: Option<String>,
    pub sessions: Vec<Session>,
}

/// A session put in behind those whose names do not come after its own.
pub open spec fn put_by_name(v: Seq<SessionView>, s: SessionView) -> Seq<SessionView>
    decreases v.len(),
{
    if v.len() > 0 && text::precedes(s.name, v.last().name) {
        put_by_name(v.drop_last(), s).push(v.last())
    } else {
        v.push(s)
    }
}

/// Sessions by their names; those with the same name stay in the order in which they
/// came.
pub open spec fn by_name(v: Seq<SessionView>) -> Seq<SessionView>
    decreases v.len(),
{
    if v.len() == 0 {
        Seq::empty()
    } else {
        put_by_name(by_name(v.drop_last()), v.last())
    }
}

/// A session that comes in at the place where those behind it come after it, and the one
/// before it does not.
proof fn put_at(v: Seq<SessionView>, s: SessionView, at: int)
    requires
        0 <= at <= v.len(),
        forall|i: int| at <= i < v.len() ==> text::precedes(s.name, (#[trigger] v[i]).name),
        at > 0 ==> !text::precedes(s.name, v[at - 1].name),
    ensures
        put_by_name(v, s) == v.insert(at, s),
    decreases v.len(),
{
    if at < v.len() {
        let t = v.drop_last();
        assert forall|i: int| at <= i < t.len() implies text::precedes(
            s.name,
            (#[trigger] t[i]).name,
        ) by {
            assert(t[i] == v[i]);
        }
        put_at(t, s, at);
        assert(text::precedes(s.name, v[v.len() - 1].name));
        assert(v.insert(at, s) =~= t.insert(at, s).push(v.last()));
    } else {
        if v.len() > 0 {
            assert(v[at - 1] == v.last());
        }
        assert(v.insert(at, s) =~= v.push(s));
    }
}

/// Puts sessions in the order of their names.
pub fn sort_by_name(sessions: Vec<Session>) -> (v: Vec<Session>)
    ensures
        session_views(v@) == by_name(session_views(sessions@)),
{
    let ghost all = session_views(sessions@);
    let mut v: Vec<Session> = Vec::new();
    let mut i: usize = 0;
    proof {
        assert(session_views(v@) =~= by_name(all.take(0)));
    }
    while i < sessions.len()
        invariant
            i <= sessions@.len(),
            all == session_views(sessions@),
            session_views(v@) == by_name(all.take(i as int)),
        decreases sessions.len() - i,
    {
        let s = sessions[i].copied();
        let ghost was = session_views(v@);
        proof {
            let head = all.take(i + 1);
            assert(head.drop_last() =~= all.take(i as int));
            assert(head.last() == s@);
        }
        let mut at: usize = v.len();
        while at > 0 && text::before(s.name.as_str(), v[at - 1].name.as_str())
            invariant
                at <= v@.len(),
                was == session_views(v@),
                forall|k: int|
                    at <= k < was.len() ==> text::precedes(s@.name, (#[trigger] was[k]).name),
            decreases at,
        {
            proof {
                assert(was[at - 1] == v@[at - 1]@);
            }
            at -= 1;
        }
        proof {
            if at > 0 {
                assert(was[at - 1] == v@[at - 1]@);
            }
            put_at(was, s@, at as int);
        }
        v.insert(at, s);
        proof {
            assert(session_views(v@) =~= was.insert(at as int, s@));
        }
        i += 1;
    }
    proof {
        assert(all.take(i as int) =~= all);
    }
    v
}

/// What a scan of a source found.
pub struct ScanResult {
    pub source: String,
    pub sessions: Vec<Session>,
    pub err: Option<String>,
}

/// Whether a group shows what a scan found: its sessions by their names.
pub open spec fn shows(g: Group, r: ScanResult) -> bool {
    &&& g.source@ == r.source@
    &&& text::opt_text(g.err) == text::opt_text(r.err)
    &&& session_views(g.sessions@) == by_name(session_views(r.sessions@))
}

/// What a scan of a source found, as it is shown.
pub fn to_group(r: ScanResult) -> (g: Group)
    ensures
        shows(g, r),
{
    Group { source: r.source, err: r.err, sessions: sort_by_name(r.sessions) }
}

/// What scans found, as they are shown, in order.
pub fn to_groups(results: Vec<ScanResult>) -> (v: Vec<Group>)
    ensures
        v@.len() == results@.len(),
        forall|i: int| 0 <= i < v@.len() ==> shows(#[trigger] v@[i], results@[i]),
{
    let mut v: Vec<Group> = Vec::new();
    let mut left = results;
    let ghost all = results@;
    let n: usize = left.len();
    let mut i: usize = 0;
    while i < n
        invariant
            i <= n,
            n == all.len(),
            v@.len() == i,
            left@ == all.skip(i as int),
            forall|j: int| 0 <= j < i ==> shows(#[trigger] v@[j], all[j]),
        decreases n - i,
    {
        let r = left.remove(0);
        proof {
            assert(r == all[i as int]);
            assert(left@ =~= all.skip(i + 1));
        }
        v.push(to_group(r));
        i += 1;
    }
    v
}

/// How many windows, in words.
pub open spec fn windows_text(n: int) -> Seq<char> {
    if n == 1 {
        "1 window"@
    } else {
        number::signed_decimal(n) + " windows"@
    }
}

/// How many windows, in words.
pub fn window_word(n: i64) -> (s: String)
    ensures
        s@ == windows_text(n as int),
{
    if n == 1 {
        "1 window".to_owned()
    } else {
        let mut s = number::print_i64(n);
        s.append(" windows");
        s
    }
}

/// How many bytes a text has.
pub open spec fn byte_len(s: Seq<char>) -> usize {
    vstd::utf8::encode_utf8(s).len() as usize
}

/// The longest of the texts, in bytes.
pub open spec fn widest(v: Seq<Seq<char>>) -> usize
    decreases v.len(),
{
    if v.len() == 0 {
        0
    } else if byte_len(v.last()) > widest(v.drop_last()) {
        byte_len(v.last())
    } else {
        widest(v.drop_last())
    }
}

/// A text with spaces behind it, up to a number of characters.
pub open spec fn padded(s: Seq<char>, width: usize) -> Seq<char> {
    if s.len() < width {
        s + Seq::new((width - s.len()) as nat, |i: int| ' ')
    } else {
        s
    }
}

fn pad(s: String, width: usize) -> (r: String)
    ensures
        r@ == padded(s@, width),
{
    let mut n: usize = text::chars_of(s.as_str()).len();
    let mut r = s;
    let ghost start = n;
    while n < width
        invariant
            start == s@.len(),
            start <= n,
            n <= width || n == start,
            r@ == s@ + Seq::new((n - start) as nat, |i: int| ' '),
        decreases width - n,
    {
        let ghost before = r@;
        r.push(' ');
        n += 1;
        proof {
            assert(r@ =~= s@ + Seq::new((n - start) as nat, |i: int| ' '));
        }
    }
    proof {
        assert(r@ =~= padded(s@, width));
    }
    r
}

/// The addresses of sessions.
pub open spec fn addresses_of(v: Seq<SessionView>) -> Seq<Seq<char>> {
    v.map_values(|s: SessionView| address_text(s.source, s.name))
}

/// The window counts of sessions, in words.
pub open spec fn window_words(v: Seq<SessionView>) -> Seq<Seq<char>> {
    v.map_values(|s: SessionView| windows_text(s.windows))
}

/// The line of a session, with its columns as wide as those of the others.
pub open spec fn session_line(s: SessionView, addr_w: usize, words_w: usize) -> Seq<char> {
    padded(address_text(s.source, s.name), addr_w) + "  "@ + padded(
        windows_text(s.windows),
        words_w,
    ) + "  attached="@ + if s.attached {
        "true"@
    } else {
        "false"@
    }
}

/// The lines of sessions.
pub open spec fn session_lines(v: Seq<SessionView>) -> Seq<Seq<char>> {
    v.map_values(
        |s: SessionView| session_line(s, widest(addresses_of(v)), widest(window_words(v))),
    )
}

fn width_of(v: &Vec<String>) -> (w: usize)
    ensures
        w == widest(text::texts(v@)),
{
    let ghost all = text::texts(v@);
    let mut w: usize = 0;
    let mut i: usize = 0;
    while i < v.len()
        invariant
            i <= v@.len(),
            all == text::texts(v@),
            w == widest(all.take(i as int)),
        decreases v.len() - i,
    {
        proof {
            let head = all.take(i + 1);
            assert(head.drop_last() =~= all.take(i as int));
            assert(head.last() == v@[i as int]@);
        }
        let n: usize = v[i].as_str().len();
        if n > w {
            w = n;
        }
        i += 1;
    }
    proof {
        assert(all.take(i as int) =~= all);
    }
    w
}

/// The lines of a listing: one for each session of a source that answers, with aligned
/// columns; or, for one that does not, what to say of it.
pub fn ls_lines_one(g: &Group) -> (r: (Vec<String>, Option<String>))
    ensures
        match g.err {
            Some(e) => text::texts(r.0@) == Seq::<Seq<char>>::empty() && text::opt_text(r.1)
                == Some(g.source@ + "  (unreachable: "@ + e@ + ")"@),
            None => text::texts(r.0@) == session_lines(session_views(g.sessions@)) && r.1 is None,
        },
{
    if let Some(e) = &g.err {
        let mut s = g.source.clone();
        s.append("  (unreachable: ");
        s.append(e.as_str());
        s.append(")");
        let none: Vec<String> = Vec::new();
        proof {
            assert(text::texts(none@) =~= Seq::empty());
        }
        return (none, Some(s));
    }
    let ghost all = session_views(g.sessions@);
    let mut addrs: Vec<String> = Vec::new();
    let mut words: Vec<String> = Vec::new();
    let mut i: usize = 0;
    while i < g.sessions.len()
        invariant
            i <= g.sessions@.len(),
            all == session_views(g.sessions@),
            addrs@.len() == i,
            words@.len() == i,
            forall|j: int| 0 <= j < i ==> (#[trigger] addrs@[j])@ == addresses_of(all)[j],
            forall|j: int| 0 <= j < i ==> (#[trigger] words@[j])@ == window_words(all)[j],
        decreases g.sessions.len() - i,
    {
        addrs.push(g.sessions[i].address());
        words.push(window_word(g.sessions[i].windows));
        i += 1;
    }
    proof {
        assert(text::texts(addrs@) =~= addresses_of(all));
        assert(text::texts(words@) =~= window_words(all));
    }
    let addr_w: usize = width_of(&addrs);
    let words_w: usize = width_of(&words);
    let mut lines: Vec<String> = Vec::new();
    let mut j: usize = 0;
    while j < g.sessions.len()
        invariant
            j <= g.sessions@.len(),
            all == session_views(g.sessions@),
            addrs@.len() == all.len(),
            words@.len() == all.len(),
            forall|k: int| 0 <= k < all.len() ==> (#[trigger] addrs@[k])@ == addresses_of(all)[k],
            forall|k: int| 0 <= k < all.len() ==> (#[trigger] words@[k])@ == window_words(all)[k],
            addr_w == widest(addresses_of(all)),
            words_w == widest(window_words(all)),
            lines@.len() == j,
            forall|k: int| 0 <= k < j ==> (#[trigger] lines@[k])@ == session_lines(all)[k],
        decreases g.sessions.len() - j,
    {
        let mut line = pad(addrs[j].clone(), addr_w);
        line.append("  ");
        line.append(pad(words[j].clone(), words_w).as_str());
        line.append("  attached=");
        if g.sessions[j].attached {
            line.append("true");
        } else {
            line.append("false");
        }
        lines.push(line);
        j += 1;
    }
    proof {
        assert(text::texts(lines@) =~= session_lines(all));
    }
    (lines, None)
}

/// The name of a session that was just created: what the mux printed, where it gives
/// the name itself, and else the name that was asked for.
pub open spec fn name_given(assigns: bool, printed: Seq<char>, asked: Seq<char>) -> Seq<char> {
    if assigns {
        text::trimmed(printed)
    } else {
        asked
    }
}

/// The name of a session that was just created, from what was printed, read as text.
pub fn given_name(assigns: bool, printed: &str, asked: &str) -> (name: String)
    ensures
        name@ == name_given(assigns, printed@, asked@),
{
    if assigns {
        text::trim(printed)
    } else {
        asked.to_owned()
    }
}

/// The name of a session that was just created, from the bytes that were printed.
pub fn assigned_name(assigns: bool, printed: &[u8], asked: &str) -> (name: String)
    ensures
        name@ == name_given(assigns, text::utf8_lossy(printed@), asked@),
{
    given_name(assigns, text::from_utf8_lossy(printed).as_str(), asked)
}

/// The session that was just created on a source under a name that its mux gave it.
pub fn created_session(source: &str, name: String, mux: &str) -> (s: Session)
    ensures
        s@ == (SessionView {
            source: source@,
            name: name@,
            mux: mux@,
            windows: 1,
            attached: false,
        }),
{
    Session { source: source.to_owned(), name, mux: mux.to_owned(), windows: 1, attached: false }
}

// ---------------------------------------------------------------------------
// Laws
// ---------------------------------------------------------------------------

/// A source that a fresh roster names is not carried over, so that no id answers twice;
/// and one whose machine is gone goes with it.
pub proof fn only_survivors_are_carried(fresh: Seq<SourceView>, was: Seq<SourceView>, i: int)
    requires
        0 <= i < carried(fresh, was).len(),
    ensures
        !answers_as(fresh, carried(fresh, was)[i].alias),
        has_machine(fresh, machine_text(carried(fresh, was)[i].alias)),
        was.contains(carried(fresh, was)[i]),
    decreases was.len(),
{
    let t = was.drop_last();
    let c = carried(fresh, t);
    if is_carried(fresh, was.last()) && i == c.len() {
        assert(was[was.len() - 1] == was.last());
    } else {
        only_survivors_are_carried(fresh, t, i);
        let k = choose|k: int| 0 <= k < t.len() && t[k] == c[i];
        assert(was[k] == carried(fresh, was)[i]);
    }
}

/// A source that was found on a machine which the fresh roster names is still there after
/// the roster was replaced.
pub proof fn found_source_survives(fresh: Seq<SourceView>, was: Seq<SourceView>, i: int)
    requires
        0 <= i < was.len(),
        has_machine(fresh, machine_text(was[i].alias)),
    ensures
        answers_as(fresh + carried(fresh, was), was[i].alias),
    decreases was.len(),
{
    let all = fresh + carried(fresh, was);
    if answers_as(fresh, was[i].alias) {
        let k = choose|k: int| 0 <= k < fresh.len() && (#[trigger] fresh[k]).alias == was[i].alias;
        assert(all[k].alias == was[i].alias);
    } else if i == was.len() - 1 {
        let c = carried(fresh, was);
        assert(is_carried(fresh, was.last()));
        assert(c[c.len() - 1] == was.last());
        assert(all[fresh.len() + c.len() - 1].alias == was[i].alias);
    } else {
        let t = was.drop_last();
        assert(t[i] == was[i]);
        found_source_survives(fresh, t, i);
        let less = fresh + carried(fresh, t);
        let k = choose|k: int| 0 <= k < less.len() && (#[trigger] less[k]).alias == was[i].alias;
        assert(all[k] == less[k]);
    }
}

/// To replace a roster by itself changes nothing once no source is left to be found.
pub proof fn replaced_by_itself(was: Seq<SourceView>)
    ensures
        carried(was, was) == Seq::<SourceView>::empty(),
{
    nothing_more_to_carry(was, was);
}

proof fn nothing_more_to_carry(fresh: Seq<SourceView>, was: Seq<SourceView>)
    requires
        forall|i: int| 0 <= i < was.len() ==> answers_as(fresh, (#[trigger] was[i]).alias),
    ensures
        carried(fresh, was) == Seq::<SourceView>::empty(),
    decreases was.len(),
{
    if was.len() > 0 {
        let t = was.drop_last();
        assert forall|i: int| 0 <= i < t.len() implies answers_as(
            fresh,
            (#[trigger] t[i]).alias,
        ) by {
            assert(t[i] == was[i]);
        }
        nothing_more_to_carry(fresh, t);
        assert(answers_as(fresh, was[was.len() - 1].alias));
    }
}

/// A machine that is offered keeps what offered it first.
pub proof fn first_provider_stays(
    m: Map<Seq<char>, Provider>,
    v: Seq<(Seq<char>, Provider)>,
    name: Seq<char>,
)
    requires
        m.dom().contains(name),
    ensures
        with_offered(m, v).dom().contains(name),
        with_offered(m, v)[name] == m[name],
    decreases v.len(),
{
    if v.len() > 0 {
        first_provider_stays(m, v.drop_last(), name);
    }
}

/// The order of names holds in what was sorted, and nothing is lost.
pub proof fn sorted_by_name(v: Seq<SessionView>)
    ensures
        by_name(v).to_multiset() == v.to_multiset(),
        forall|i: int, j: int|
            0 <= i < j < by_name(v).len() ==> !text::precedes(
                (#[trigger] by_name(v)[j]).name,
                (#[trigger] by_name(v)[i]).name,
            ),
    decreases v.len(),
{
    broadcast use vstd::seq_lib::group_to_multiset_ensures;

    if v.len() > 0 {
        let t = v.drop_last();
        sorted_by_name(t);
        put_keeps_the_order(by_name(t), v.last());
        assert(v =~= t.push(v.last()));
    } else {
        assert(by_name(v) =~= v);
    }
}

proof fn put_keeps_the_order(v: Seq<SessionView>, s: SessionView)
    requires
        forall|i: int, j: int|
            0 <= i < j < v.len() ==> !text::precedes(
                (#[trigger] v[j]).name,
                (#[trigger] v[i]).name,
            ),
    ensures
        put_by_name(v, s).to_multiset() == v.to_multiset().insert(s),
        put_by_name(v, s).len() == v.len() + 1,
        forall|i: int| 0 <= i < put_by_name(v, s).len() ==> (#[trigger] put_by_name(v, s)[i]) == s
            || v.contains(put_by_name(v, s)[i]),
        forall|i: int, j: int|
            0 <= i < j < put_by_name(v, s).len() ==> !text::precedes(
                (#[trigger] put_by_name(v, s)[j]).name,
                (#[trigger] put_by_name(v, s)[i]).name,
            ),
    decreases v.len(),
{
    broadcast use vstd::seq_lib::group_to_multiset_ensures;

    let p = put_by_name(v, s);
    if v.len() > 0 && text::precedes(s.name, v.last().name) {
        let t = v.drop_last();
        assert forall|i: int, j: int| 0 <= i < j < t.len() implies !text::precedes(
            (#[trigger] t[j]).name,
            (#[trigger] t[i]).name,
        ) by {
            assert(t[i] == v[i] && t[j] == v[j]);
        }
        put_keeps_the_order(t, s);
        let q = put_by_name(t, s);
        assert(v =~= t.push(v.last()));
        assert(p.to_multiset() =~= v.to_multiset().insert(s));
        assert forall|i: int| 0 <= i < p.len() implies (#[trigger] p[i]) == s || v.contains(
            p[i],
        ) by {
            if i < q.len() {
                assert(q[i] == p[i]);
                if q[i] != s {
                    let k = choose|k: int| 0 <= k < t.len() && t[k] == q[i];
                    assert(v[k] == p[i]);
                }
            } else {
                assert(v[v.len() - 1] == p[i]);
            }
        }
        assert forall|i: int, j: int| 0 <= i < j < p.len() implies !text::precedes(
            (#[trigger] p[j]).name,
            (#[trigger] p[i]).name,
        ) by {
            if j < q.len() {
                assert(q[i] == p[i] && q[j] == p[j]);
            } else {
                assert(p[j] == v.last());
                assert(p[i] == q[i]);
                if q[i] == s {
                    if text::precedes(v.last().name, s.name) {
                        text::precedes_transitive(s.name, v.last().name, s.name);
                        text::precedes_irreflexive(s.name);
                    }
                } else {
                    let k = choose|k: int| 0 <= k < t.len() && t[k] == q[i];
                    assert(v[k] == q[i] && v[v.len() - 1] == v.last());
                }
            }
        }
    } else {
        assert forall|i: int| 0 <= i < p.len() implies (#[trigger] p[i]) == s || v.contains(
            p[i],
        ) by {
            if i < v.len() {
                assert(v[i] == p[i]);
            }
        }
        assert forall|i: int, j: int| 0 <= i < j < p.len() implies !text::precedes(
            (#[trigger] p[j]).name,
            (#[trigger] p[i]).name,
        ) by {
            if j < v.len() {
                assert(v[i] == p[i] && v[j] == p[j]);
            } else {
                assert(p[j] == s);
                assert(v[i] == p[i]);
                if text::precedes(s.name, v[i].name) && i < v.len() - 1 {
                    text::precedes_total(v.last().name, s.name);
                    assert(!text::precedes(v[v.len() - 1].name, v[i].name));
                    text::precedes_total(v.last().name, v[i].name);
                    if text::precedes(v.last().name, s.name) {
                        text::precedes_transitive(v.last().name, s.name, v[i].name);
                    }
                }
            }
        }
    }
}

/// `$TMUX` names the socket before its first comma, and all of it where it has none; an empty
/// one names none.
pub proof fn socket_stands_before_the_comma(path: Seq<char>, rest: Seq<char>)
    requires
        !path.contains(','),
    ensures
        path.len() > 0 ==> socket_in(Some(path + ","@ + rest)) == Some(path),
        path.len() > 0 ==> socket_in(Some(path)) == Some(path),
        path.len() == 0 ==> socket_in(Some(path + ","@ + rest)) is None,
        path.len() == 0 ==> socket_in(Some(path)) is None,
        socket_in(None) is None,
{
    reveal_strlit(",");
    assert(","@ =~= seq![',']);
    text::pieces_of_sum(path, ',', rest);
    text::pieces_without(path, ',');
}

/// The sources of this machine are picked one by one, in order: those whose id is `local` or
/// begins with `local:`.
pub proof fn local_sources_are_picked(a: Seq<SourceView>, b: Seq<SourceView>, s: SourceView)
    ensures
        local_ones(a + b) == local_ones(a) + local_ones(b),
        local_ones(seq![s]) == if s.alias == "local"@ || (s.alias.len() > 6 && s.alias.take(6)
            == "local:"@) || s.alias == "local:"@ {
            seq![s]
        } else {
            Seq::empty()
        },
    decreases b.len(),
{
    if b.len() == 0 {
        assert(a + b =~= a);
        assert(local_ones(a) + local_ones(b) =~= local_ones(a));
    } else {
        assert((a + b).drop_last() =~= a + b.drop_last());
        local_sources_are_picked(a, b.drop_last(), s);
        assert(local_ones(a + b) =~= local_ones(a) + local_ones(b));
    }
    reveal_with_fuel(local_ones, 2);
    assert(seq![s].drop_last() =~= Seq::empty());
    assert(Seq::<SourceView>::empty().push(s) =~= seq![s]);
    local_by_id(s.alias);
}

proof fn local_by_id(id: Seq<char>)
    ensures
        machine_text(id) == "local"@ <==> id == "local"@ || (id.len() > 6 && id.take(6)
            == "local:"@) || id == "local:"@,
{
    reveal_strlit("local");
    reveal_strlit("local:");
    let local = "local"@;
    let colon = "local:"@;
    text::first_index_bounds(id, ':');
    let i = text::first_index(id, ':');
    if machine_text(id) == local {
        if i < id.len() {
            assert(id.take(i) == local);
            assert(i == 5);
            assert(id.take(6) =~= colon) by {
                assert forall|k: int| 0 <= k < 6 implies id[k] == colon[k] by {
                    if k < 5 {
                        assert(id.take(i)[k] == local[k]);
                    }
                }
            }
            if id.len() == 6 {
                assert(id.take(6) =~= id);
            }
        }
    }
    if id == colon || (id.len() > 6 && id.take(6) == colon) {
        if id.len() > 6 {
            assert forall|k: int| 0 <= k < 6 implies id[k] == colon[k] by {
                assert(id.take(6)[k] == id[k]);
            }
        }
        text::first_index_is(id, ':', 5);
        assert(id.take(5) =~= local);
    }
    if id == local {
        text::first_index_is(id, ':', 5);
    }
}

/// Sources that tmux's clients talk to are picked one by one, in order: those whose binary is
/// called tmux or psmux.
pub proof fn talking_sources_are_picked(a: Seq<SourceView>, b: Seq<SourceView>, s: SourceView)
    ensures
        talking_tmux(a + b) == talking_tmux(a) + talking_tmux(b),
        talking_tmux(seq![s]) == if s.binary == "tmux"@ || s.binary == "psmux"@ {
            seq![s]
        } else {
            Seq::empty()
        },
    decreases b.len(),
{
    if b.len() == 0 {
        assert(a + b =~= a);
        assert(talking_tmux(a) + talking_tmux(b) =~= talking_tmux(a));
    } else {
        assert((a + b).drop_last() =~= a + b.drop_last());
        talking_sources_are_picked(a, b.drop_last(), s);
        assert(talking_tmux(a + b) =~= talking_tmux(a) + talking_tmux(b));
    }
    reveal_with_fuel(talking_tmux, 2);
    assert(seq![s].drop_last() =~= Seq::empty());
    assert(Seq::<SourceView>::empty().push(s) =~= seq![s]);
}

/// The first source with a binary of this name is the one that is taken, and none is taken
/// where there is none.
pub proof fn first_with_binary_is_taken(v: Seq<SourceView>, bin: Seq<char>, i: int)
    requires
        0 <= i <= v.len(),
        forall|j: int| 0 <= j < i ==> (#[trigger] v[j]).binary != bin,
        i < v.len() ==> v[i].binary == bin,
    ensures
        i < v.len() ==> first_with_binary(v, bin) == Some(v[i].alias),
        i == v.len() ==> first_with_binary(v, bin) is None,
    decreases v.len(),
{
    if v.len() > 0 && i > 0 {
        let t = v.drop_first();
        assert(v[0].binary != bin);
        assert forall|j: int| 0 <= j < i - 1 implies (#[trigger] t[j]).binary != bin by {
            assert(t[j] == v[j + 1]);
        }
        first_with_binary_is_taken(t, bin, i - 1);
    }
}

/// The source of the mux that this program runs under: the first on this machine that is
/// called as the mux calls itself; else, for tmux and psmux, which answer to each other's
/// name, the only one of the two; else none.
pub proof fn own_source_is_on_this_machine(v: Seq<SourceView>, kind: Seq<char>)
    ensures
        ({
            let here = local_ones(v);
            let called = first_with_binary(here, kind);
            let talking = talking_tmux(here);
            &&& called is Some ==> own_source(v, kind) == called
            &&& called is None && (kind == "tmux"@ || kind == "psmux"@) && talking.len() == 1
                ==> own_source(v, kind) == Some(talking[0].alias)
            &&& called is None && !((kind == "tmux"@ || kind == "psmux"@) && talking.len() == 1)
                ==> own_source(v, kind) is None
        }),
{
}

/// The source that answers as an id is the first with it, and none where there is none.
pub proof fn source_is_found_by_id(v: Seq<SourceView>, alias: Seq<char>, i: int)
    requires
        0 <= i <= v.len(),
        forall|j: int| 0 <= j < i ==> (#[trigger] v[j]).alias != alias,
        i < v.len() ==> v[i].alias == alias,
    ensures
        i < v.len() ==> source_named(v, alias) == Some(v[i]),
        i == v.len() ==> source_named(v, alias) is None,
    decreases v.len(),
{
    if v.len() > 0 && i > 0 {
        let t = v.drop_first();
        assert(v[0].alias != alias);
        assert forall|j: int| 0 <= j < i - 1 implies (#[trigger] t[j]).alias != alias by {
            assert(t[j] == v[j + 1]);
        }
        source_is_found_by_id(t, alias, i - 1);
    }
}

/// Sources are carried over one by one, in order.
pub proof fn carried_in_order(fresh: Seq<SourceView>, a: Seq<SourceView>, b: Seq<SourceView>)
    ensures
        carried(fresh, a + b) == carried(fresh, a) + carried(fresh, b),
    decreases b.len(),
{
    if b.len() == 0 {
        assert(a + b =~= a);
        assert(carried(fresh, a) + carried(fresh, b) =~= carried(fresh, a));
    } else {
        assert((a + b).drop_last() =~= a + b.drop_last());
        carried_in_order(fresh, a, b.drop_last());
        assert(carried(fresh, a + b) =~= carried(fresh, a) + carried(fresh, b));
    }
}

/// A name that is not known yet is offered by the first that offers it, and a name that no
/// one offers is not known.
pub proof fn first_offer_counts(
    m: Map<Seq<char>, Provider>,
    v: Seq<(Seq<char>, Provider)>,
    name: Seq<char>,
    i: int,
)
    requires
        !m.dom().contains(name),
        0 <= i <= v.len(),
        forall|j: int| 0 <= j < i ==> (#[trigger] v[j]).0 != name,
        i < v.len() ==> v[i].0 == name,
    ensures
        with_offered(m, v).dom().contains(name) <==> i < v.len(),
        i < v.len() ==> with_offered(m, v)[name] == v[i].1,
    decreases v.len(),
{
    if v.len() > 0 {
        let less = v.drop_last();
        if i < less.len() {
            assert forall|j: int| 0 <= j < i implies (#[trigger] less[j]).0 != name by {
                assert(less[j] == v[j]);
            }
            assert(less[i] == v[i]);
            first_offer_counts(m, less, name, i);
        } else {
            assert forall|j: int| 0 <= j < less.len() implies (#[trigger] less[j]).0 != name by {
                assert(less[j] == v[j]);
            }
            first_offer_counts(m, less, name, less.len() as int);
            if i == v.len() {
                assert(v[v.len() - 1].0 != name);
            }
        }
    }
}

/// This machine is offered by no one but itself, and any other by the providers before the
/// list of distributions, by that before the configuration.
pub proof fn providers_come_before_the_configuration(
    offered: Seq<(Seq<char>, Provider)>,
    distros: Seq<Seq<char>>,
    hosts: Seq<Seq<char>>,
    wsl: Seq<Seq<char>>,
    name: Seq<char>,
)
    requires
        name != "local"@,
    ensures
        ({
            let m = providers_of(offered, distros, hosts, wsl);
            let first = with_offered(Map::empty(), offered);
            &&& m.dom().contains("local"@) && m["local"@] == Provider::Local
            &&& first.dom().contains(name) ==> m.dom().contains(name) && m[name] == first[name]
            &&& !first.dom().contains(name) && distros.contains(name) ==> m.dom().contains(name)
                && m[name] == Provider::Wsl
            &&& !first.dom().contains(name) && !distros.contains(name) && (hosts.contains(name) || (
            name.len() > 0 && wsl.contains(name))) ==> m.dom().contains(name) && m[name]
                == Provider::Config
            &&& !first.dom().contains(name) && !distros.contains(name) && !hosts.contains(name)
                && !(name.len() > 0 && wsl.contains(name)) ==> !m.dom().contains(name)
        }),
{
    let a = with_offered(Map::empty(), offered);
    let b = with_offered(a, all_by(distros, Provider::Wsl));
    let c = with_offered(b, all_by(hosts, Provider::Config));
    let d = with_offered(c, all_by(nonempty(wsl), Provider::Config));
    offered_by_all(a, distros, Provider::Wsl, name);
    offered_by_all(b, hosts, Provider::Config, name);
    offered_by_all(c, nonempty(wsl), Provider::Config, name);
    nonempty_holds(wsl, name);
}

proof fn offered_by_all(
    m: Map<Seq<char>, Provider>,
    names: Seq<Seq<char>>,
    p: Provider,
    name: Seq<char>,
)
    ensures
        ({
            let after = with_offered(m, all_by(names, p));
            &&& after.dom().contains(name) <==> m.dom().contains(name) || names.contains(name)
            &&& m.dom().contains(name) ==> after[name] == m[name]
            &&& !m.dom().contains(name) && names.contains(name) ==> after[name] == p
        }),
    decreases names.len(),
{
    if names.len() > 0 {
        let less = names.drop_last();
        offered_by_all(m, less, p, name);
        assert(all_by(names, p).drop_last() =~= all_by(less, p));
        assert(all_by(names, p).last() == (names.last(), p));
        if names.contains(name) {
            let k = choose|k: int| 0 <= k < names.len() && names[k] == name;
            if k < less.len() {
                assert(less[k] == name);
            }
        }
        if less.contains(name) {
            let k = choose|k: int| 0 <= k < less.len() && less[k] == name;
            assert(names[k] == name);
        }
        if names.last() == name {
            assert(names[names.len() - 1] == name);
        }
    }
}

proof fn nonempty_holds(names: Seq<Seq<char>>, name: Seq<char>)
    ensures
        nonempty(names).contains(name) <==> name.len() > 0 && names.contains(name),
    decreases names.len(),
{
    if names.len() > 0 {
        let less = names.drop_last();
        let rest = nonempty(less);
        let all = nonempty(names);
        nonempty_holds(less, name);
        if all.contains(name) {
            let k = choose|k: int| 0 <= k < all.len() && all[k] == name;
            if k < rest.len() {
                assert(rest[k] == name);
                let j = choose|j: int| 0 <= j < less.len() && less[j] == name;
                assert(names[j] == name);
            } else {
                assert(names[names.len() - 1] == name);
            }
        }
        if name.len() > 0 && names.contains(name) {
            let j = choose|j: int| 0 <= j < names.len() && names[j] == name;
            if j < less.len() {
                assert(less[j] == name);
                let k = choose|k: int| 0 <= k < rest.len() && rest[k] == name;
                assert(all[k] == name);
            } else {
                assert(all[rest.len() as int] == name);
            }
        }
    }
}

/// One more session comes in behind those of the same name and those of names before it, and
/// in front of those of names after it; the others stay as they stood.
pub proof fn sorting_keeps_ties_in_order(v: Seq<SessionView>, s: SessionView) -> (at: int)
    ensures
        0 <= at <= by_name(v).len(),
        by_name(v.push(s)) == by_name(v).take(at) + seq![s] + by_name(v).skip(at),
        forall|i: int|
            0 <= i < at ==> !text::precedes(s.name, (#[trigger] by_name(v)[i]).name),
        forall|i: int|
            at <= i < by_name(v).len() ==> text::precedes(s.name, (#[trigger] by_name(v)[i]).name),
{
    assert(v.push(s).drop_last() =~= v);
    sorted_by_name(v);
    put_stands(by_name(v), s)
}

proof fn put_stands(v: Seq<SessionView>, s: SessionView) -> (at: int)
    requires
        forall|i: int, j: int|
            0 <= i < j < v.len() ==> !text::precedes((#[trigger] v[j]).name, (#[trigger] v[i]).name),
    ensures
        0 <= at <= v.len(),
        put_by_name(v, s) == v.take(at) + seq![s] + v.skip(at),
        forall|i: int| 0 <= i < at ==> !text::precedes(s.name, (#[trigger] v[i]).name),
        forall|i: int| at <= i < v.len() ==> text::precedes(s.name, (#[trigger] v[i]).name),
    decreases v.len(),
{
    if v.len() > 0 && text::precedes(s.name, v.last().name) {
        let t = v.drop_last();
        assert forall|i: int, j: int| 0 <= i < j < t.len() implies !text::precedes(
            (#[trigger] t[j]).name,
            (#[trigger] t[i]).name,
        ) by {
            assert(t[i] == v[i] && t[j] == v[j]);
        }
        let at = put_stands(t, s);
        assert(put_by_name(v, s) =~= v.take(at) + seq![s] + v.skip(at));
        assert forall|i: int| 0 <= i < at implies !text::precedes(
            s.name,
            (#[trigger] v[i]).name,
        ) by {
            assert(t[i] == v[i]);
        }
        assert forall|i: int| at <= i < v.len() implies text::precedes(
            s.name,
            (#[trigger] v[i]).name,
        ) by {
            if i < t.len() {
                assert(t[i] == v[i]);
            }
        }
        at
    } else {
        let n = v.len() as int;
        assert(put_by_name(v, s) =~= v.take(n) + seq![s] + v.skip(n));
        assert forall|i: int| 0 <= i < n implies !text::precedes(
            s.name,
            (#[trigger] v[i]).name,
        ) by {
            let last = v[n - 1];
            if text::precedes(s.name, v[i].name) && i < n - 1 {
                assert(!text::precedes(last.name, v[i].name));
                text::precedes_total(last.name, v[i].name);
                if v[i].name != last.name {
                    text::precedes_transitive(s.name, v[i].name, last.name);
                }
            }
        }
        n
    }
}

/// One window is told as one, and any other number with its number.
pub proof fn windows_are_told_by_number(n: int)
    ensures
        windows_text(1) == "1 window"@,
        n != 1 ==> windows_text(n) == number::signed_decimal(n) + " windows"@,
{
}

/// The width of a column is that of its longest text: none is longer, and one is as long.
pub proof fn column_is_as_wide_as_its_widest(v: Seq<Seq<char>>, i: int) -> (at: int)
    requires
        0 <= i < v.len(),
    ensures
        byte_len(v[i]) <= widest(v),
        0 <= at < v.len(),
        byte_len(v[at]) == widest(v),
    decreases v.len(),
{
    let less = v.drop_last();
    let n = v.len() - 1;
    if less.len() == 0 {
        assert(widest(less) == 0);
        0
    } else {
        let at = column_is_as_wide_as_its_widest(
            less,
            if i < less.len() {
                i
            } else {
                0
            },
        );
        if byte_len(v.last()) > widest(less) {
            if i < less.len() {
                assert(less[i] == v[i]);
            }
            n
        } else {
            if i < less.len() {
                assert(less[i] == v[i]);
            }
            assert(less[at] == v[at]);
            at
        }
    }
}

/// A text is padded with spaces behind it up to the width, and one that is as wide already is
/// as it is.
pub proof fn padding_stands_behind(s: Seq<char>, width: usize)
    ensures
        padded(s, width).take(s.len() as int) == s,
        padded(s, width).len() == if s.len() < width {
            width as nat
        } else {
            s.len()
        },
        forall|i: int| s.len() <= i < padded(s, width).len() ==> #[trigger] padded(s, width)[i] == ' ',
{
    assert(padded(s, width).take(s.len() as int) =~= s);
}

/// The line of a session tells its address, its windows and whether it is attached, in that
/// order.
pub proof fn line_tells_the_session(s: SessionView)
    ensures
        session_line(s, 0, 0) == s.source + "/"@ + s.name + "  "@ + windows_text(s.windows)
            + "  attached="@ + if s.attached {
            "true"@
        } else {
            "false"@
        },
{
}

/// The lines of sessions stand in their order, one for each, with columns that are as wide in
/// each.
pub proof fn lines_stand_in_order(v: Seq<SessionView>, i: int)
    requires
        0 <= i < v.len(),
    ensures
        session_lines(v).len() == v.len(),
        session_lines(v)[i] == session_line(v[i], widest(addresses_of(v)), widest(window_words(v))),
        addresses_of(v)[i] == v[i].source + "/"@ + v[i].name,
        window_words(v)[i] == windows_text(v[i].windows),
{
}

/// A mux that gives the name itself is believed, without the white space around what it
/// printed; else the session has the name that was asked for.
pub proof fn name_is_given_or_asked_for(printed: Seq<char>, asked: Seq<char>)
    ensures
        name_given(true, printed, asked) == text::trimmed(printed),
        name_given(false, printed, asked) == asked,
{
}

} // verus!
