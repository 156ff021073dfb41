//! Sources: the muxes of the machines that are reached, and how a command that was run
//! for one ended.
use crate::model::host::{new_host, Host};
use crate::model::transport::{Transport, TransportView};
use crate::mux::{for_binary, kind_called, server_socket_for, socket_for, MuxView};
use crate::number;
use crate::paths;
use crate::provision::config::{
    host_entries, merged_specs, spec_views, wsl_entries, Config, HostSpec, SpecView,
};
use crate::session::{
    source_id, source_id_text, wsl_distro_of, wsl_distro_text, LOCAL_SOURCE,
};
use crate::text;
use vstd::prelude::*;

verus! {

/// How a command failed.
#[derive(Clone, Debug, PartialEq, Eq)]
pub enum RunError {
    /// The process ended: what it wrote to stderr, and its exit code.
    Exit { stderr: String, code: i32 },
    /// It could not be started, or its machine not be reached.
    Other(String),
}

/// A [`RunError`] with its text as a sequence.
pub enum RunErrorView {
    Exit { stderr: Seq<char>, code: int },
    Other(Seq<char>),
}

impl View for RunError {
    type V = RunErrorView;

    open spec fn view(&self) -> RunErrorView {
        match self {
            RunError::Exit { stderr, code } => RunErrorView::Exit {
                stderr: stderr@,
                code: *code as int,
            },
            RunError::Other(s) => RunErrorView::Other(s@),
        }
    }
}

/// What an error reads as.
pub open spec fn error_text(e: RunErrorView) -> Seq<char> {
    match e {
        RunErrorView::Exit { stderr, code } => "command failed (exit "@ + number::signed_decimal(code) + "): "@ + stderr,
        RunErrorView::Other(s) => s,
    }
}

/// The error of a process that ended with this code: what it wrote, without the white
/// space that it ends with.
pub open spec fn exit_error(stderr: Seq<char>, code: Option<i32>) -> RunErrorView {
    RunErrorView::Exit {
        stderr: text::trim_right(stderr),
        code: match code {
            Some(c) => c as int,
            None => -1,
        },
    }
}

impl RunError {
    /// What the error reads as.
    pub fn message(&self) -> (s: String)
        ensures
            s@ == error_text(self@),
    {
        match self {
            RunError::Exit { stderr, code } => {
                let mut s = "command failed (exit ".to_owned();
                s.append(number::print_i64(*code as i64).as_str());
                s.append("): ");
                s.append(stderr.as_str());
                s
            },
            RunError::Other(s) => s.clone(),
        }
    }

    /// The error of a process that ended with this code: what it wrote, without the
    /// line end that it ends with. A process that was killed has no code.
    pub fn exited(stderr: &[u8], code: Option<i32>) -> (e: RunError)
        ensures
            e@ == exit_error(text::utf8_lossy(stderr@), code),
    {
        RunError::exited_with(text::from_utf8_lossy(stderr).as_str(), code)
    }

    /// The error of a process that ended with this code, from what it wrote, read as
    /// text.
    pub fn exited_with(stderr: &str, code: Option<i32>) -> (e: RunError)
        ensures
            e@ == exit_error(stderr@, code),
    {
        RunError::Exit {
            stderr: text::trim_end(stderr),
            code: match code {
                Some(c) => c,
                None => -1,
            },
        }
    }

    /// The error of a command that did not answer within its time.
    pub fn timed_out(what: &str, secs: u64) -> (e: RunError)
        ensures
            e@ == (RunErrorView::Other(
                what@ + " did not answer within "@ + number::decimal(secs as nat) + "s"@,
            )),
    {
        let mut s = what.to_owned();
        s.append(" did not answer within ");
        s.append(number::print(secs).as_str());
        s.append("s");
        RunError::Other(s)
    }
}

// ---------------------------------------------------------------------------
// Machines
// ---------------------------------------------------------------------------

/// The machine of a source, with what it takes to reach it. `id` is the id of the source.
#[derive(Clone, Debug, PartialEq, Eq)]
pub enum MachineKind {
    /// This machine, with the socket of a mux server other than the default one.
    Local { id: String, socket: Option<String> },
    /// A machine over ssh, with the ControlMaster socket and the platform on this side.
    Ssh { id: String, alias: String, control_path: String, os: String },
    /// A WSL distribution on this machine.
    Wsl { id: String, distro: String },
}

/// A [`MachineKind`] with its texts as sequences.
pub enum MachineKindView {
    Local { id: Seq<char>, socket: Option<Seq<char>> },
    Ssh { id: Seq<char>, alias: Seq<char>, control_path: Seq<char>, os: Seq<char> },
    Wsl { id: Seq<char>, distro: Seq<char> },
}

impl View for MachineKind {
    type V = MachineKindView;

    open spec fn view(&self) -> MachineKindView {
        match self {
            MachineKind::Local { id, socket } => MachineKindView::Local {
                id: id@,
                socket: text::opt_text(*socket),
            },
            MachineKind::Ssh { id, alias, control_path, os } => MachineKindView::Ssh {
                id: id@,
                alias: alias@,
                control_path: control_path@,
                os: os@,
            },
            MachineKind::Wsl { id, distro } => MachineKindView::Wsl { id: id@, distro: distro@ },
        }
    }
}

/// The transport that reaches a machine; none is known for a WSL distribution.
pub open spec fn transport_of(k: MachineKindView) -> Option<TransportView> {
    match k {
        MachineKindView::Local { socket, .. } => Some(TransportView::Local { socket }),
        MachineKindView::Ssh { alias, control_path, os, .. } => Some(
            TransportView::Ssh { alias, control_path, os },
        ),
        MachineKindView::Wsl { .. } => None,
    }
}

impl MachineKind {
    /// A copy.
    pub fn copied(&self) -> (k: MachineKind)
        ensures
            k@ == self@,
    {
        match self {
            MachineKind::Local { id, socket } => MachineKind::Local {
                id: id.clone(),
                socket: match socket {
                    Some(s) => Some(s.clone()),
                    None => None,
                },
            },
            MachineKind::Ssh { id, alias, control_path, os } => MachineKind::Ssh {
                id: id.clone(),
                alias: alias.clone(),
                control_path: control_path.clone(),
                os: os.clone(),
            },
            MachineKind::Wsl { id, distro } => MachineKind::Wsl {
                id: id.clone(),
                distro: distro.clone(),
            },
        }
    }

    /// The socket that a mux on this machine is addressed over.
    pub fn local_socket(&self) -> (s: Option<String>)
        ensures
            text::opt_text(s) == match self@ {
                MachineKindView::Local { socket, .. } => socket,
                _ => None,
            },
    {
        match self {
            MachineKind::Local { socket: Some(s), .. } => Some(s.clone()),
            _ => None,
        }
    }

    /// The transport that reaches the machine.
    pub fn transport(&self) -> (t: Option<Transport>)
        ensures
            match transport_of(self@) {
                Some(v) => t matches Some(x) && x@ == v,
                None => t is None,
            },
    {
        match self.copied() {
            MachineKind::Local { socket, .. } => Some(Transport::Local { socket }),
            MachineKind::Ssh { alias, control_path, os, .. } => Some(
                Transport::Ssh { alias, control_path, os },
            ),
            MachineKind::Wsl { .. } => None,
        }
    }
}

/// The ControlMaster socket of an alias.
pub open spec fn control_socket(dir: Seq<char>, alias: Seq<char>) -> Seq<char> {
    paths::below(dir, "cm-"@ + alias + ".sock"@)
}

/// The ControlMaster socket of an alias.
pub fn control_path(dir: &str, alias: &str) -> (p: String)
    ensures
        p@ == control_socket(dir@, alias@),
{
    let mut name = "cm-".to_owned();
    name.append(alias);
    name.append(".sock");
    paths::join(dir, name.as_str())
}

/// The machine that goes by a name: this one, a WSL distribution, or one that ssh reaches.
pub open spec fn machine_called(
    machine: Seq<char>,
    id: Seq<char>,
    os: Seq<char>,
    dir: Seq<char>,
    socket: Option<Seq<char>>,
) -> MachineKindView {
    if machine == LOCAL_SOURCE@ {
        MachineKindView::Local { id, socket }
    } else {
        match wsl_distro_text(machine) {
            Some(distro) => MachineKindView::Wsl { id, distro },
            None => MachineKindView::Ssh {
                id,
                alias: machine,
                control_path: control_socket(dir, machine),
                os,
            },
        }
    }
}

/// The machine that goes by a name.
pub fn kind_for(
    machine: &str,
    id: String,
    os: &str,
    xmux_dir: &str,
    local_socket: Option<String>,
) -> (k: MachineKind)
    ensures
        k@ == machine_called(
            machine@,
            id@,
            os@,
            xmux_dir@,
            text::opt_text(local_socket),
        ),
{
    if text::same(machine, LOCAL_SOURCE) {
        return MachineKind::Local { id, socket: local_socket };
    }
    match wsl_distro_of(machine) {
        Some(distro) => MachineKind::Wsl { id, distro: distro.to_owned() },
        None => MachineKind::Ssh {
            id,
            alias: machine.to_owned(),
            control_path: control_path(xmux_dir, machine),
            os: os.to_owned(),
        },
    }
}

// ---------------------------------------------------------------------------
// Sources
// ---------------------------------------------------------------------------

/// One mux on one machine.
#[derive(Clone, Debug, PartialEq, Eq)]
pub struct Source {
    /// The id that it answers as.
    pub alias: String,
    /// The mux binary on the machine.
    pub binary: String,
    pub kind: MachineKind,
}

/// A [`Source`] with its texts as sequences.
pub struct SourceView {
    pub alias: Seq<char>,
    pub binary: Seq<char>,
    pub kind: MachineKindView,
}

impl View for Source {
    type V = SourceView;

    open spec fn view(&self) -> SourceView {
        SourceView { alias: self.alias@, binary: self.binary@, kind: self.kind@ }
    }
}

/// The views of a sequence of sources.
pub open spec fn source_views(v: Seq<Source>) -> Seq<SourceView> {
    v.map_values(|s: Source| s@)
}

impl Source {
    /// A copy.
    pub fn copied(&self) -> (s: Source)
        ensures
            s@ == self@,
    {
        Source {
            alias: self.alias.clone(),
            binary: self.binary.clone(),
            kind: self.kind.copied(),
        }
    }

    /// The host of the source, of which nothing is known yet. There is none where the
    /// binary names no mux, or no transport is known to its machine.
    pub fn host(&self) -> (h: Option<Host>)
        ensures
            match (transport_of(self@.kind), kind_called(self@.binary)) {
                (Some(t), Some(kind)) => h matches Some(x) && x@ == new_host(
                    t,
                    MuxView { kind, bin: self@.binary },
                ),
                _ => h is None,
            },
    {
        match (self.kind.transport(), for_binary(self.binary.as_str())) {
            (Some(t), Some(m)) => Some(Host::new(t, m)),
            _ => None,
        }
    }
}

/// The source that the mux `bin` on `machine` is. The mux is given the socket only where
/// it takes one.
pub open spec fn source_on(
    machine: Seq<char>,
    bin: Seq<char>,
    id: Seq<char>,
    os: Seq<char>,
    dir: Seq<char>,
    socket: Option<Seq<char>>,
) -> SourceView {
    SourceView {
        alias: id,
        binary: bin,
        kind: machine_called(machine, id, os, dir, socket_for(bin, socket)),
    }
}

/// The source that the mux `bin` on `machine` is, which answers as `id`.
pub fn for_machine_mux(
    machine: &str,
    bin: &str,
    id: String,
    os: &str,
    xmux_dir: &str,
    local_socket: Option<String>,
) -> (s: Source)
    ensures
        s@ == source_on(machine@, bin@, id@, os@, xmux_dir@, text::opt_text(local_socket)),
{
    let socket = server_socket_for(bin, local_socket);
    Source {
        alias: id.clone(),
        binary: bin.to_owned(),
        kind: kind_for(machine, id, os, xmux_dir, socket),
    }
}

/// The sources of this machine: one for each of its muxes.
pub open spec fn local_sources(
    muxes: Seq<Seq<char>>,
    os: Seq<char>,
    dir: Seq<char>,
    socket: Option<Seq<char>>,
) -> Seq<SourceView> {
    muxes.map_values(
        |bin: Seq<char>|
            source_on(
                LOCAL_SOURCE@,
                bin,
                source_id_text(LOCAL_SOURCE@, bin, muxes.len() > 1),
                os,
                dir,
                socket,
            ),
    )
}

/// The source that a spec describes.
pub open spec fn spec_source(spec: SpecView, os: Seq<char>, dir: Seq<char>) -> SourceView {
    source_on(spec.alias, spec.bin, spec.id, os, dir, None)
}

/// The sources that specs describe.
pub open spec fn spec_sources(
    specs: Seq<SpecView>,
    os: Seq<char>,
    dir: Seq<char>,
) -> Seq<SourceView> {
    specs.map_values(|spec: SpecView| spec_source(spec, os, dir))
}

/// All sources: those of this machine, those that ssh reaches, and those on WSL
/// distributions.
pub open spec fn all_sources(
    local: Seq<SourceView>,
    ssh: Seq<SpecView>,
    wsl: Seq<SpecView>,
    os: Seq<char>,
    dir: Seq<char>,
) -> Seq<SourceView> {
    local + spec_sources(ssh, os, dir) + spec_sources(wsl, os, dir)
}

/// Appends the sources that specs describe.
fn append_specs(srcs: &mut Vec<Source>, specs: &Vec<HostSpec>, os: &str, dir: &str)
    ensures
        source_views(final(srcs)@) == source_views(old(srcs)@) + spec_sources(
            spec_views(specs@),
            os@,
            dir@,
        ),
{
    let ghost was = source_views(srcs@);
    let ghost all = spec_sources(spec_views(specs@), os@, dir@);
    let mut i: usize = 0;
    proof {
        assert(was + all.take(0) =~= was);
    }
    while i < specs.len()
        invariant
            i <= specs@.len(),
            all == spec_sources(spec_views(specs@), os@, dir@),
            source_views(srcs@) == was + all.take(i as int),
        decreases specs.len() - i,
    {
        let ghost before = srcs@;
        let s = for_machine_mux(
            specs[i].alias.as_str(),
            specs[i].bin.as_str(),
            specs[i].id.clone(),
            os,
            dir,
            None,
        );
        srcs.push(s);
        proof {
            assert(s@ == all[i as int]);
            assert(source_views(srcs@) =~= source_views(before).push(s@));
            assert(source_views(srcs@) =~= was + all.take(i + 1));
        }
        i += 1;
    }
    proof {
        assert(all.take(i as int) =~= all);
    }
}

/// The sources of a configuration, from the machines that were found: those of this
/// machine first, then those that ssh reaches, then those on WSL distributions.
/// `local_muxes` are the muxes of this machine, as they were resolved.
pub fn build(
    cfg: &Config,
    ssh_aliases: &[String],
    wsl_distros: &[String],
    os: &str,
    local_muxes: &[String],
    xmux_dir: &str,
    local_socket: Option<String>,
) -> (srcs: Vec<Source>)
    ensures
        source_views(srcs@) == all_sources(
            local_sources(text::texts(local_muxes@), os@, xmux_dir@, text::opt_text(local_socket)),
            merged_specs(
                text::texts(ssh_aliases@),
                host_entries(cfg.hosts@),
                text::texts(cfg.exclude@),
                true,
            ),
            merged_specs(
                text::texts(wsl_distros@),
                wsl_entries(cfg.wsl@),
                text::texts(cfg.exclude@),
                false,
            ),
            os@,
            xmux_dir@,
        ),
{
    let qualified = local_muxes.len() > 1;
    let ghost muxes = text::texts(local_muxes@);
    let ghost local = local_sources(muxes, os@, xmux_dir@, text::opt_text(local_socket));
    let mut srcs: Vec<Source> = Vec::new();
    let mut i: usize = 0;
    proof {
        assert(source_views(srcs@) =~= local.take(0));
    }
    while i < local_muxes.len()
        invariant
            i <= local_muxes@.len(),
            muxes == text::texts(local_muxes@),
            local == local_sources(muxes, os@, xmux_dir@, text::opt_text(local_socket)),
            qualified == (local_muxes@.len() > 1),
            source_views(srcs@) == local.take(i as int),
        decreases local_muxes.len() - i,
    {
        let ghost before = srcs@;
        let bin = local_muxes[i].as_str();
        let socket = match &local_socket {
            Some(s) => Some(s.clone()),
            None => None,
        };
        let s = for_machine_mux(
            LOCAL_SOURCE,
            bin,
            source_id(LOCAL_SOURCE, bin, qualified),
            os,
            xmux_dir,
            socket,
        );
        srcs.push(s);
        proof {
            assert(muxes[i as int] == bin@);
            assert(text::opt_text(socket) == text::opt_text(local_socket));
            assert(s@ == local[i as int]);
            assert(source_views(srcs@) =~= source_views(before).push(s@));
            assert(source_views(srcs@) =~= local.take(i + 1));
        }
        i += 1;
    }
    proof {
        assert(local.take(i as int) =~= local);
    }
    let ssh = cfg.host_specs(ssh_aliases);
    append_specs(&mut srcs, &ssh, os, xmux_dir);
    let wsl = cfg.wsl_specs(wsl_distros);
    append_specs(&mut srcs, &wsl, os, xmux_dir);
    srcs
}

// ---------------------------------------------------------------------------
// Laws
// ---------------------------------------------------------------------------

/// The socket of this machine reaches no source on another one, and no mux that takes
/// none.
pub proof fn socket_stays_with_its_mux(
    machine: Seq<char>,
    bin: Seq<char>,
    id: Seq<char>,
    os: Seq<char>,
    dir: Seq<char>,
    socket: Option<Seq<char>>,
)
    requires
        machine != LOCAL_SOURCE@ || socket_for(bin, socket) is None,
    ensures
        source_on(machine, bin, id, os, dir, socket) == source_on(machine, bin, id, os, dir, None),
{
}

/// A source that was found later is the same as one that was configured: both are built
/// from the same machine and mux.
pub proof fn found_later_is_the_same(
    spec: SpecView,
    os: Seq<char>,
    dir: Seq<char>,
    socket: Option<Seq<char>>,
)
    requires
        spec.alias != LOCAL_SOURCE@,
    ensures
        spec_source(spec, os, dir) == source_on(spec.alias, spec.bin, spec.id, os, dir, socket),
{
}

/// A machine is told by its name: `local` is this one, a name that begins with `wsl.` the
/// distribution behind it, and any other an alias that ssh reaches.
pub proof fn machines_are_told_by_name(
    name: Seq<char>,
    id: Seq<char>,
    os: Seq<char>,
    dir: Seq<char>,
    socket: Option<Seq<char>>,
)
    ensures
        machine_called("local"@, id, os, dir, socket) == (MachineKindView::Local { id, socket }),
        machine_called("wsl."@ + name, id, os, dir, socket) == (MachineKindView::Wsl {
            id,
            distro: name,
        }),
        name != "local"@ && !(name.len() >= 4 && name.take(4) == "wsl."@) ==> machine_called(
            name,
            id,
            os,
            dir,
            socket,
        ) == (MachineKindView::Ssh {
            id,
            alias: name,
            control_path: control_socket(dir, name),
            os,
        }),
{
    reveal_strlit("wsl.");
    reveal_strlit("local");
    let wsl = "wsl."@ + name;
    assert(wsl[0] != "local"@[0]);
    assert(wsl.take(4) =~= "wsl."@);
    assert(wsl.skip(4) =~= name);
}

/// Each alias has a socket of its own for shared connections.
pub proof fn control_sockets_differ(dir: Seq<char>, a: Seq<char>, b: Seq<char>)
    requires
        a != b,
    ensures
        control_socket(dir, a) != control_socket(dir, b),
{
    reveal_strlit("cm-");
    reveal_strlit("/");
    let x = "cm-"@ + a + ".sock"@;
    let y = "cm-"@ + b + ".sock"@;
    let p = control_socket(dir, a);
    let q = control_socket(dir, b);
    if p == q {
        let k = p.len() - x.len();
        assert(p.skip(k) =~= x);
        assert(q.skip(q.len() - y.len()) =~= y);
        assert(x[0] != '/' && y[0] != '/');
        assert(x == y);
        assert(x.subrange(3, 3 + a.len() as int) =~= a);
        assert(y.subrange(3, 3 + b.len() as int) =~= b);
        assert(a.len() == b.len());
    }
}

/// What a process that failed wrote is kept without the white space at its end, with its
/// code; one that was killed has none, which counts as minus one.
pub proof fn exit_is_kept(wrote: Seq<char>, end: Seq<char>, code: i32)
    requires
        wrote.len() > 0 ==> !text::is_space(wrote.last()),
        text::blank(end),
    ensures
        exit_error(wrote + end, Some(code)) == (RunErrorView::Exit {
            stderr: wrote,
            code: code as int,
        }),
        exit_error(wrote + end, None) == (RunErrorView::Exit { stderr: wrote, code: -1 }),
        error_text(RunErrorView::Exit { stderr: wrote, code: code as int })
            == "command failed (exit "@ + number::signed_decimal(code as int) + "): "@ + wrote,
        error_text(RunErrorView::Other(wrote)) == wrote,
    decreases end.len(),
{
    let s = wrote + end;
    if end.len() > 0 {
        let less = end.drop_last();
        assert forall|i: int| 0 <= i < less.len() implies text::is_space(#[trigger] less[i]) by {
            assert(less[i] == end[i]);
        }
        exit_is_kept(wrote, less, code);
        assert(text::is_space(end[end.len() - 1]));
        assert(s.last() == end.last());
        assert(s.drop_last() =~= wrote + less);
    } else {
        assert(s =~= wrote);
    }
}

/// The muxes of this machine are its sources, in order: one alone goes by the machine's name,
/// and several by the machine's name with their own.
pub proof fn local_muxes_are_its_sources(
    muxes: Seq<Seq<char>>,
    os: Seq<char>,
    dir: Seq<char>,
    socket: Option<Seq<char>>,
    i: int,
)
    requires
        0 <= i < muxes.len(),
    ensures
        local_sources(muxes, os, dir, socket).len() == muxes.len(),
        ({
            let s = local_sources(muxes, os, dir, socket)[i];
            &&& s.binary == muxes[i]
            &&& muxes.len() == 1 ==> s.alias == "local"@
            &&& muxes.len() > 1 ==> s.alias == "local"@ + ":"@ + muxes[i]
            &&& s.kind == (MachineKindView::Local {
                id: s.alias,
                socket: socket_for(muxes[i], socket),
            })
        }),
{
}

/// The sources that specs describe stand in their order, each with the binary and the id of
/// its spec; those of this machine come first, then those over ssh, then those on WSL.
pub proof fn sources_stand_in_order(
    local: Seq<SourceView>,
    ssh: Seq<SpecView>,
    wsl: Seq<SpecView>,
    os: Seq<char>,
    dir: Seq<char>,
    i: int,
)
    requires
        0 <= i < local.len() + ssh.len() + wsl.len(),
    ensures
        ({
            let all = all_sources(local, ssh, wsl, os, dir);
            &&& all.len() == local.len() + ssh.len() + wsl.len()
            &&& i < local.len() ==> all[i] == local[i]
            &&& i >= local.len() ==> {
                let spec = if i < local.len() + ssh.len() {
                    ssh[i - local.len()]
                } else {
                    wsl[i - local.len() - ssh.len()]
                };
                &&& all[i].alias == spec.id
                &&& all[i].binary == spec.bin
                &&& all[i].kind == machine_called(spec.alias, spec.id, os, dir, None)
            }
        }),
{
}

} // verus!
