//! Sessions, and the ids that machines and sources go by.
use crate::text;
use vstd::prelude::*;

verus! {

/// The name of this machine.
pub const LOCAL_SOURCE: &'static str = "local";

/// What the name of a WSL distribution's machine begins with.
pub const WSL_PREFIX: &'static str = "wsl.";

/// One session of one mux.
#[derive(Debug, Clone, PartialEq, Eq)]
pub struct Session {
    /// The id of the source that serves it.
    pub source: String,
    pub name: String,
    /// The kind of the mux that listed it.
    pub mux: String,
    pub windows: i64,
    pub attached: bool,
}

/// A [`Session`] with its texts as sequences.
pub struct SessionView {
    pub source: Seq<char>,
    pub name: Seq<char>,
    pub mux: Seq<char>,
    pub windows: int,
    pub attached: bool,
}

impl View for Session {
    type V = SessionView;

    open spec fn view(&self) -> SessionView {
        SessionView {
            source: self.source@,
            name: self.name@,
            mux: self.mux@,
            windows: self.windows as int,
            attached: self.attached,
        }
    }
}

/// The views of a sequence of sessions.
pub open spec fn session_views(v: Seq<Session>) -> Seq<SessionView> {
    v.map_values(|s: Session| s@)
}

/// The views of a vector with one more session.
pub proof fn session_views_push(v: Seq<Session>, s: Session)
    ensures
        session_views(v.push(s)) == session_views(v).push(s@),
{
    assert(session_views(v.push(s)) =~= session_views(v).push(s@));
}

impl Session {
    /// A copy.
    pub fn copied(&self) -> (s: Session)
        ensures
            s@ == self@,
    {
        Session {
            source: self.source.clone(),
            name: self.name.clone(),
            mux: self.mux.clone(),
            windows: self.windows,
            attached: self.attached,
        }
    }

    /// `source/session`.
    pub fn address(&self) -> (a: String)
        ensures
            a@ == address_text(self.source@, self.name@),
    {
        address_of(self.source.as_str(), self.name.as_str())
    }
}

/// A session by the source it is on and its name.
#[derive(Debug, Clone, PartialEq, Eq)]
pub struct Address {
    pub source: String,
    pub session: String,
}

/// `source/session`.
pub open spec fn address_text(source: Seq<char>, session: Seq<char>) -> Seq<char> {
    source + "/"@ + session
}

/// `source/session`.
pub fn address_of(source: &str, session: &str) -> (a: String)
    ensures
        a@ == address_text(source@, session@),
{
    let mut a = source.to_owned();
    a.append("/");
    a.append(session);
    a
}

/// The id of the source that the mux `bin` on `machine` is. Where a machine serves
/// one mux only, the machine's name is the id.
pub open spec fn source_id_text(machine: Seq<char>, bin: Seq<char>, qualified: bool) -> Seq<char> {
    if qualified {
        machine + ":"@ + bin
    } else {
        machine
    }
}

/// The id of the source that the mux `bin` on `machine` is.
pub fn source_id(machine: &str, bin: &str, qualified: bool) -> (id: String)
    ensures
        id@ == source_id_text(machine@, bin@, qualified),
{
    let mut id = machine.to_owned();
    if qualified {
        id.append(":");
        id.append(bin);
    }
    id
}

/// The machine of a source id: what stands before its first colon.
pub open spec fn machine_text(id: Seq<char>) -> Seq<char> {
    match text::cut_at(id, ':') {
        Some((machine, _)) => machine,
        None => id,
    }
}

/// The machine of a source id.
pub fn machine_of<'a>(id: &'a str) -> (m: &'a str)
    ensures
        m@ == machine_text(id@),
{
    match text::split_once_str(id, ':') {
        Some((machine, _)) => machine,
        None => id,
    }
}

/// The distribution that a WSL machine's name holds.
pub open spec fn wsl_distro_text(machine: Seq<char>) -> Option<Seq<char>> {
    text::after_prefix(machine, WSL_PREFIX@)
}

/// The distribution that a WSL machine's name holds.
pub fn wsl_distro_of<'a>(machine: &'a str) -> (d: Option<&'a str>)
    ensures
        text::opt_str(d) == wsl_distro_text(machine@),
{
    text::after_str(machine, WSL_PREFIX)
}

/// Whether a source is served by this machine.
pub fn is_local_source(id: &str) -> (r: bool)
    ensures
        r == (machine_text(id@) == LOCAL_SOURCE@),
{
    text::same(machine_of(id), LOCAL_SOURCE)
}

/// A qualified id leads back to its machine, and so does a bare one: ids keep the
/// machine as long as its name holds no colon.
pub proof fn id_keeps_the_machine(machine: Seq<char>, bin: Seq<char>, qualified: bool)
    requires
        !machine.contains(':'),
    ensures
        machine_text(source_id_text(machine, bin, qualified)) == machine,
{
    reveal_strlit(":");
    let id = source_id_text(machine, bin, qualified);
    let n = machine.len() as int;
    assert forall|j: int| 0 <= j < n implies id[j] != ':' by {
        assert(machine[j] == id[j]);
        assert(machine.contains(machine[j]));
    }
    if qualified {
        assert(id[n] == ':');
    }
    text::first_index_is(id, ':', n);
    if qualified {
        assert(id.take(n) =~= machine);
    }
}

/// Two muxes of one machine have different qualified ids.
pub proof fn qualified_ids_differ(machine: Seq<char>, a: Seq<char>, b: Seq<char>)
    requires
        a != b,
    ensures
        source_id_text(machine, a, true) != source_id_text(machine, b, true),
{
    let x = source_id_text(machine, a, true);
    let y = source_id_text(machine, b, true);
    let n = (machine + ":"@).len() as int;
    assert(x.skip(n) =~= a);
    assert(y.skip(n) =~= b);
}

/// An address is split at its first slash into the source and the session, whatever the
/// session is called.
pub proof fn address_reads_back(source: Seq<char>, session: Seq<char>)
    requires
        !source.contains('/'),
    ensures
        text::cut_at(address_text(source, session), '/') == Some((source, session)),
{
    reveal_strlit("/");
    let a = address_text(source, session);
    let n = source.len() as int;
    assert forall|j: int| 0 <= j < n implies a[j] != '/' by {
        assert(source.contains(source[j]));
    }
    text::first_index_is(a, '/', n);
    assert(a.take(n) =~= source);
    assert(a.skip(n + 1) =~= session);
}

/// A machine's name that begins with `wsl.` holds the distribution behind it, and no other
/// name holds one.
pub proof fn distribution_stands_behind_the_prefix(name: Seq<char>)
    ensures
        wsl_distro_text("wsl."@ + name) == Some(name),
        wsl_distro_text(name) matches Some(d) ==> name == "wsl."@ + d,
{
    reveal_strlit("wsl.");
    let all = "wsl."@ + name;
    assert(all.take(4) =~= "wsl."@);
    assert(all.skip(4) =~= name);
    if let Some(d) = wsl_distro_text(name) {
        assert(name =~= "wsl."@ + d);
    }
}

/// A qualified id is the machine, a colon and the binary; the machine of an id is what
/// stands before its first colon, all of it where there is none.
pub proof fn ids_are_machine_and_binary(machine: Seq<char>, bin: Seq<char>)
    requires
        !machine.contains(':'),
    ensures
        source_id_text(machine, bin, true) == machine + ":"@ + bin,
        source_id_text(machine, bin, false) == machine,
        machine_text(machine) == machine,
        machine_text(machine + ":"@ + bin) == machine,
{
    id_keeps_the_machine(machine, bin, true);
    id_keeps_the_machine(machine, bin, false);
}

} // verus!
