//! Which machines are offered, and what offers each.
use crate::text;
use vstd::prelude::*;

verus! {

/// What puts a machine on the roster. It is shown, and decides nothing.
#[derive(Debug, Clone, Copy, PartialEq, Eq, Structural)]
pub enum Provider {
    /// An alias in `~/.ssh/config`.
    SshConfig,
    /// A machine that is reached in one hop and answers ssh.
    Neighbor,
    /// A peer on the tailnet.
    Tailscale,
    /// A WSL distribution on this machine.
    Wsl,
    /// An entry of the configuration, and nothing else.
    Config,
    /// This machine, which needs no one to offer it.
    Local,
}

/// What a provider is called: by the key that turns it off, where there is one.
pub open spec fn label_of(p: Provider) -> Seq<char> {
    match p {
        Provider::SshConfig => "ssh-config"@,
        Provider::Neighbor => "neighbors"@,
        Provider::Tailscale => "tailscale"@,
        Provider::Wsl => "wsl"@,
        Provider::Config => "config.toml"@,
        Provider::Local => "this box"@,
    }
}

impl Provider {
    /// What it is called on the screen.
    pub fn label(self) -> (s: &'static str)
        ensures
            s@ == label_of(self),
    {
        match self {
            Provider::SshConfig => "ssh-config",
            Provider::Neighbor => "neighbors",
            Provider::Tailscale => "tailscale",
            Provider::Wsl => "wsl",
            Provider::Config => "config.toml",
            Provider::Local => "this box",
        }
    }
}

/// Names with what offers them.
pub open spec fn offer_views(v: Seq<(String, Provider)>) -> Seq<(Seq<char>, Provider)> {
    v.map_values(|o: (String, Provider)| (o.0@, o.1))
}

/// Whether a name is offered.
pub open spec fn is_offered(v: Seq<(Seq<char>, Provider)>, name: Seq<char>) -> bool {
    exists|i: int| 0 <= i < v.len() && (#[trigger] v[i]).0 == name
}

/// What is offered once a provider has given its names: each that is not offered yet
/// comes behind the others.
pub open spec fn with_names(
    v: Seq<(Seq<char>, Provider)>,
    provider: Provider,
    names: Seq<Seq<char>>,
) -> Seq<(Seq<char>, Provider)>
    decreases names.len(),
{
    if names.len() == 0 {
        v
    } else {
        let rest = with_names(v, provider, names.drop_last());
        if is_offered(rest, names.last()) {
            rest
        } else {
            rest.push((names.last(), provider))
        }
    }
}

/// What the providers offer together, the first first.
pub open spec fn merged(lists: Seq<(Provider, Vec<String>)>) -> Seq<(Seq<char>, Provider)>
    decreases lists.len(),
{
    if lists.len() == 0 {
        Seq::empty()
    } else {
        with_names(merged(lists.drop_last()), lists.last().0, text::texts(lists.last().1@))
    }
}

fn has_offer(v: &Vec<(String, Provider)>, name: &str) -> (r: bool)
    ensures
        r == is_offered(offer_views(v@), name@),
{
    let ghost all = offer_views(v@);
    let mut i: usize = 0;
    while i < v.len()
        invariant
            i <= v@.len(),
            all == offer_views(v@),
            forall|j: int| 0 <= j < i ==> (#[trigger] all[j]).0 != name@,
        decreases v.len() - i,
    {
        proof {
            assert(all[i as int].0 == v@[i as int].0@);
        }
        if text::same(v[i].0.as_str(), name) {
            return true;
        }
        i += 1;
    }
    false
}

/// The machines that the providers offer, each once, where it came first and with what
/// offered it first. The order of the lists is that of precedence.
pub fn merge(lists: &[(Provider, Vec<String>)]) -> (out: Vec<(String, Provider)>)
    ensures
        offer_views(out@) == merged(lists@),
{
    let mut out: Vec<(String, Provider)> = Vec::new();
    let mut i: usize = 0;
    proof {
        assert(offer_views(out@) =~= merged(lists@.take(0)));
    }
    while i < lists.len()
        invariant
            i <= lists@.len(),
            offer_views(out@) == merged(lists@.take(i as int)),
        decreases lists.len() - i,
    {
        let provider = lists[i].0;
        let names = &lists[i].1;
        let ghost all = text::texts(names@);
        let ghost was = offer_views(out@);
        proof {
            let head = lists@.take(i + 1);
            assert(head.drop_last() =~= lists@.take(i as int));
            assert(head.last() == lists@[i as int]);
            assert(with_names(was, provider, all.take(0)) == was);
        }
        let mut j: usize = 0;
        while j < names.len()
            invariant
                j <= names@.len(),
                all == text::texts(names@),
                offer_views(out@) == with_names(was, provider, all.take(j as int)),
            decreases names.len() - j,
        {
            proof {
                let head = all.take(j + 1);
                assert(head.drop_last() =~= all.take(j as int));
                assert(head.last() == names@[j as int]@);
            }
            if !has_offer(&out, names[j].as_str()) {
                let ghost before = out@;
                let o = (names[j].clone(), provider);
                out.push(o);
                proof {
                    assert(offer_views(out@) =~= offer_views(before).push((o.0@, o.1)));
                }
            }
            j += 1;
        }
        proof {
            assert(all.take(j as int) =~= all);
        }
        i += 1;
    }
    proof {
        assert(lists@.take(i as int) =~= lists@);
    }
    out
}

/// The names of what is offered.
pub open spec fn names_of(v: Seq<(Seq<char>, Provider)>) -> Seq<Seq<char>> {
    v.map_values(|o: (Seq<char>, Provider)| o.0)
}

/// The names of what is offered.
pub fn names(v: &Vec<(String, Provider)>) -> (out: Vec<String>)
    ensures
        text::texts(out@) == names_of(offer_views(v@)),
{
    let mut out: Vec<String> = Vec::new();
    let mut i: usize = 0;
    while i < v.len()
        invariant
            i <= v@.len(),
            out@.len() == i,
            forall|j: int| 0 <= j < i ==> (#[trigger] out@[j])@ == v@[j].0@,
        decreases v.len() - i,
    {
        out.push(v[i].0.clone());
        i += 1;
    }
    proof {
        assert(text::texts(out@) =~= names_of(offer_views(v@)));
    }
    out
}

// ---------------------------------------------------------------------------
// Laws
// ---------------------------------------------------------------------------

/// Another provider moves nothing and takes nothing over: what was offered before it
/// stays, with what offered it.
pub proof fn first_offer_stays(
    v: Seq<(Seq<char>, Provider)>,
    provider: Provider,
    names: Seq<Seq<char>>,
)
    ensures
        with_names(v, provider, names).len() >= v.len(),
        with_names(v, provider, names).take(v.len() as int) == v,
    decreases names.len(),
{
    if names.len() == 0 {
        assert(v.take(v.len() as int) =~= v);
    } else {
        first_offer_stays(v, provider, names.drop_last());
        let rest = with_names(v, provider, names.drop_last());
        assert(with_names(v, provider, names).take(v.len() as int) =~= rest.take(v.len() as int));
    }
}

/// Whether no name is offered twice.
pub open spec fn each_once(v: Seq<(Seq<char>, Provider)>) -> bool {
    forall|i: int, j: int| 0 <= i < j < v.len() ==> (#[trigger] v[i]).0 != (#[trigger] v[j]).0
}

/// No name is offered twice, and every name that was given is offered.
pub proof fn offered_once(
    v: Seq<(Seq<char>, Provider)>,
    provider: Provider,
    names: Seq<Seq<char>>,
)
    requires
        each_once(v),
    ensures
        each_once(with_names(v, provider, names)),
        forall|k: int|
            0 <= k < names.len() ==> is_offered(
                with_names(v, provider, names),
                #[trigger] names[k],
            ),
    decreases names.len(),
{
    if names.len() > 0 {
        let t = names.drop_last();
        let rest = with_names(v, provider, t);
        offered_once(v, provider, t);
        let now = with_names(v, provider, names);
        assert forall|k: int| 0 <= k < names.len() implies is_offered(now, #[trigger] names[k]) by {
            if k < t.len() {
                assert(names[k] == t[k]);
                let i = choose|i: int| 0 <= i < rest.len() && (#[trigger] rest[i]).0 == t[k];
                assert(now[i].0 == names[k]);
            } else if !is_offered(rest, names.last()) {
                assert(now[rest.len() as int].0 == names[k]);
            }
        }
    }
}

/// Names are offered one by one, in order; one that is new comes behind, with its provider,
/// and one that is offered already changes nothing.
pub proof fn names_are_offered_one_by_one(
    v: Seq<(Seq<char>, Provider)>,
    provider: Provider,
    a: Seq<Seq<char>>,
    b: Seq<Seq<char>>,
    name: Seq<char>,
)
    ensures
        with_names(v, provider, a + b) == with_names(with_names(v, provider, a), provider, b),
        (forall|i: int| 0 <= i < v.len() ==> (#[trigger] v[i]).0 != name) ==> with_names(
            v,
            provider,
            seq![name],
        ) == v.push((name, provider)),
        (exists|i: int| 0 <= i < v.len() && (#[trigger] v[i]).0 == name) ==> with_names(
            v,
            provider,
            seq![name],
        ) == v,
    decreases b.len(),
{
    if b.len() == 0 {
        assert(a + b =~= a);
    } else {
        assert((a + b).drop_last() =~= a + b.drop_last());
        names_are_offered_one_by_one(v, provider, a, b.drop_last(), name);
    }
    reveal_with_fuel(with_names, 2);
    assert(seq![name].drop_last() =~= Seq::empty());
}

/// Providers offer one behind the other.
pub proof fn providers_offer_in_order(
    lists: Seq<(Provider, Vec<String>)>,
    p: Provider,
    names: Vec<String>,
    i: int,
)
    ensures
        merged(Seq::empty()).len() == 0,
        merged(lists.push((p, names))) == with_names(merged(lists), p, text::texts(names@)),
        names_of(merged(lists)).len() == merged(lists).len(),
        0 <= i < merged(lists).len() ==> names_of(merged(lists))[i] == merged(lists)[i].0,
{
    assert(lists.push((p, names)).drop_last() =~= lists);
}

/// Each provider is called by the key that turns it off, or by what it is.
pub proof fn providers_have_their_labels()
    ensures
        label_of(Provider::SshConfig) == "ssh-config"@,
        label_of(Provider::Neighbor) == "neighbors"@,
        label_of(Provider::Tailscale) == "tailscale"@,
        label_of(Provider::Wsl) == "wsl"@,
        label_of(Provider::Config) == "config.toml"@,
        label_of(Provider::Local) == "this box"@,
{
}

} // verus!
