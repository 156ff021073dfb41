//! The configuration, and the sources that it and the discovered machines make.
use crate::mux::{self, kind_called};
use crate::session::{
    self, source_id, source_id_text, wsl_distro_of, wsl_distro_text, LOCAL_SOURCE, WSL_PREFIX,
};
use crate::text;
use vstd::prelude::*;

verus! {

// ---------------------------------------------------------------------------
// Where the navigation stands
// ---------------------------------------------------------------------------

/// A side of the terminal view.
#[derive(Clone, Copy, Debug, PartialEq, Eq, Structural)]
pub enum NavPosition {
    Left,
    Top,
    Right,
    Bottom,
}

/// The side that a word names.
pub open spec fn position_named(word: Seq<char>) -> Option<NavPosition> {
    if word == "left"@ {
        Some(NavPosition::Left)
    } else if word == "top"@ {
        Some(NavPosition::Top)
    } else if word == "right"@ {
        Some(NavPosition::Right)
    } else if word == "bottom"@ {
        Some(NavPosition::Bottom)
    } else {
        None
    }
}

impl NavPosition {
    /// The side that a word names.
    pub fn parse(word: &str) -> (r: Option<NavPosition>)
        ensures
            r == position_named(word@),
    {
        if text::same(word, "left") {
            Some(NavPosition::Left)
        } else if text::same(word, "top") {
            Some(NavPosition::Top)
        } else if text::same(word, "right") {
            Some(NavPosition::Right)
        } else if text::same(word, "bottom") {
            Some(NavPosition::Bottom)
        } else {
            None
        }
    }
}

/// Where the navigation stands.
#[derive(Clone, Copy, Debug, PartialEq, Eq, Structural)]
pub struct NavPositionSetting {
    /// Whether the shape of the terminal decides.
    pub auto: bool,
    /// The side where the terminal is wide.
    pub wide: NavPosition,
    /// The side where it is narrow.
    pub narrow: NavPosition,
    /// The side that is forced, if one is.
    pub force: Option<NavPosition>,
}

impl Default for NavPositionSetting {
    fn default() -> (s: NavPositionSetting)
        ensures
            s == (NavPositionSetting {
                auto: true,
                wide: NavPosition::Left,
                narrow: NavPosition::Top,
                force: None,
            }),
    {
        NavPositionSetting {
            auto: true,
            wide: NavPosition::Left,
            narrow: NavPosition::Top,
            force: None,
        }
    }
}

// ---------------------------------------------------------------------------
// The configuration
// ---------------------------------------------------------------------------

/// The theme that is used unless another is named.
pub const AUTO_DARK: &'static str = "auto-dark";

/// The configuration. Everything in it is optional.
#[derive(Clone, Debug)]
pub struct Config {
    pub local: LocalConfig,
    pub hosts: Vec<HostConfig>,
    pub wsl: Vec<WslConfig>,
    pub exclude: Vec<String>,
    pub ui: UiConfig,
    pub discovery: DiscoveryConfig,
}

/// Which providers are asked for machines. Each is, unless it is turned off.
#[derive(Clone, Copy, Debug, PartialEq, Eq, Structural)]
pub struct DiscoveryConfig {
    /// The aliases in `~/.ssh/config`.
    pub ssh_config: bool,
    /// The peers on the tailnet.
    pub tailscale: bool,
    /// The WSL distributions.
    pub wsl: bool,
}

impl Default for DiscoveryConfig {
    fn default() -> (d: DiscoveryConfig)
        ensures
            d.ssh_config && d.tailscale && d.wsl,
    {
        DiscoveryConfig { ssh_config: true, tailscale: true, wsl: true }
    }
}

/// The mux of this machine.
#[derive(Clone, Debug)]
pub struct LocalConfig {
    pub mux: MuxSpec,
}

/// The mux of a machine: one, or several.
#[derive(Clone, Debug, PartialEq, Eq)]
pub enum MuxSpec {
    One(String),
    Many(Vec<String>),
}

/// The mux of a machine that is reached by ssh.
#[derive(Clone, Debug)]
pub struct HostConfig {
    pub ssh: String,
    pub mux: MuxSpec,
}

/// The mux of a WSL distribution, by the bare name of the distribution.
#[derive(Clone, Debug)]
pub struct WslConfig {
    pub distro: String,
    pub mux: MuxSpec,
}

/// One mux on one machine: the id that it goes by, the machine, and the binary.
#[derive(Clone, Debug, PartialEq, Eq)]
pub struct HostSpec {
    pub id: String,
    pub alias: String,
    pub bin: String,
}

/// A [`HostSpec`] with its texts as sequences.
pub struct SpecView {
    pub id: Seq<char>,
    pub alias: Seq<char>,
    pub bin: Seq<char>,
}

impl View for HostSpec {
    type V = SpecView;

    open spec fn view(&self) -> SpecView {
        SpecView { id: self.id@, alias: self.alias@, bin: self.bin@ }
    }
}

/// The views of a sequence of specs.
pub open spec fn spec_views(v: Seq<HostSpec>) -> Seq<SpecView> {
    v.map_values(|s: HostSpec| s@)
}

/// The texts that a value holds, as they were written.
pub open spec fn written(m: MuxSpec) -> Seq<Seq<char>> {
    match m {
        MuxSpec::One(s) => seq![s@],
        MuxSpec::Many(v) => text::texts(v@),
    }
}

/// The names among written texts: trimmed, without the empty ones, each once.
pub open spec fn names_in(raw: Seq<Seq<char>>) -> Seq<Seq<char>>
    decreases raw.len(),
{
    if raw.len() == 0 {
        Seq::empty()
    } else {
        let rest = names_in(raw.drop_last());
        let name = text::trimmed(raw.last());
        if name.len() == 0 || rest.contains(name) {
            rest
        } else {
            rest.push(name)
        }
    }
}

impl View for MuxSpec {
    type V = Seq<Seq<char>>;

    /// The names that the value asks for.
    open spec fn view(&self) -> Seq<Seq<char>> {
        names_in(written(*self))
    }
}

impl Default for MuxSpec {
    fn default() -> (m: MuxSpec)
        ensures
            m is One,
            written(m) == seq![Seq::<char>::empty()],
            m@ == Seq::<Seq<char>>::empty(),
    {
        let m = MuxSpec::One(String::new());
        proof {
            reveal_with_fuel(names_in, 2);
            assert(text::trim_left(m->One_0@) =~= Seq::empty());
            assert(written(m).drop_last() =~= Seq::empty());
        }
        m
    }
}

impl From<&str> for MuxSpec {
    /// One mux.
    fn from(name: &str) -> (m: MuxSpec)
        ensures
            m is One,
            written(m) == seq![name@],
    {
        MuxSpec::One(name.to_owned())
    }
}

/// The contract of `from` speaks of the text: which value holds it is left open.
impl vstd::std_specs::convert::FromSpecImpl<&str> for MuxSpec {
    open spec fn obeys_from_spec() -> bool {
        false
    }

    open spec fn from_spec(name: &str) -> MuxSpec {
        arbitrary()
    }
}

impl From<Vec<&str>> for MuxSpec {
    /// Several muxes.
    fn from(names: Vec<&str>) -> (m: MuxSpec)
        ensures
            m is Many,
            written(m) == text::strs(names@),
    {
        MuxSpec::Many(mux::vocab::argv(names.as_slice()))
    }
}

/// The contract of `from` speaks of the texts here too.
impl vstd::std_specs::convert::FromSpecImpl<Vec<&str>> for MuxSpec {
    open spec fn obeys_from_spec() -> bool {
        false
    }

    open spec fn from_spec(names: Vec<&str>) -> MuxSpec {
        arbitrary()
    }
}

/// Whether names leave the choice open: there are none, or `auto` is the only one.
pub open spec fn open_choice(names: Seq<Seq<char>>) -> bool {
    names.len() == 0 || (names.len() == 1 && names[0] == "auto"@)
}

impl MuxSpec {
    /// The names that the value asks for, in order.
    pub fn names(&self) -> (out: Vec<String>)
        ensures
            text::texts(out@) == self@,
    {
        match self {
            MuxSpec::One(s) => {
                let raw = vec![s.clone()];
                proof {
                    assert(text::texts(raw@) =~= seq![s@]);
                }
                names_of(&raw)
            },
            MuxSpec::Many(v) => names_of(v),
        }
    }

    /// Whether the value names no mux.
    pub fn is_unset(&self) -> (r: bool)
        ensures
            r == (self@.len() == 0),
    {
        let names = self.names();
        proof {
            assert(text::texts(names@).len() == names@.len());
        }
        names.len() == 0
    }

    /// Whether the value leaves the choice open. A list that names muxes never does,
    /// though `auto` be one of its entries.
    pub fn is_auto(&self) -> (r: bool)
        ensures
            r == open_choice(self@),
    {
        let names = self.names();
        proof {
            assert(text::texts(names@).len() == names@.len());
        }
        if names.len() == 0 {
            return true;
        }
        proof {
            assert(text::texts(names@)[0] == names@[0]@);
        }
        names.len() == 1 && text::same(names[0].as_str(), "auto")
    }
}

/// The names among written texts.
fn names_of(raw: &Vec<String>) -> (out: Vec<String>)
    ensures
        text::texts(out@) == names_in(text::texts(raw@)),
{
    let ghost all = text::texts(raw@);
    let mut out: Vec<String> = Vec::new();
    let mut i: usize = 0;
    proof {
        assert(text::texts(out@) =~= names_in(all.take(0)));
    }
    while i < raw.len()
        invariant
            i <= raw@.len(),
            all == text::texts(raw@),
            text::texts(out@) == names_in(all.take(i as int)),
        decreases raw.len() - i,
    {
        let ghost before = out@;
        let name = text::trim(raw[i].as_str());
        proof {
            let head = all.take(i + 1);
            assert(head.drop_last() =~= all.take(i as int));
            assert(head.last() == raw@[i as int]@);
        }
        if !name.as_str().is_empty() && !text::has_text(&out, name.as_str()) {
            out.push(name);
            proof {
                text::texts_push(before, name);
            }
        }
        i += 1;
    }
    proof {
        assert(all.take(i as int) =~= all);
    }
    out
}

/// How the interface looks. An empty text means that nothing was said.
#[derive(Clone, Debug)]
pub struct UiConfig {
    /// The name of the theme.
    pub theme: String,
    /// The prefix key.
    pub prefix: String,
    /// Whether the navigation hides at first while the terminal is focused.
    pub auto_hide_nav: bool,
    /// Whether the shape of the terminal decides where the navigation stands.
    pub auto_nav_position: bool,
    pub wide_nav_position: String,
    pub narrow_nav_position: String,
    pub force_nav_position: String,
    pub view_active_border_style: String,
    pub view_border_style: String,
    pub view_border_hover_style: String,
    pub hint_bar_style: String,
    pub selection_style: String,
    pub primary: String,
    pub secondary: String,
    pub accent: String,
    pub decoration: String,
    pub warning: String,
    pub error: String,
    pub disabled: String,
    pub bar_bg: String,
    pub bar_fg: String,
    pub bar_accent: String,
}

/// The interface where nothing is written of it.
pub open spec fn is_default_ui(u: UiConfig) -> bool {
    &&& u.theme@ == AUTO_DARK@
    &&& u.prefix@ == "C-g"@
    &&& !u.auto_hide_nav
    &&& u.auto_nav_position
    &&& u.wide_nav_position@ == "left"@
    &&& u.narrow_nav_position@ == "top"@
    &&& u.force_nav_position@.len() == 0
    &&& u.view_active_border_style@.len() == 0
    &&& u.view_border_style@.len() == 0
    &&& u.view_border_hover_style@.len() == 0
    &&& u.hint_bar_style@.len() == 0
    &&& u.selection_style@.len() == 0
    &&& u.primary@.len() == 0
    &&& u.secondary@.len() == 0
    &&& u.accent@.len() == 0
    &&& u.decoration@.len() == 0
    &&& u.warning@.len() == 0
    &&& u.error@.len() == 0
    &&& u.disabled@.len() == 0
    &&& u.bar_bg@.len() == 0
    &&& u.bar_fg@.len() == 0
    &&& u.bar_accent@.len() == 0
}

impl Default for UiConfig {
    fn default() -> (u: UiConfig)
        ensures
            is_default_ui(u),
    {
        UiConfig {
            theme: AUTO_DARK.to_owned(),
            prefix: "C-g".to_owned(),
            auto_hide_nav: false,
            auto_nav_position: true,
            wide_nav_position: "left".to_owned(),
            narrow_nav_position: "top".to_owned(),
            force_nav_position: String::new(),
            view_active_border_style: String::new(),
            view_border_style: String::new(),
            view_border_hover_style: String::new(),
            hint_bar_style: String::new(),
            selection_style: String::new(),
            primary: String::new(),
            secondary: String::new(),
            accent: String::new(),
            decoration: String::new(),
            warning: String::new(),
            error: String::new(),
            disabled: String::new(),
            bar_bg: String::new(),
            bar_fg: String::new(),
            bar_accent: String::new(),
        }
    }
}

impl UiConfig {
    /// Where the navigation stands. A word that names no side counts as unwritten.
    pub fn nav_position_setting(&self) -> (s: NavPositionSetting)
        ensures
            s == (NavPositionSetting {
                auto: self.auto_nav_position,
                wide: match position_named(self.wide_nav_position@) {
                    Some(p) => p,
                    None => NavPosition::Left,
                },
                narrow: match position_named(self.narrow_nav_position@) {
                    Some(p) => p,
                    None => NavPosition::Top,
                },
                force: position_named(self.force_nav_position@),
            }),
    {
        let fallback = NavPositionSetting::default();
        NavPositionSetting {
            auto: self.auto_nav_position,
            wide: match NavPosition::parse(self.wide_nav_position.as_str()) {
                Some(p) => p,
                None => fallback.wide,
            },
            narrow: match NavPosition::parse(self.narrow_nav_position.as_str()) {
                Some(p) => p,
                None => fallback.narrow,
            },
            force: NavPosition::parse(self.force_nav_position.as_str()),
        }
    }
}

/// The configuration where nothing is written.
pub open spec fn is_default_config(c: Config) -> bool {
    &&& c.local.mux is One
    &&& written(c.local.mux) == seq![Seq::<char>::empty()]
    &&& c.local.mux@.len() == 0
    &&& c.hosts@.len() == 0
    &&& c.wsl@.len() == 0
    &&& c.exclude@.len() == 0
    &&& is_default_ui(c.ui)
    &&& c.discovery.ssh_config && c.discovery.tailscale && c.discovery.wsl
}

impl Default for Config {
    fn default() -> (c: Config)
        ensures
            is_default_config(c),
    {
        Config {
            local: LocalConfig { mux: MuxSpec::default() },
            hosts: Vec::new(),
            wsl: Vec::new(),
            exclude: Vec::new(),
            ui: UiConfig::default(),
            discovery: DiscoveryConfig::default(),
        }
    }
}

// ---------------------------------------------------------------------------
// The machines that are configured
// ---------------------------------------------------------------------------

/// A machine, and the names of the muxes that are written for it.
pub struct Entry {
    pub machine: String,
    pub names: Vec<String>,
}

/// An [`Entry`] with its texts as sequences.
pub struct EntryView {
    pub machine: Seq<char>,
    pub names: Seq<Seq<char>>,
}

impl View for Entry {
    type V = EntryView;

    open spec fn view(&self) -> EntryView {
        EntryView { machine: self.machine@, names: text::texts(self.names@) }
    }
}

/// The views of a sequence of entries.
pub open spec fn entry_views(v: Seq<Entry>) -> Seq<EntryView> {
    v.map_values(|e: Entry| e@)
}

/// The machines that are reached by ssh, as they are written.
pub open spec fn host_entries(hosts: Seq<HostConfig>) -> Seq<EntryView> {
    hosts.map_values(|h: HostConfig| EntryView { machine: h.ssh@, names: h.mux@ })
}

/// The machine of a distribution. An empty name stays empty.
pub open spec fn distro_machine(distro: Seq<char>) -> Seq<char> {
    if distro.len() == 0 {
        Seq::empty()
    } else {
        WSL_PREFIX@ + distro
    }
}

/// The WSL distributions, as machines.
pub open spec fn wsl_entries(wsl: Seq<WslConfig>) -> Seq<EntryView> {
    wsl.map_values(
        |w: WslConfig| EntryView { machine: distro_machine(w.distro@), names: w.mux@ },
    )
}

/// Whether an ssh alias claims a name that is another machine's: that of this one, or
/// of a WSL distribution.
pub open spec fn reserved(machine: Seq<char>) -> bool {
    machine == LOCAL_SOURCE@ || wsl_distro_text(machine) is Some
}

/// Whether an ssh alias claims a name that is another machine's.
pub fn is_reserved_alias(machine: &str) -> (r: bool)
    ensures
        r == reserved(machine@),
{
    text::same(machine, LOCAL_SOURCE) || wsl_distro_of(machine).is_some()
}

/// Whether a machine is left out.
pub open spec fn left_out(machine: Seq<char>, excluded: Seq<Seq<char>>, by_ssh: bool) -> bool {
    (by_ssh && reserved(machine)) || excluded.contains(machine)
}

/// The names that the first entry of a machine holds that names a mux.
pub open spec fn override_of(c: Seq<EntryView>, machine: Seq<char>) -> Option<Seq<Seq<char>>>
    decreases c.len(),
{
    if c.len() == 0 || machine.len() == 0 {
        None
    } else if c[0].machine == machine && c[0].names.len() > 0 {
        Some(c[0].names)
    } else {
        override_of(c.drop_first(), machine)
    }
}

/// The muxes of a machine: those that are written for it, or tmux.
pub open spec fn muxes_of(c: Seq<EntryView>, machine: Seq<char>) -> Seq<Seq<char>> {
    match override_of(c, machine) {
        Some(names) => names,
        None => seq!["tmux"@],
    }
}

/// The muxes of an entry, or tmux.
pub open spec fn own_muxes(e: EntryView) -> Seq<Seq<char>> {
    if e.names.len() == 0 {
        seq!["tmux"@]
    } else {
        e.names
    }
}

/// The names that some mux has, in order.
pub open spec fn recognized(names: Seq<Seq<char>>) -> Seq<Seq<char>>
    decreases names.len(),
{
    if names.len() == 0 {
        Seq::empty()
    } else if kind_called(names.last()) is Some {
        recognized(names.drop_last()).push(names.last())
    } else {
        recognized(names.drop_last())
    }
}

/// One spec for each mux of a machine. The id names the mux only where there are
/// several. A name that no mux has makes none.
pub open spec fn specs_for(machine: Seq<char>, muxes: Seq<Seq<char>>) -> Seq<SpecView> {
    let bins = recognized(muxes);
    bins.map_values(
        |bin: Seq<char>|
            SpecView {
                id: source_id_text(machine, bin, bins.len() > 1),
                alias: machine,
                bin,
            },
    )
}

/// The specs of the machines that were discovered, each once, in order.
pub open spec fn discovered_specs(
    d: Seq<Seq<char>>,
    c: Seq<EntryView>,
    excluded: Seq<Seq<char>>,
    by_ssh: bool,
) -> Seq<SpecView>
    decreases d.len(),
{
    if d.len() == 0 {
        Seq::empty()
    } else {
        let rest = discovered_specs(d.drop_last(), c, excluded, by_ssh);
        if left_out(d.last(), excluded, by_ssh) || d.drop_last().contains(d.last()) {
            rest
        } else {
            rest + specs_for(d.last(), muxes_of(c, d.last()))
        }
    }
}

/// Whether an entry of this machine is among `c`.
pub open spec fn has_entry(c: Seq<EntryView>, machine: Seq<char>) -> bool {
    exists|i: int| 0 <= i < c.len() && (#[trigger] c[i]).machine == machine
}

/// The specs of the machines that are configured and were not discovered, each once, in
/// order.
pub open spec fn configured_specs(
    d: Seq<Seq<char>>,
    c: Seq<EntryView>,
    excluded: Seq<Seq<char>>,
    by_ssh: bool,
) -> Seq<SpecView>
    decreases c.len(),
{
    if c.len() == 0 {
        Seq::empty()
    } else {
        let rest = configured_specs(d, c.drop_last(), excluded, by_ssh);
        let m = c.last().machine;
        if m.len() == 0 || left_out(m, excluded, by_ssh) || d.contains(m) || has_entry(
            c.drop_last(),
            m,
        ) {
            rest
        } else {
            rest + specs_for(m, own_muxes(c.last()))
        }
    }
}

/// The machines that were discovered, and behind them those that only the configuration
/// names.
pub open spec fn merged_specs(
    d: Seq<Seq<char>>,
    c: Seq<EntryView>,
    excluded: Seq<Seq<char>>,
    by_ssh: bool,
) -> Seq<SpecView> {
    discovered_specs(d, c, excluded, by_ssh) + configured_specs(d, c, excluded, by_ssh)
}

/// Whether one of the first `n` texts is `s`.
fn among(v: &[String], n: usize, s: &str) -> (r: bool)
    requires
        n <= v@.len(),
    ensures
        r == text::texts(v@).take(n as int).contains(s@),
{
    let ghost head = text::texts(v@).take(n as int);
    let mut i: usize = 0;
    while i < n
        invariant
            i <= n <= v@.len(),
            head == text::texts(v@).take(n as int),
            forall|j: int| 0 <= j < i ==> #[trigger] head[j] != s@,
        decreases n - i,
    {
        if text::same(v[i].as_str(), s) {
            proof {
                assert(head[i as int] == s@);
            }
            return true;
        }
        proof {
            assert(head[i as int] == v@[i as int]@);
        }
        i += 1;
    }
    false
}

/// Whether a machine is left out.
fn is_left_out(machine: &str, excluded: &Vec<String>, by_ssh: bool) -> (r: bool)
    ensures
        r == left_out(machine@, text::texts(excluded@), by_ssh),
{
    (by_ssh && is_reserved_alias(machine)) || text::has_text(excluded, machine)
}

/// The muxes of a machine that was discovered.
fn find_muxes(c: &Vec<Entry>, machine: &str) -> (out: Vec<String>)
    ensures
        text::texts(out@) == muxes_of(entry_views(c@), machine@),
{
    let ghost all = entry_views(c@);
    if !machine.is_empty() {
        let mut i: usize = 0;
        proof {
            assert(all.skip(0) =~= all);
        }
        while i < c.len()
            invariant
                i <= c@.len(),
                machine@.len() > 0,
                all == entry_views(c@),
                override_of(all, machine@) == override_of(all.skip(i as int), machine@),
            decreases c.len() - i,
        {
            proof {
                assert(all.skip(i as int)[0] == c@[i as int]@);
                assert(all.skip(i as int).drop_first() =~= all.skip(i + 1));
                assert(c@[i as int]@.names.len() == c@[i as int].names@.len());
            }
            if text::same(c[i].machine.as_str(), machine) && c[i].names.len() > 0 {
                return text::clone_texts(&c[i].names);
            }
            i += 1;
        }
    }
    let out = vec!["tmux".to_owned()];
    proof {
        assert(text::texts(out@) =~= seq!["tmux"@]);
    }
    out
}

/// The names that some mux has.
fn keep_recognized(names: &Vec<String>) -> (out: Vec<String>)
    ensures
        text::texts(out@) == recognized(text::texts(names@)),
{
    let ghost all = text::texts(names@);
    let mut out: Vec<String> = Vec::new();
    let mut i: usize = 0;
    proof {
        assert(text::texts(out@) =~= recognized(all.take(0)));
    }
    while i < names.len()
        invariant
            i <= names@.len(),
            all == text::texts(names@),
            text::texts(out@) == recognized(all.take(i as int)),
        decreases names.len() - i,
    {
        let ghost before = out@;
        proof {
            let head = all.take(i + 1);
            assert(head.drop_last() =~= all.take(i as int));
            assert(head.last() == names@[i as int]@);
        }
        if mux::is_recognized(names[i].as_str()) {
            out.push(names[i].clone());
            proof {
                text::texts_push(before, out@.last());
            }
        }
        i += 1;
    }
    proof {
        assert(all.take(i as int) =~= all);
    }
    out
}

/// Appends one spec for each mux of a machine.
fn host_specs_for(specs: &mut Vec<HostSpec>, machine: &str, muxes: &Vec<String>)
    ensures
        spec_views(final(specs)@) == spec_views(old(specs)@) + specs_for(
            machine@,
            text::texts(muxes@),
        ),
{
    let bins = keep_recognized(muxes);
    let ghost goal = specs_for(machine@, text::texts(muxes@));
    let ghost was = spec_views(specs@);
    let qualified = bins.len() > 1;
    let mut i: usize = 0;
    proof {
        assert(was + goal.take(0) =~= was);
        assert(text::texts(bins@).len() == bins@.len());
    }
    while i < bins.len()
        invariant
            i <= bins@.len(),
            text::texts(bins@) == recognized(text::texts(muxes@)),
            goal == specs_for(machine@, text::texts(muxes@)),
            goal.len() == bins@.len(),
            qualified == (bins@.len() > 1),
            spec_views(specs@) == was + goal.take(i as int),
        decreases bins.len() - i,
    {
        let ghost before = specs@;
        let s = HostSpec {
            id: source_id(machine, bins[i].as_str(), qualified),
            alias: machine.to_owned(),
            bin: bins[i].clone(),
        };
        specs.push(s);
        proof {
            assert(text::texts(bins@)[i as int] == bins@[i as int]@);
            assert(s@ == goal[i as int]);
            assert(spec_views(specs@) =~= spec_views(before).push(s@));
            assert(goal.take(i + 1) =~= goal.take(i as int).push(goal[i as int]));
            assert(spec_views(specs@) =~= was + goal.take(i + 1));
        }
        i += 1;
    }
    proof {
        assert(goal.take(i as int) =~= goal);
    }
}

/// Whether one of the first `n` entries is that of `machine`.
fn entered(c: &Vec<Entry>, n: usize, machine: &str) -> (r: bool)
    requires
        n <= c@.len(),
    ensures
        r == has_entry(entry_views(c@).take(n as int), machine@),
{
    let ghost head = entry_views(c@).take(n as int);
    let mut i: usize = 0;
    while i < n
        invariant
            i <= n <= c@.len(),
            head == entry_views(c@).take(n as int),
            forall|j: int| 0 <= j < i ==> (#[trigger] head[j]).machine != machine@,
        decreases n - i,
    {
        proof {
            assert(head[i as int] == c@[i as int]@);
        }
        if text::same(c[i].machine.as_str(), machine) {
            return true;
        }
        i += 1;
    }
    false
}

/// Merges the machines that were discovered with those that are configured. Discovery
/// is added to, and never replaced; a machine that is left out, or that came before, is
/// passed over.
pub fn merge_specs(
    discovered: &[String],
    configured: &Vec<Entry>,
    excluded: &Vec<String>,
    by_ssh: bool,
) -> (specs: Vec<HostSpec>)
    ensures
        spec_views(specs@) == merged_specs(
            text::texts(discovered@),
            entry_views(configured@),
            text::texts(excluded@),
            by_ssh,
        ),
{
    let ghost d = text::texts(discovered@);
    let ghost c = entry_views(configured@);
    let ghost x = text::texts(excluded@);
    let mut specs: Vec<HostSpec> = Vec::new();
    let mut i: usize = 0;
    proof {
        assert(spec_views(specs@) =~= discovered_specs(d.take(0), c, x, by_ssh));
    }
    while i < discovered.len()
        invariant
            i <= discovered@.len(),
            d == text::texts(discovered@),
            c == entry_views(configured@),
            x == text::texts(excluded@),
            spec_views(specs@) == discovered_specs(d.take(i as int), c, x, by_ssh),
        decreases discovered.len() - i,
    {
        let machine = discovered[i].as_str();
        proof {
            let head = d.take(i + 1);
            assert(head.drop_last() =~= d.take(i as int));
            assert(head.last() == machine@);
        }
        if !is_left_out(machine, excluded, by_ssh) && !among(discovered, i, machine) {
            let muxes = find_muxes(configured, machine);
            host_specs_for(&mut specs, machine, &muxes);
        }
        i += 1;
    }
    let ghost first = discovered_specs(d, c, x, by_ssh);
    proof {
        assert(d.take(i as int) =~= d);
        assert(spec_views(specs@) =~= first + configured_specs(d, c.take(0), x, by_ssh));
    }
    let mut k: usize = 0;
    while k < configured.len()
        invariant
            k <= configured@.len(),
            d == text::texts(discovered@),
            c == entry_views(configured@),
            x == text::texts(excluded@),
            spec_views(specs@) == first + configured_specs(d, c.take(k as int), x, by_ssh),
        decreases configured.len() - k,
    {
        let machine = configured[k].machine.as_str();
        let n: usize = discovered.len();
        proof {
            let head = c.take(k + 1);
            assert(head.drop_last() =~= c.take(k as int));
            assert(head.last() == configured@[k as int]@);
            assert(d.take(n as int) =~= d);
        }
        if !machine.is_empty() && !is_left_out(machine, excluded, by_ssh) && !among(
            discovered,
            n,
            machine,
        ) && !entered(configured, k, machine) {
            let muxes = if configured[k].names.len() == 0 {
                let v = vec!["tmux".to_owned()];
                proof {
                    assert(text::texts(v@) =~= seq!["tmux"@]);
                }
                v
            } else {
                text::clone_texts(&configured[k].names)
            };
            let ghost before = spec_views(specs@);
            host_specs_for(&mut specs, machine, &muxes);
            proof {
                assert(text::texts(configured@[k as int].names@).len()
                    == configured@[k as int].names@.len());
                let own = specs_for(machine@, own_muxes(configured@[k as int]@));
                assert(spec_views(specs@) =~= first + (configured_specs(
                    d,
                    c.take(k as int),
                    x,
                    by_ssh,
                ) + own));
            }
        }
        k += 1;
    }
    proof {
        assert(c.take(k as int) =~= c);
    }
    specs
}

// ---------------------------------------------------------------------------
// What a configuration says
// ---------------------------------------------------------------------------

/// The mux that a machine with this system has by convention.
pub open spec fn conventional_mux(os: Seq<char>) -> Seq<char> {
    if os == "windows"@ {
        "psmux"@
    } else {
        "tmux"@
    }
}

/// The mux that a machine with this system has by convention.
pub fn conventional(os: &str) -> (m: &'static str)
    ensures
        m@ == conventional_mux(os@),
{
    if text::same(os, "windows") {
        "psmux"
    } else {
        "tmux"
    }
}

/// The muxes of this machine: those that are written and known, or, where the choice is
/// open, those that are installed, the conventional one in front.
pub open spec fn local_muxes_of(
    names: Seq<Seq<char>>,
    os: Seq<char>,
    installed: Seq<Seq<char>>,
) -> Seq<Seq<char>> {
    let first = conventional_mux(os);
    if !open_choice(names) {
        recognized(names)
    } else if installed.contains(first) {
        seq![first] + text::without(installed, first)
    } else {
        text::without(installed, first)
    }
}

/// The warning about a mux that no one knows, with what it is written for and its name
/// in quotes.
pub open spec fn warning_text(whose: Seq<char>, quoted: Seq<char>) -> Seq<char> {
    whose + "mux "@ + quoted
        + " is not a recognized mux (tmux/psmux/zellij/abduco/screen); no source is created for it"@
}

/// The warning about a mux that no one knows.
pub fn mux_warning(whose: &str, quoted: &str) -> (s: String)
    ensures
        s@ == warning_text(whose@, quoted@),
{
    let mut s = whose.to_owned();
    s.append("mux ");
    s.append(quoted);
    s.append(
        " is not a recognized mux (tmux/psmux/zellij/abduco/screen); no source is created for it",
    );
    s
}

/// The warning about a key that the configuration does not have, with its path in quotes.
pub open spec fn unknown_key_text(quoted: Seq<char>) -> Seq<char> {
    "unknown key "@ + quoted
}

/// The warning about a key that the configuration does not have, with its path in quotes.
pub fn unknown_key(quoted: &str) -> (s: String)
    ensures
        s@ == unknown_key_text(quoted@),
{
    let mut s = "unknown key ".to_owned();
    s.append(quoted);
    s
}

/// The warning about a key that the configuration does not have, at this path.
pub fn unknown_key_warning(path: &str) -> (s: String)
    ensures
        s@ == unknown_key_text(text::debug_quoted(path@)),
{
    unknown_key(text::to_debug_quoted(path).as_str())
}

/// The warnings about the names that are written for something. The name `auto` leaves
/// the choice open, and is none to warn of.
pub open spec fn warnings_for(whose: Seq<char>, names: Seq<Seq<char>>) -> Seq<Seq<char>>
    decreases names.len(),
{
    if names.len() == 0 {
        Seq::empty()
    } else {
        let rest = warnings_for(whose, names.drop_last());
        if names.last() != "auto"@ && kind_called(names.last()) is None {
            rest.push(warning_text(whose, text::debug_quoted(names.last())))
        } else {
            rest
        }
    }
}

/// Appends the warnings about the names that are written for something.
fn push_warnings(out: &mut Vec<String>, whose: &str, names: &Vec<String>)
    ensures
        text::texts(final(out)@) == text::texts(old(out)@) + warnings_for(
            whose@,
            text::texts(names@),
        ),
{
    let ghost all = text::texts(names@);
    let ghost was = text::texts(out@);
    let mut i: usize = 0;
    proof {
        assert(was + warnings_for(whose@, all.take(0)) =~= was);
    }
    while i < names.len()
        invariant
            i <= names@.len(),
            all == text::texts(names@),
            text::texts(out@) == was + warnings_for(whose@, all.take(i as int)),
        decreases names.len() - i,
    {
        let ghost before = out@;
        proof {
            let head = all.take(i + 1);
            assert(head.drop_last() =~= all.take(i as int));
            assert(head.last() == names@[i as int]@);
        }
        if !text::same(names[i].as_str(), "auto") && !mux::is_recognized(names[i].as_str()) {
            let quoted = text::to_debug_quoted(names[i].as_str());
            out.push(mux_warning(whose, quoted.as_str()));
            proof {
                text::texts_push(before, out@.last());
                assert(text::texts(out@) =~= was + warnings_for(whose@, all.take(i + 1)));
            }
        }
        i += 1;
    }
    proof {
        assert(all.take(i as int) =~= all);
    }
}

/// The warnings about the machines that are reached by ssh.
pub open spec fn host_warnings(hosts: Seq<HostConfig>) -> Seq<Seq<char>>
    decreases hosts.len(),
{
    if hosts.len() == 0 {
        Seq::empty()
    } else {
        let h = hosts.last();
        host_warnings(hosts.drop_last()) + warnings_for(
            "host "@ + text::debug_quoted(h.ssh@) + " "@,
            h.mux@,
        )
    }
}

/// The warnings about the WSL distributions.
pub open spec fn wsl_warnings(wsl: Seq<WslConfig>) -> Seq<Seq<char>>
    decreases wsl.len(),
{
    if wsl.len() == 0 {
        Seq::empty()
    } else {
        let w = wsl.last();
        wsl_warnings(wsl.drop_last()) + warnings_for(
            "wsl "@ + text::debug_quoted(w.distro@) + " "@,
            w.mux@,
        )
    }
}

/// Whether the muxes of a machine are left open by the first entry that it has.
pub open spec fn entry_is_open(c: Seq<EntryView>, machine: Seq<char>) -> bool
    decreases c.len(),
{
    if c.len() == 0 {
        true
    } else if c[0].machine == machine {
        open_choice(c[0].names)
    } else {
        entry_is_open(c.drop_first(), machine)
    }
}

/// The WSL distributions by their bare names.
pub open spec fn distro_entries(wsl: Seq<WslConfig>) -> Seq<EntryView> {
    wsl.map_values(|w: WslConfig| EntryView { machine: w.distro@, names: w.mux@ })
}

impl Config {
    /// The muxes of this machine, in order. A written name is taken as it stands, though
    /// it is not installed; one that no mux has is dropped. Where the choice is open,
    /// this machine has what is installed on it, and nothing where nothing is.
    pub fn local_muxes(&self, os: &str, installed: &[String]) -> (out: Vec<String>)
        ensures
            text::texts(out@) == local_muxes_of(
                self.local.mux@,
                os@,
                text::texts(installed@),
            ),
    {
        if !self.local.mux.is_auto() {
            let names = self.local.mux.names();
            return keep_recognized(&names);
        }
        let first = conventional(os);
        let ghost all = text::texts(installed@);
        let mut out: Vec<String> = Vec::new();
        let n: usize = installed.len();
        proof {
            assert(all.take(n as int) =~= all);
        }
        if among(installed, n, first) {
            out.push(first.to_owned());
            proof {
                assert(text::texts(out@) =~= seq![first@]);
            }
        } else {
            proof {
                assert(text::texts(out@) =~= Seq::empty());
            }
        }
        let ghost lead = text::texts(out@);
        let mut i: usize = 0;
        proof {
            assert(lead + text::without(all.take(0), first@) =~= lead);
        }
        while i < installed.len()
            invariant
                i <= installed@.len(),
                all == text::texts(installed@),
                text::texts(out@) == lead + text::without(all.take(i as int), first@),
            decreases installed.len() - i,
        {
            let ghost before = out@;
            proof {
                let head = all.take(i + 1);
                assert(head.drop_last() =~= all.take(i as int));
                assert(head.last() == installed@[i as int]@);
            }
            if !text::same(installed[i].as_str(), first) {
                out.push(installed[i].clone());
                proof {
                    text::texts_push(before, out@.last());
                    assert(text::texts(out@) =~= lead + text::without(all.take(i + 1), first@));
                }
            }
            i += 1;
        }
        proof {
            assert(all.take(i as int) =~= all);
            assert(Seq::<Seq<char>>::empty() + text::without(all, first@) =~= text::without(all, first@));
        }
        out
    }

    /// The binary of the mux that this machine is served by, where one is known without
    /// asking it: the first that is written, or the conventional one.
    pub fn local_bin(&self, os: &str) -> (b: Option<String>)
        ensures
            ({
                let muxes = local_muxes_of(self.local.mux@, os@, seq![conventional_mux(os@)]);
                match b {
                    Some(s) => muxes.len() > 0 && s@ == muxes[0],
                    None => muxes.len() == 0,
                }
            }),
    {
        let installed = vec![conventional(os).to_owned()];
        proof {
            assert(text::texts(installed@) =~= seq![conventional_mux(os@)]);
        }
        let muxes = self.local_muxes(os, installed.as_slice());
        proof {
            assert(text::texts(muxes@).len() == muxes@.len());
        }
        if muxes.len() == 0 {
            None
        } else {
            proof {
                assert(text::texts(muxes@)[0] == muxes@[0]@);
            }
            Some(muxes[0].clone())
        }
    }

    /// Warnings about names that no mux has, which make no source.
    pub fn value_warnings(&self) -> (out: Vec<String>)
        ensures
            text::texts(out@) == warnings_for("local "@, self.local.mux@) + host_warnings(
                self.hosts@,
            ) + wsl_warnings(self.wsl@),
    {
        let mut out: Vec<String> = Vec::new();
        let names = self.local.mux.names();
        proof {
            assert(text::texts(out@) =~= Seq::empty());
        }
        push_warnings(&mut out, "local ", &names);
        let ghost first = warnings_for("local "@, self.local.mux@);
        let mut i: usize = 0;
        proof {
            assert(text::texts(out@) =~= first + host_warnings(self.hosts@.take(0)));
        }
        while i < self.hosts.len()
            invariant
                i <= self.hosts@.len(),
                text::texts(out@) == first + host_warnings(self.hosts@.take(i as int)),
            decreases self.hosts.len() - i,
        {
            let mut whose = "host ".to_owned();
            whose.append(text::to_debug_quoted(self.hosts[i].ssh.as_str()).as_str());
            whose.append(" ");
            let names = self.hosts[i].mux.names();
            let ghost before = text::texts(out@);
            push_warnings(&mut out, whose.as_str(), &names);
            proof {
                let head = self.hosts@.take(i + 1);
                assert(head.drop_last() =~= self.hosts@.take(i as int));
                assert(text::texts(out@) =~= first + host_warnings(head));
            }
            i += 1;
        }
        proof {
            assert(self.hosts@.take(i as int) =~= self.hosts@);
        }
        let ghost second = first + host_warnings(self.hosts@);
        let mut k: usize = 0;
        proof {
            assert(text::texts(out@) =~= second + wsl_warnings(self.wsl@.take(0)));
        }
        while k < self.wsl.len()
            invariant
                k <= self.wsl@.len(),
                text::texts(out@) == second + wsl_warnings(self.wsl@.take(k as int)),
            decreases self.wsl.len() - k,
        {
            let mut whose = "wsl ".to_owned();
            whose.append(text::to_debug_quoted(self.wsl[k].distro.as_str()).as_str());
            whose.append(" ");
            let names = self.wsl[k].mux.names();
            push_warnings(&mut out, whose.as_str(), &names);
            proof {
                let head = self.wsl@.take(k + 1);
                assert(head.drop_last() =~= self.wsl@.take(k as int));
                assert(text::texts(out@) =~= second + wsl_warnings(head));
            }
            k += 1;
        }
        proof {
            assert(self.wsl@.take(k as int) =~= self.wsl@);
        }
        out
    }

    /// Whether the muxes of `machine` are xmux's to find out. One that names its muxes is
    /// not asked, and one that is not written down is.
    pub fn mux_is_auto(&self, machine: &str) -> (r: bool)
        ensures
            r == if machine@ == LOCAL_SOURCE@ {
                open_choice(self.local.mux@)
            } else {
                match wsl_distro_text(machine@) {
                    Some(distro) => entry_is_open(distro_entries(self.wsl@), distro),
                    None => entry_is_open(host_entries(self.hosts@), machine@),
                }
            },
    {
        if text::same(machine, LOCAL_SOURCE) {
            return self.local.mux.is_auto();
        }
        match wsl_distro_of(machine) {
            Some(distro) => {
                let ghost all = distro_entries(self.wsl@);
                let mut i: usize = 0;
                proof {
                    assert(all.skip(0) =~= all);
                }
                while i < self.wsl.len()
                    invariant
                        i <= self.wsl@.len(),
                        all == distro_entries(self.wsl@),
                        machine@ != LOCAL_SOURCE@,
                        wsl_distro_text(machine@) == Some(distro@),
                        entry_is_open(all, distro@) == entry_is_open(all.skip(i as int), distro@),
                    decreases self.wsl.len() - i,
                {
                    proof {
                        assert(all.skip(i as int)[0] == all[i as int]);
                        assert(all.skip(i as int).drop_first() =~= all.skip(i + 1));
                    }
                    if text::same(self.wsl[i].distro.as_str(), distro) {
                        return self.wsl[i].mux.is_auto();
                    }
                    i += 1;
                }
                true
            },
            None => {
                let ghost all = host_entries(self.hosts@);
                let mut i: usize = 0;
                proof {
                    assert(all.skip(0) =~= all);
                }
                while i < self.hosts.len()
                    invariant
                        i <= self.hosts@.len(),
                        all == host_entries(self.hosts@),
                        machine@ != LOCAL_SOURCE@,
                        wsl_distro_text(machine@) is None,
                        entry_is_open(all, machine@) == entry_is_open(
                            all.skip(i as int),
                            machine@,
                        ),
                    decreases self.hosts.len() - i,
                {
                    proof {
                        assert(all.skip(i as int)[0] == all[i as int]);
                        assert(all.skip(i as int).drop_first() =~= all.skip(i + 1));
                    }
                    if text::same(self.hosts[i].ssh.as_str(), machine) {
                        return self.hosts[i].mux.is_auto();
                    }
                    i += 1;
                }
                true
            },
        }
    }

    /// The prefix key.
    pub fn ui_prefix(&self) -> (p: &str)
        ensures
            p@ == self.ui.prefix@,
    {
        self.ui.prefix.as_str()
    }

    /// Whether the navigation hides at first while the terminal is focused.
    pub fn ui_auto_hide_nav(&self) -> (r: bool)
        ensures
            r == self.ui.auto_hide_nav,
    {
        self.ui.auto_hide_nav
    }

    /// The sources on machines that are reached by ssh.
    pub fn host_specs(&self, ssh_aliases: &[String]) -> (specs: Vec<HostSpec>)
        ensures
            spec_views(specs@) == merged_specs(
                text::texts(ssh_aliases@),
                host_entries(self.hosts@),
                text::texts(self.exclude@),
                true,
            ),
    {
        let mut entries: Vec<Entry> = Vec::new();
        let mut i: usize = 0;
        while i < self.hosts.len()
            invariant
                i <= self.hosts@.len(),
                entries@.len() == i,
                forall|j: int|
                    0 <= j < i ==> (#[trigger] entries@[j])@ == host_entries(self.hosts@)[j],
            decreases self.hosts.len() - i,
        {
            let h = &self.hosts[i];
            entries.push(Entry { machine: h.ssh.clone(), names: h.mux.names() });
            i += 1;
        }
        proof {
            assert(entry_views(entries@) =~= host_entries(self.hosts@));
        }
        merge_specs(ssh_aliases, &entries, &self.exclude, true)
    }

    /// The sources on WSL distributions. The machines that were listed carry the prefix;
    /// an entry names its distribution without it.
    pub fn wsl_specs(&self, distro_machines: &[String]) -> (specs: Vec<HostSpec>)
        ensures
            spec_views(specs@) == merged_specs(
                text::texts(distro_machines@),
                wsl_entries(self.wsl@),
                text::texts(self.exclude@),
                false,
            ),
    {
        let mut entries: Vec<Entry> = Vec::new();
        let mut i: usize = 0;
        while i < self.wsl.len()
            invariant
                i <= self.wsl@.len(),
                entries@.len() == i,
                forall|j: int|
                    0 <= j < i ==> (#[trigger] entries@[j])@ == wsl_entries(self.wsl@)[j],
            decreases self.wsl.len() - i,
        {
            let w = &self.wsl[i];
            entries.push(Entry { machine: wsl_machine(w.distro.as_str()), names: w.mux.names() });
            i += 1;
        }
        proof {
            assert(entry_views(entries@) =~= wsl_entries(self.wsl@));
        }
        merge_specs(distro_machines, &entries, &self.exclude, false)
    }
}

/// The machine of a distribution. An empty name stays empty.
pub fn wsl_machine(distro: &str) -> (m: String)
    ensures
        m@ == distro_machine(distro@),
{
    if distro.is_empty() {
        let m = String::new();
        proof {
            assert(m@ =~= Seq::empty());
        }
        m
    } else {
        let mut m = WSL_PREFIX.to_owned();
        m.append(distro);
        m
    }
}

// ---------------------------------------------------------------------------
// Laws of the configuration
// ---------------------------------------------------------------------------

/// The names that a value asks for are not empty, and none stands twice.
pub proof fn names_are_distinct(raw: Seq<Seq<char>>)
    ensures
        names_in(raw).no_duplicates(),
        forall|i: int| 0 <= i < names_in(raw).len() ==> (#[trigger] names_in(raw)[i]).len() > 0,
    decreases raw.len(),
{
    if raw.len() > 0 {
        names_are_distinct(raw.drop_last());
        let rest = names_in(raw.drop_last());
        let name = text::trimmed(raw.last());
        if name.len() > 0 && !rest.contains(name) {
            let all = rest.push(name);
            assert forall|i: int, j: int| 0 <= i < all.len() && 0 <= j < all.len() && i != j implies all[i]
                != all[j] by {
                if i == rest.len() {
                    assert(rest.contains(rest[j]));
                } else if j == rest.len() {
                    assert(rest.contains(rest[i]));
                }
            }
        }
    }
}

/// Whether a spec of this machine is among `v`.
pub open spec fn serves(v: Seq<SpecView>, machine: Seq<char>) -> bool {
    exists|i: int| 0 <= i < v.len() && (#[trigger] v[i]).alias == machine
}

proof fn discovered_are_machines(
    d: Seq<Seq<char>>,
    c: Seq<EntryView>,
    excluded: Seq<Seq<char>>,
    by_ssh: bool,
    machine: Seq<char>,
)
    requires
        serves(discovered_specs(d, c, excluded, by_ssh), machine),
    ensures
        d.contains(machine),
        !left_out(machine, excluded, by_ssh),
    decreases d.len(),
{
    if d.len() > 0 {
        let all = discovered_specs(d, c, excluded, by_ssh);
        let rest = discovered_specs(d.drop_last(), c, excluded, by_ssh);
        let i = choose|i: int| 0 <= i < all.len() && (#[trigger] all[i]).alias == machine;
        if i < rest.len() {
            assert(rest[i].alias == machine);
            discovered_are_machines(d.drop_last(), c, excluded, by_ssh, machine);
            let k = choose|k: int| 0 <= k < d.drop_last().len() && d.drop_last()[k] == machine;
            assert(d[k] == machine);
        } else {
            assert(machine == d.last());
            assert(d[d.len() - 1] == machine);
        }
    }
}

proof fn configured_are_machines(
    d: Seq<Seq<char>>,
    c: Seq<EntryView>,
    excluded: Seq<Seq<char>>,
    by_ssh: bool,
    machine: Seq<char>,
)
    requires
        serves(configured_specs(d, c, excluded, by_ssh), machine),
    ensures
        has_entry(c, machine),
        !d.contains(machine),
        !left_out(machine, excluded, by_ssh),
        machine.len() > 0,
    decreases c.len(),
{
    if c.len() > 0 {
        let all = configured_specs(d, c, excluded, by_ssh);
        let rest = configured_specs(d, c.drop_last(), excluded, by_ssh);
        let i = choose|i: int| 0 <= i < all.len() && (#[trigger] all[i]).alias == machine;
        if i < rest.len() {
            assert(rest[i].alias == machine);
            configured_are_machines(d, c.drop_last(), excluded, by_ssh, machine);
            let k = choose|k: int|
                0 <= k < c.drop_last().len() && (#[trigger] c.drop_last()[k]).machine == machine;
            assert(c[k].machine == machine);
        } else {
            assert(machine == c.last().machine);
            assert(c[c.len() - 1].machine == machine);
        }
    }
}

/// A machine that is left out has no source: not one of its muxes is served.
pub proof fn left_out_is_unserved(
    d: Seq<Seq<char>>,
    c: Seq<EntryView>,
    excluded: Seq<Seq<char>>,
    by_ssh: bool,
    machine: Seq<char>,
)
    requires
        left_out(machine, excluded, by_ssh),
    ensures
        !serves(merged_specs(d, c, excluded, by_ssh), machine),
{
    let all = merged_specs(d, c, excluded, by_ssh);
    let first = discovered_specs(d, c, excluded, by_ssh);
    let second = configured_specs(d, c, excluded, by_ssh);
    if serves(all, machine) {
        let i = choose|i: int| 0 <= i < all.len() && (#[trigger] all[i]).alias == machine;
        if i < first.len() {
            assert(first[i].alias == machine);
            discovered_are_machines(d, c, excluded, by_ssh, machine);
        } else {
            assert(second[i - first.len()].alias == machine);
            configured_are_machines(d, c, excluded, by_ssh, machine);
        }
    }
}

/// No ssh alias takes the name of this machine or of a WSL distribution.
pub proof fn reserved_is_unserved(
    d: Seq<Seq<char>>,
    c: Seq<EntryView>,
    excluded: Seq<Seq<char>>,
    distro: Seq<char>,
)
    ensures
        !serves(merged_specs(d, c, excluded, true), LOCAL_SOURCE@),
        !serves(merged_specs(d, c, excluded, true), WSL_PREFIX@ + distro),
{
    left_out_is_unserved(d, c, excluded, true, LOCAL_SOURCE@);
    let m = WSL_PREFIX@ + distro;
    assert(m.take(WSL_PREFIX@.len() as int) =~= WSL_PREFIX@);
    assert(m.subrange(0, WSL_PREFIX@.len() as int) =~= WSL_PREFIX@);
    left_out_is_unserved(d, c, excluded, true, m);
}

/// A machine that was discovered and of which nothing is written is served by tmux, under
/// its own name.
pub proof fn discovered_is_served(
    d: Seq<Seq<char>>,
    c: Seq<EntryView>,
    excluded: Seq<Seq<char>>,
    by_ssh: bool,
    machine: Seq<char>,
)
    requires
        d.contains(machine),
        !left_out(machine, excluded, by_ssh),
        override_of(c, machine) is None,
    ensures
        merged_specs(d, c, excluded, by_ssh).contains(
            SpecView { id: machine, alias: machine, bin: "tmux"@ },
        ),
{
    let spec = SpecView { id: machine, alias: machine, bin: "tmux"@ };
    discovered_once(d, c, excluded, by_ssh, machine);
    let first = discovered_specs(d, c, excluded, by_ssh);
    let i = choose|i: int| 0 <= i < first.len() && first[i] == spec;
    assert(merged_specs(d, c, excluded, by_ssh)[i] == spec);
}

proof fn discovered_once(
    d: Seq<Seq<char>>,
    c: Seq<EntryView>,
    excluded: Seq<Seq<char>>,
    by_ssh: bool,
    machine: Seq<char>,
)
    requires
        d.contains(machine),
        !left_out(machine, excluded, by_ssh),
        override_of(c, machine) is None,
    ensures
        discovered_specs(d, c, excluded, by_ssh).contains(
            SpecView { id: machine, alias: machine, bin: "tmux"@ },
        ),
    decreases d.len(),
{
    let spec = SpecView { id: machine, alias: machine, bin: "tmux"@ };
    let rest = discovered_specs(d.drop_last(), c, excluded, by_ssh);
    let all = discovered_specs(d, c, excluded, by_ssh);
    if d.drop_last().contains(machine) {
        discovered_once(d.drop_last(), c, excluded, by_ssh, machine);
        let i = choose|i: int| 0 <= i < rest.len() && rest[i] == spec;
        assert(all[i] == spec);
    } else {
        let k = choose|k: int| 0 <= k < d.len() && d[k] == machine;
        if k < d.len() - 1 {
            assert(d.drop_last()[k] == machine);
        }
        assert(d.last() == machine);
        reveal_with_fuel(recognized, 2);
        assert(seq!["tmux"@].drop_last() =~= Seq::empty());
        assert(recognized(seq!["tmux"@]) =~= seq!["tmux"@]);
        assert(specs_for(machine, seq!["tmux"@])[0] == spec);
        assert(all[rest.len() as int] == spec);
    }
}

/// Whether no id stands twice.
pub open spec fn distinct_specs(v: Seq<SpecView>) -> bool {
    forall|i: int, j: int| 0 <= i < j < v.len() ==> (#[trigger] v[i]).id != (#[trigger] v[j]).id
}

/// Whether the ids of `v` lead back to their machines.
spec fn rooted(v: Seq<SpecView>) -> bool {
    forall|i: int|
        0 <= i < v.len() ==> session::machine_text((#[trigger] v[i]).id) == v[i].alias
}

proof fn recognized_are_names(names: Seq<Seq<char>>)
    ensures
        forall|i: int|
            0 <= i < recognized(names).len() ==> names.contains(#[trigger] recognized(names)[i]),
        names.no_duplicates() ==> recognized(names).no_duplicates(),
    decreases names.len(),
{
    if names.len() > 0 {
        let t = names.drop_last();
        recognized_are_names(t);
        let all = recognized(names);
        assert forall|i: int| 0 <= i < all.len() implies names.contains(#[trigger] all[i]) by {
            if i < recognized(t).len() {
                let k = choose|k: int| 0 <= k < t.len() && t[k] == recognized(t)[i];
                assert(names[k] == all[i]);
            } else {
                assert(names[names.len() - 1] == all[i]);
            }
        }
        if names.no_duplicates() {
            assert(t.no_duplicates());
            assert forall|i: int, j: int| 0 <= i < all.len() && 0 <= j < all.len() && i != j implies all[i]
                != all[j] by {
                let r = recognized(t);
                if i == r.len() {
                    let k = choose|k: int| 0 <= k < t.len() && t[k] == r[j];
                    assert(names[k] != names[names.len() - 1]);
                } else if j == r.len() {
                    let k = choose|k: int| 0 <= k < t.len() && t[k] == r[i];
                    assert(names[k] != names[names.len() - 1]);
                }
            }
        }
    }
}

proof fn specs_for_distinct(machine: Seq<char>, muxes: Seq<Seq<char>>)
    requires
        !machine.contains(':'),
        muxes.no_duplicates(),
    ensures
        distinct_specs(specs_for(machine, muxes)),
        rooted(specs_for(machine, muxes)),
        forall|i: int|
            0 <= i < specs_for(machine, muxes).len() ==> (#[trigger] specs_for(
                machine,
                muxes,
            )[i]).alias == machine,
{
    let v = specs_for(machine, muxes);
    let bins = recognized(muxes);
    recognized_are_names(muxes);
    assert forall|i: int| 0 <= i < v.len() implies session::machine_text((#[trigger] v[i]).id)
        == v[i].alias by {
        session::id_keeps_the_machine(machine, bins[i], bins.len() > 1);
    }
    assert forall|i: int, j: int| 0 <= i < j < v.len() implies (#[trigger] v[i]).id != (
    #[trigger] v[j]).id by {
        assert(bins[i] != bins[j]);
        session::qualified_ids_differ(machine, bins[i], bins[j]);
    }
}

proof fn distinct_sum(a: Seq<SpecView>, b: Seq<SpecView>)
    requires
        distinct_specs(a),
        distinct_specs(b),
        rooted(a),
        rooted(b),
        forall|i: int, j: int|
            0 <= i < a.len() && 0 <= j < b.len() ==> (#[trigger] a[i]).alias != (
            #[trigger] b[j]).alias,
    ensures
        distinct_specs(a + b),
        rooted(a + b),
{
    let v = a + b;
    assert forall|i: int| 0 <= i < v.len() implies session::machine_text((#[trigger] v[i]).id)
        == v[i].alias by {
        if i < a.len() {
            assert(v[i] == a[i]);
        } else {
            assert(v[i] == b[i - a.len()]);
        }
    }
    assert forall|i: int, j: int| 0 <= i < j < v.len() implies (#[trigger] v[i]).id != (
    #[trigger] v[j]).id by {
        if j < a.len() {
            assert(a[i].id != a[j].id);
        } else if i >= a.len() {
            assert(b[i - a.len()].id != b[j - a.len()].id);
        } else {
            assert(a[i].alias != b[j - a.len()].alias);
        }
    }
}

proof fn override_is_distinct(c: Seq<EntryView>, machine: Seq<char>)
    requires
        forall|i: int| 0 <= i < c.len() ==> (#[trigger] c[i]).names.no_duplicates(),
    ensures
        muxes_of(c, machine).no_duplicates(),
    decreases c.len(),
{
    if c.len() > 0 && machine.len() > 0 {
        if c[0].machine == machine && c[0].names.len() > 0 {
        } else {
            let t = c.drop_first();
            assert forall|i: int| 0 <= i < t.len() implies (#[trigger] t[i]).names.no_duplicates() by {
                assert(t[i] == c[i + 1]);
            }
            override_is_distinct(t, machine);
        }
    }
}

proof fn discovered_distinct(
    d: Seq<Seq<char>>,
    c: Seq<EntryView>,
    excluded: Seq<Seq<char>>,
    by_ssh: bool,
)
    requires
        forall|i: int| 0 <= i < d.len() ==> !(#[trigger] d[i]).contains(':'),
        forall|i: int| 0 <= i < c.len() ==> (#[trigger] c[i]).names.no_duplicates(),
    ensures
        distinct_specs(discovered_specs(d, c, excluded, by_ssh)),
        rooted(discovered_specs(d, c, excluded, by_ssh)),
    decreases d.len(),
{
    if d.len() > 0 {
        let t = d.drop_last();
        assert forall|i: int| 0 <= i < t.len() implies !(#[trigger] t[i]).contains(':') by {
            assert(t[i] == d[i]);
        }
        discovered_distinct(t, c, excluded, by_ssh);
        let m = d.last();
        if !left_out(m, excluded, by_ssh) && !t.contains(m) {
            assert(d[d.len() - 1] == m);
            override_is_distinct(c, m);
            specs_for_distinct(m, muxes_of(c, m));
            let rest = discovered_specs(t, c, excluded, by_ssh);
            let own = specs_for(m, muxes_of(c, m));
            assert forall|i: int, j: int| 0 <= i < rest.len() && 0 <= j < own.len() implies (
            #[trigger] rest[i]).alias != (#[trigger] own[j]).alias by {
                if rest[i].alias == m {
                    discovered_are_machines(t, c, excluded, by_ssh, m);
                }
            }
            distinct_sum(rest, own);
        }
    }
}

proof fn configured_distinct(
    d: Seq<Seq<char>>,
    c: Seq<EntryView>,
    excluded: Seq<Seq<char>>,
    by_ssh: bool,
)
    requires
        forall|i: int|
            0 <= i < c.len() ==> (#[trigger] c[i]).names.no_duplicates() && !c[i].machine.contains(
                ':',
            ),
    ensures
        distinct_specs(configured_specs(d, c, excluded, by_ssh)),
        rooted(configured_specs(d, c, excluded, by_ssh)),
    decreases c.len(),
{
    if c.len() > 0 {
        let t = c.drop_last();
        assert forall|i: int| 0 <= i < t.len() implies (#[trigger] t[i]).names.no_duplicates()
            && !t[i].machine.contains(':') by {
            assert(t[i] == c[i]);
        }
        configured_distinct(d, t, excluded, by_ssh);
        let e = c.last();
        let m = e.machine;
        assert(c[c.len() - 1] == e);
        if m.len() > 0 && !left_out(m, excluded, by_ssh) && !d.contains(m) && !has_entry(t, m) {
            specs_for_distinct(m, own_muxes(e));
            let rest = configured_specs(d, t, excluded, by_ssh);
            let own = specs_for(m, own_muxes(e));
            assert forall|i: int, j: int| 0 <= i < rest.len() && 0 <= j < own.len() implies (
            #[trigger] rest[i]).alias != (#[trigger] own[j]).alias by {
                if rest[i].alias == m {
                    configured_are_machines(d, t, excluded, by_ssh, m);
                }
            }
            distinct_sum(rest, own);
        }
    }
}

/// No two sources share an id, as long as no machine's name holds a colon.
pub proof fn ids_are_distinct(
    d: Seq<Seq<char>>,
    c: Seq<EntryView>,
    excluded: Seq<Seq<char>>,
    by_ssh: bool,
)
    requires
        forall|i: int| 0 <= i < d.len() ==> !(#[trigger] d[i]).contains(':'),
        forall|i: int|
            0 <= i < c.len() ==> (#[trigger] c[i]).names.no_duplicates() && !c[i].machine.contains(
                ':',
            ),
    ensures
        distinct_specs(merged_specs(d, c, excluded, by_ssh)),
{
    discovered_distinct(d, c, excluded, by_ssh);
    configured_distinct(d, c, excluded, by_ssh);
    let a = discovered_specs(d, c, excluded, by_ssh);
    let b = configured_specs(d, c, excluded, by_ssh);
    assert forall|i: int, j: int| 0 <= i < a.len() && 0 <= j < b.len() implies (
    #[trigger] a[i]).alias != (#[trigger] b[j]).alias by {
        if a[i].alias == b[j].alias {
            discovered_are_machines(d, c, excluded, by_ssh, a[i].alias);
            configured_are_machines(d, c, excluded, by_ssh, a[i].alias);
        }
    }
    distinct_sum(a, b);
}

/// A machine with one mux keeps its bare name.
pub proof fn one_mux_keeps_the_bare_id(machine: Seq<char>, bin: Seq<char>)
    requires
        kind_called(bin) is Some,
    ensures
        specs_for(machine, seq![bin]) == seq![SpecView { id: machine, alias: machine, bin }],
{
    reveal_with_fuel(recognized, 2);
    assert(seq![bin].drop_last() =~= Seq::empty());
    assert(recognized(seq![bin]) =~= seq![bin]);
    assert(specs_for(machine, seq![bin]) =~= seq![SpecView { id: machine, alias: machine, bin }]);
}

// ---------------------------------------------------------------------------
// Laws of names
// ---------------------------------------------------------------------------

/// The names that a value asks for are those that it holds between white space, all of them
/// and no other.
pub proof fn names_are_those_written(raw: Seq<Seq<char>>, name: Seq<char>)
    ensures
        names_in(raw).contains(name) <==> name.len() > 0 && exists|i: int|
            0 <= i < raw.len() && text::trimmed(#[trigger] raw[i]) == name,
    decreases raw.len(),
{
    if raw.len() > 0 {
        let less = raw.drop_last();
        let rest = names_in(less);
        let last = text::trimmed(raw.last());
        names_are_those_written(less, name);
        if names_in(raw).contains(name) {
            let k = choose|k: int| 0 <= k < names_in(raw).len() && names_in(raw)[k] == name;
            if k < rest.len() {
                assert(rest[k] == name);
                let i = choose|i: int|
                    0 <= i < less.len() && text::trimmed(#[trigger] less[i]) == name;
                assert(text::trimmed(raw[i]) == name);
            } else {
                assert(text::trimmed(raw[raw.len() - 1]) == name);
            }
        }
        if name.len() > 0 && exists|i: int|
            0 <= i < raw.len() && text::trimmed(#[trigger] raw[i]) == name {
            let i = choose|i: int| 0 <= i < raw.len() && text::trimmed(#[trigger] raw[i]) == name;
            if i < less.len() {
                assert(text::trimmed(less[i]) == name);
                let k = choose|k: int| 0 <= k < rest.len() && rest[k] == name;
                assert(names_in(raw)[k] == name);
            } else if rest.contains(name) {
                let k = choose|k: int| 0 <= k < rest.len() && rest[k] == name;
                assert(names_in(raw)[k] == name);
            } else {
                assert(names_in(raw)[rest.len() as int] == name);
            }
        }
    }
}

/// The names stand in the order in which they are written first: what is written later
/// comes behind.
pub proof fn names_keep_their_order(a: Seq<Seq<char>>, b: Seq<Seq<char>>)
    ensures
        names_in(a).is_prefix_of(names_in(a + b)),
    decreases b.len(),
{
    if b.len() == 0 {
        assert(a + b =~= a);
    } else {
        assert((a + b).drop_last() =~= a + b.drop_last());
        names_keep_their_order(a, b.drop_last());
    }
}

/// The names of muxes are kept one by one, in order: each of the five that there are, and
/// no other.
pub proof fn known_names_are_kept(a: Seq<Seq<char>>, b: Seq<Seq<char>>, name: Seq<char>)
    ensures
        recognized(a + b) == recognized(a) + recognized(b),
        recognized(seq![name]) == if name == "tmux"@ || name == "psmux"@ || name == "zellij"@ || name
            == "abduco"@ || name == "screen"@ {
            seq![name]
        } else {
            Seq::empty()
        },
    decreases b.len(),
{
    if b.len() == 0 {
        assert(a + b =~= a);
        assert(recognized(a) + recognized(b) =~= recognized(a));
    } else {
        assert((a + b).drop_last() =~= a + b.drop_last());
        known_names_are_kept(a, b.drop_last(), name);
        assert(recognized(a + b) =~= recognized(a) + recognized(b));
    }
    reveal_with_fuel(recognized, 2);
    assert(seq![name].drop_last() =~= Seq::empty());
    assert(Seq::<Seq<char>>::empty().push(name) =~= seq![name]);
}

proof fn all_known_stay(names: Seq<Seq<char>>)
    requires
        forall|i: int| 0 <= i < names.len() ==> kind_called(#[trigger] names[i]) is Some,
    ensures
        recognized(names) == names,
    decreases names.len(),
{
    if names.len() > 0 {
        let v = names.drop_last();
        assert forall|i: int| 0 <= i < v.len() implies kind_called(#[trigger] v[i]) is Some by {
            assert(v[i] == names[i]);
        }
        all_known_stay(v);
        assert(kind_called(names[names.len() - 1]) is Some);
        assert(v.push(names.last()) =~= names);
    }
}

/// Several muxes of a machine make a source each, in order, which goes by the machine's name
/// and the mux's.
pub proof fn each_mux_is_a_source(machine: Seq<char>, muxes: Seq<Seq<char>>, i: int)
    requires
        muxes.len() > 1,
        forall|i: int| 0 <= i < muxes.len() ==> kind_called(#[trigger] muxes[i]) is Some,
        0 <= i < muxes.len(),
    ensures
        specs_for(machine, muxes).len() == muxes.len(),
        specs_for(machine, muxes)[i] == (SpecView {
            id: machine + ":"@ + muxes[i],
            alias: machine,
            bin: muxes[i],
        }),
{
    all_known_stay(muxes);
}

/// A side is named by its word, and by no other.
pub proof fn sides_are_told_by_name(word: Seq<char>)
    ensures
        position_named(word) == Some(NavPosition::Left) <==> word == "left"@,
        position_named(word) == Some(NavPosition::Top) <==> word == "top"@,
        position_named(word) == Some(NavPosition::Right) <==> word == "right"@,
        position_named(word) == Some(NavPosition::Bottom) <==> word == "bottom"@,
{
    reveal_strlit("left");
    reveal_strlit("top");
    reveal_strlit("right");
    reveal_strlit("bottom");
    assert("left"@.len() == 4 && "top"@.len() == 3 && "right"@.len() == 5 && "bottom"@.len() == 6);
}

// ---------------------------------------------------------------------------
// Laws of machines
// ---------------------------------------------------------------------------

/// Whether a machine may be served: it is not left out, and an ssh alias claims neither the
/// name of this machine nor one of a WSL distribution.
pub open spec fn may_be_served(
    machine: Seq<char>,
    excluded: Seq<Seq<char>>,
    by_ssh: bool,
) -> bool {
    &&& !excluded.contains(machine)
    &&& by_ssh ==> machine != "local"@ && !(machine.len() >= 4 && machine.take(4) == "wsl."@)
}

proof fn may_be_served_is(machine: Seq<char>, excluded: Seq<Seq<char>>, by_ssh: bool)
    ensures
        may_be_served(machine, excluded, by_ssh) <==> !left_out(machine, excluded, by_ssh),
{
    reveal_strlit("wsl.");
}

/// What is written for a machine is what its first entry holds that names a mux.
pub proof fn first_entry_counts(c: Seq<EntryView>, machine: Seq<char>, i: int)
    requires
        machine.len() > 0,
        0 <= i < c.len(),
        c[i].machine == machine,
        c[i].names.len() > 0,
        forall|j: int| 0 <= j < i ==> (#[trigger] c[j]).machine != machine || c[j].names.len() == 0,
    ensures
        muxes_of(c, machine) == c[i].names,
        override_of(c, machine) == Some(c[i].names),
    decreases c.len(),
{
    if i > 0 {
        let t = c.drop_first();
        assert(c[0].machine != machine || c[0].names.len() == 0);
        assert forall|j: int| 0 <= j < i - 1 implies (#[trigger] t[j]).machine != machine
            || t[j].names.len() == 0 by {
            assert(t[j] == c[j + 1]);
        }
        first_entry_counts(t, machine, i - 1);
    }
}

/// A machine for which no mux is written has tmux.
pub proof fn unwritten_machine_has_tmux(c: Seq<EntryView>, machine: Seq<char>)
    requires
        forall|j: int|
            0 <= j < c.len() ==> (#[trigger] c[j]).machine != machine || c[j].names.len() == 0,
    ensures
        muxes_of(c, machine) == seq!["tmux"@],
    decreases c.len(),
{
    if c.len() > 0 {
        let t = c.drop_first();
        assert(c[0].machine != machine || c[0].names.len() == 0);
        assert forall|j: int| 0 <= j < t.len() implies (#[trigger] t[j]).machine != machine
            || t[j].names.len() == 0 by {
            assert(t[j] == c[j + 1]);
        }
        unwritten_machine_has_tmux(t, machine);
    }
}

/// Every source of a machine that was discovered is there: one for each mux that is written
/// for it, or for tmux.
pub proof fn discovered_machine_has_its_sources(
    d: Seq<Seq<char>>,
    c: Seq<EntryView>,
    excluded: Seq<Seq<char>>,
    by_ssh: bool,
    machine: Seq<char>,
    spec: SpecView,
)
    requires
        d.contains(machine),
        may_be_served(machine, excluded, by_ssh),
        specs_for(machine, muxes_of(c, machine)).contains(spec),
    ensures
        merged_specs(d, c, excluded, by_ssh).contains(spec),
{
    may_be_served_is(machine, excluded, by_ssh);
    discovered_has(d, c, excluded, by_ssh, machine, spec);
    let first = discovered_specs(d, c, excluded, by_ssh);
    let i = choose|i: int| 0 <= i < first.len() && first[i] == spec;
    assert(merged_specs(d, c, excluded, by_ssh)[i] == spec);
}

proof fn discovered_has(
    d: Seq<Seq<char>>,
    c: Seq<EntryView>,
    excluded: Seq<Seq<char>>,
    by_ssh: bool,
    machine: Seq<char>,
    spec: SpecView,
)
    requires
        d.contains(machine),
        !left_out(machine, excluded, by_ssh),
        specs_for(machine, muxes_of(c, machine)).contains(spec),
    ensures
        discovered_specs(d, c, excluded, by_ssh).contains(spec),
    decreases d.len(),
{
    let less = d.drop_last();
    let rest = discovered_specs(less, c, excluded, by_ssh);
    let all = discovered_specs(d, c, excluded, by_ssh);
    if less.contains(machine) {
        discovered_has(less, c, excluded, by_ssh, machine, spec);
        let i = choose|i: int| 0 <= i < rest.len() && rest[i] == spec;
        assert(all[i] == spec);
    } else {
        let k = choose|k: int| 0 <= k < d.len() && d[k] == machine;
        if k < less.len() {
            assert(less[k] == machine);
        }
        let own = specs_for(machine, muxes_of(c, machine));
        let i = choose|i: int| 0 <= i < own.len() && own[i] == spec;
        assert(all[rest.len() + i] == spec);
    }
}

/// Every source of a machine that only the configuration names is there: one for each mux of
/// its first entry, or for tmux.
pub proof fn configured_machine_has_its_sources(
    d: Seq<Seq<char>>,
    c: Seq<EntryView>,
    excluded: Seq<Seq<char>>,
    by_ssh: bool,
    i: int,
    spec: SpecView,
)
    requires
        0 <= i < c.len(),
        c[i].machine.len() > 0,
        !d.contains(c[i].machine),
        may_be_served(c[i].machine, excluded, by_ssh),
        forall|j: int| 0 <= j < i ==> (#[trigger] c[j]).machine != c[i].machine,
        c[i].names.len() > 0 ==> specs_for(c[i].machine, c[i].names).contains(spec),
        c[i].names.len() == 0 ==> specs_for(c[i].machine, seq!["tmux"@]).contains(spec),
    ensures
        merged_specs(d, c, excluded, by_ssh).contains(spec),
{
    may_be_served_is(c[i].machine, excluded, by_ssh);
    configured_has(d, c, excluded, by_ssh, i, spec);
    let first = discovered_specs(d, c, excluded, by_ssh);
    let second = configured_specs(d, c, excluded, by_ssh);
    let k = choose|k: int| 0 <= k < second.len() && second[k] == spec;
    assert(merged_specs(d, c, excluded, by_ssh)[first.len() + k] == spec);
}

proof fn configured_has(
    d: Seq<Seq<char>>,
    c: Seq<EntryView>,
    excluded: Seq<Seq<char>>,
    by_ssh: bool,
    i: int,
    spec: SpecView,
)
    requires
        0 <= i < c.len(),
        c[i].machine.len() > 0,
        !d.contains(c[i].machine),
        !left_out(c[i].machine, excluded, by_ssh),
        forall|j: int| 0 <= j < i ==> (#[trigger] c[j]).machine != c[i].machine,
        specs_for(c[i].machine, own_muxes(c[i])).contains(spec),
    ensures
        configured_specs(d, c, excluded, by_ssh).contains(spec),
    decreases c.len(),
{
    let less = c.drop_last();
    let rest = configured_specs(d, less, excluded, by_ssh);
    let all = configured_specs(d, c, excluded, by_ssh);
    if i < less.len() {
        assert(less[i] == c[i]);
        assert forall|j: int| 0 <= j < i implies (#[trigger] less[j]).machine != less[i].machine by {
            assert(less[j] == c[j]);
        }
        configured_has(d, less, excluded, by_ssh, i, spec);
        let k = choose|k: int| 0 <= k < rest.len() && rest[k] == spec;
        assert(all[k] == spec);
    } else {
        assert(!has_entry(less, c[i].machine)) by {
            if has_entry(less, c[i].machine) {
                let j = choose|j: int|
                    0 <= j < less.len() && (#[trigger] less[j]).machine == c[i].machine;
                assert(c[j].machine == c[i].machine);
            }
        }
        let own = specs_for(c[i].machine, own_muxes(c[i]));
        let k = choose|k: int| 0 <= k < own.len() && own[k] == spec;
        assert(all[rest.len() + k] == spec);
    }
}

/// A source is on a machine that was discovered or is configured, that may be served, and
/// runs a mux that there is.
pub proof fn sources_are_on_known_machines(
    d: Seq<Seq<char>>,
    c: Seq<EntryView>,
    excluded: Seq<Seq<char>>,
    by_ssh: bool,
    i: int,
)
    requires
        0 <= i < merged_specs(d, c, excluded, by_ssh).len(),
    ensures
        ({
            let spec = merged_specs(d, c, excluded, by_ssh)[i];
            &&& d.contains(spec.alias) || has_entry(c, spec.alias)
            &&& may_be_served(spec.alias, excluded, by_ssh)
        }),
{
    let all = merged_specs(d, c, excluded, by_ssh);
    let first = discovered_specs(d, c, excluded, by_ssh);
    let second = configured_specs(d, c, excluded, by_ssh);
    let m = all[i].alias;
    may_be_served_is(m, excluded, by_ssh);
    if i < first.len() {
        assert(first[i].alias == m);
        discovered_are_machines(d, c, excluded, by_ssh, m);
    } else {
        assert(second[i - first.len()].alias == m);
        configured_are_machines(d, c, excluded, by_ssh, m);
    }
}

/// Machines stand in the order in which they were discovered: what is found later comes
/// behind, and what only the configuration names behind that.
pub proof fn machines_keep_their_order(
    d: Seq<Seq<char>>,
    more: Seq<Seq<char>>,
    c: Seq<EntryView>,
    excluded: Seq<Seq<char>>,
    by_ssh: bool,
)
    ensures
        discovered_specs(d, c, excluded, by_ssh).is_prefix_of(
            discovered_specs(d + more, c, excluded, by_ssh),
        ),
        discovered_specs(d, c, excluded, by_ssh).is_prefix_of(
            merged_specs(d, c, excluded, by_ssh),
        ),
    decreases more.len(),
{
    if more.len() == 0 {
        assert(d + more =~= d);
    } else {
        assert((d + more).drop_last() =~= d + more.drop_last());
        machines_keep_their_order(d, more.drop_last(), c, excluded, by_ssh);
    }
}

/// What the configuration adds stands in the order in which it is written.
pub proof fn entries_keep_their_order(
    d: Seq<Seq<char>>,
    c: Seq<EntryView>,
    more: Seq<EntryView>,
    excluded: Seq<Seq<char>>,
    by_ssh: bool,
)
    ensures
        configured_specs(d, c, excluded, by_ssh).is_prefix_of(
            configured_specs(d, c + more, excluded, by_ssh),
        ),
    decreases more.len(),
{
    if more.len() == 0 {
        assert(c + more =~= c);
    } else {
        assert((c + more).drop_last() =~= c + more.drop_last());
        entries_keep_their_order(d, c, more.drop_last(), excluded, by_ssh);
    }
}

// ---------------------------------------------------------------------------
// Laws of this machine
// ---------------------------------------------------------------------------

/// Where muxes are written for this machine, they are its muxes; where none is, or `auto`,
/// those that are installed are, and no other, with the conventional one in front.
pub proof fn this_machine_has_what_is_written_or_installed(
    names: Seq<Seq<char>>,
    os: Seq<char>,
    installed: Seq<Seq<char>>,
    name: Seq<char>,
)
    ensures
        ({
            let open = names.len() == 0 || names == seq!["auto"@];
            let got = local_muxes_of(names, os, installed);
            let first = if os == "windows"@ {
                "psmux"@
            } else {
                "tmux"@
            };
            &&& !open ==> got == recognized(names)
            &&& open ==> (got.contains(name) <==> installed.contains(name))
            &&& open && installed.contains(first) ==> got.len() > 0 && got[0] == first
        }),
{
    let got = local_muxes_of(names, os, installed);
    let first = conventional_mux(os);
    let open = names.len() == 0 || names == seq!["auto"@];
    if names.len() == 1 && names[0] == "auto"@ {
        assert(names =~= seq!["auto"@]);
    }
    if open {
        let rest = text::without(installed, first);
        without_holds(installed, first, name);
        if installed.contains(first) {
            assert(got[0] == first);
            if rest.contains(name) {
                let k = choose|k: int| 0 <= k < rest.len() && rest[k] == name;
                assert(got[k + 1] == name);
            }
            if got.contains(name) {
                let k = choose|k: int| 0 <= k < got.len() && got[k] == name;
                if k > 0 {
                    assert(rest[k - 1] == name);
                }
            }
        }
    }
}

proof fn without_holds(v: Seq<Seq<char>>, k: Seq<char>, name: Seq<char>)
    ensures
        text::without(v, k).contains(name) <==> v.contains(name) && name != k,
    decreases v.len(),
{
    if v.len() > 0 {
        let less = v.drop_last();
        let rest = text::without(less, k);
        let all = text::without(v, k);
        without_holds(less, k, name);
        if all.contains(name) {
            let i = choose|i: int| 0 <= i < all.len() && all[i] == name;
            if i < rest.len() {
                assert(rest[i] == name);
                let j = choose|j: int| 0 <= j < less.len() && less[j] == name;
                assert(v[j] == name);
            } else {
                assert(v[v.len() - 1] == name);
            }
        }
        if v.contains(name) && name != k {
            let j = choose|j: int| 0 <= j < v.len() && v[j] == name;
            if j < less.len() {
                assert(less[j] == name);
                let i = choose|i: int| 0 <= i < rest.len() && rest[i] == name;
                assert(all[i] == name);
            } else {
                assert(all[rest.len() as int] == name);
            }
        }
    }
}

// ---------------------------------------------------------------------------
// Laws of warnings
// ---------------------------------------------------------------------------

/// Names are warned of one by one, in order: each that is no mux and not `auto`, in the
/// words of the warning, and no other.
pub proof fn unknown_names_are_warned_of(
    whose: Seq<char>,
    a: Seq<Seq<char>>,
    b: Seq<Seq<char>>,
    name: Seq<char>,
)
    ensures
        warnings_for(whose, a + b) == warnings_for(whose, a) + warnings_for(whose, b),
        warnings_for(whose, seq![name]) == if name == "auto"@ || name == "tmux"@ || name
            == "psmux"@ || name == "zellij"@ || name == "abduco"@ || name == "screen"@ {
            Seq::empty()
        } else {
            seq![
                whose + "mux "@ + text::debug_quoted(name)
                    + " is not a recognized mux (tmux/psmux/zellij/abduco/screen); no source is created for it"@,
            ]
        },
    decreases b.len(),
{
    if b.len() == 0 {
        assert(a + b =~= a);
        assert(warnings_for(whose, a) + warnings_for(whose, b) =~= warnings_for(whose, a));
    } else {
        assert((a + b).drop_last() =~= a + b.drop_last());
        unknown_names_are_warned_of(whose, a, b.drop_last(), name);
        assert(warnings_for(whose, a + b) =~= warnings_for(whose, a) + warnings_for(whose, b));
    }
    reveal_with_fuel(warnings_for, 2);
    assert(seq![name].drop_last() =~= Seq::empty());
    let w = warning_text(whose, text::debug_quoted(name));
    assert(Seq::<Seq<char>>::empty().push(w) =~= seq![w]);
}

/// Machines are warned of one by one, in order, each by its name.
pub proof fn machines_are_warned_of_in_order(
    hosts: Seq<HostConfig>,
    h: HostConfig,
    wsl: Seq<WslConfig>,
    w: WslConfig,
)
    ensures
        host_warnings(hosts.push(h)) == host_warnings(hosts) + warnings_for(
            "host "@ + text::debug_quoted(h.ssh@) + " "@,
            h.mux@,
        ),
        host_warnings(Seq::empty()).len() == 0,
        wsl_warnings(wsl.push(w)) == wsl_warnings(wsl) + warnings_for(
            "wsl "@ + text::debug_quoted(w.distro@) + " "@,
            w.mux@,
        ),
        wsl_warnings(Seq::empty()).len() == 0,
{
    assert(hosts.push(h).drop_last() =~= hosts);
    assert(wsl.push(w).drop_last() =~= wsl);
}

/// The muxes of a machine are left open exactly where its first entry names none or `auto`
/// alone, or where it has no entry.
pub proof fn first_entry_leaves_open(c: Seq<EntryView>, machine: Seq<char>, i: int)
    requires
        0 <= i <= c.len(),
        forall|j: int| 0 <= j < i ==> (#[trigger] c[j]).machine != machine,
        i < c.len() ==> c[i].machine == machine,
    ensures
        i == c.len() ==> entry_is_open(c, machine),
        i < c.len() ==> (entry_is_open(c, machine) <==> c[i].names.len() == 0 || c[i].names == seq![
            "auto"@,
        ]),
    decreases c.len(),
{
    if c.len() > 0 {
        if i > 0 {
            let t = c.drop_first();
            assert(c[0].machine != machine);
            assert forall|j: int| 0 <= j < i - 1 implies (#[trigger] t[j]).machine != machine by {
                assert(t[j] == c[j + 1]);
            }
            first_entry_leaves_open(t, machine, i - 1);
        } else if c[0].names.len() == 1 && c[0].names[0] == "auto"@ {
            assert(c[0].names =~= seq!["auto"@]);
        }
    }
}

/// Where nothing is written, everything is looked for, nothing is left out, and the
/// interface stands as its documentation has it.
pub proof fn nothing_written_means_the_defaults(c: Config)
    requires
        is_default_config(c),
    ensures
        c.hosts@.len() == 0 && c.wsl@.len() == 0 && c.exclude@.len() == 0,
        open_choice(c.local.mux@),
        c.discovery.ssh_config && c.discovery.tailscale && c.discovery.wsl,
        c.ui.theme@ == "auto-dark"@,
        c.ui.prefix@ == "C-g"@,
        !c.ui.auto_hide_nav,
        c.ui.auto_nav_position,
        c.ui.wide_nav_position@ == "left"@,
        c.ui.narrow_nav_position@ == "top"@,
        c.ui.force_nav_position@.len() == 0,
{
}

} // verus!
