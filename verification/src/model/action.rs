//! What is intended, and what is to be done about it: every key, every control command
//! and every event of a host comes down to one of these.
use crate::model::selection::Selection;
use crate::mux::AnyMux;
use crate::number;
use crate::provision::env::Roster;
use crate::session::{session_views, Address, Session, SessionView};
use crate::text;
use vstd::prelude::*;

verus! {

/// An intent. Instants are milliseconds of the caller's clock, which is never read here.
#[derive(Clone, Debug, PartialEq)]
pub enum Action {
    /// Show the session at an address.
    Switch(Address),
    /// Move the focus to a view.
    Focus(FocusTarget),
    /// Move the focus to the other view.
    FocusToggle,
    /// Enumerate every host again.
    Rescan,
    /// Adjust the width of the navigation by a signed delta.
    NavWidth(i32),
    /// Toggle whether the navigation hides by itself.
    ToggleAutoHide,
    Quit,
    /// What is selected now; what it takes to show it follows once it stays.
    Select(Selection),
    /// A beat of the loop, with what it found.
    Tick {
        now: u64,
        /// Whether the display of what is selected lives.
        key_live: bool,
        /// Whether an attach for it is under way.
        in_flight: bool,
        /// Whether the display is elsewhere, and is the one to move.
        display_astray: bool,
    },
    /// What is displayed now.
    ConfirmDisplay(Selection),
    /// Nothing is displayed any more.
    ClearDisplay,
    /// Attach again, once the time for it has passed.
    RearmAttach { now: u64 },
    /// Attach again at once.
    RearmAttachNow { now: u64 },
    /// Create a session on a source; without a name, the mux gives it one.
    CreateSession { source: String, name: String },
}

/// What is to be done.
#[derive(Clone, Debug, PartialEq)]
pub enum Command {
    /// Select the row of a session.
    SelectAddress(Address),
    /// Enumerate every host again.
    Rescan,
    /// Adjust the width of the navigation, and keep it.
    AdjustNavWidth(i32),
    /// Toggle whether the navigation hides by itself, and keep it.
    ToggleAutoHide,
    /// Keep a session as the one that was selected last.
    PersistLastSession(Address),
    /// Attach to what is selected, or switch to it.
    Attach(Selection),
    Quit,
    /// Run what takes the network.
    RunOp(MuxOp),
    /// Unlock a host with what was entered.
    RunUnlock { source: String, user: String, password: String },
}

/// What takes the network.
#[derive(Clone, Debug, PartialEq)]
pub enum MuxOp {
    Create { source: String, name: String },
}

/// What an event of a host requires, beyond the state that it changes.
pub enum EventEffect {
    /// Take the sessions in, and have the display follow.
    ApplyInventory { host: String, sessions: Vec<Session> },
    /// List the sessions again.
    Refetch { host: String },
    /// Add a source for each mux that the machine does not serve yet.
    AddDiscoveredSources { machine: String, muxes: Vec<String> },
    /// Bring what is known in line with a fresh roster.
    ApplyRoster { roster: Box<Roster> },
    /// Let the reader of a host go.
    ReapHost { host: String },
    /// Let the display of a host go, if the client that has detached is its own.
    ReapDisplayAttach { host: String, client: String },
    /// Follow the display to another session, if the client that was moved is its own.
    FollowDisplaySession { host: String, client: String, session: String },
    /// Take in what the mux of a source turned out to be.
    DispatchScanned { source: String, detected: Option<AnyMux> },
    /// Have the display of a polled source follow its sessions.
    SyncPollSessions { source: String, sessions: Vec<Session> },
    /// Note the tty of this program's own client; without one, forget it.
    RecordDisplayTty { host: String, tty: Option<String> },
    /// Resolve what a machine serves that was reached.
    MachineConnected { machine: String, rescan: bool },
}

// ---------------------------------------------------------------------------
// Effects in words
// ---------------------------------------------------------------------------

/// A field with its value.
pub open spec fn field_text(f: (Seq<char>, Seq<char>)) -> Seq<char> {
    f.0 + ": "@ + f.1
}

/// A value with its fields.
pub open spec fn struct_text(name: Seq<char>, fields: Seq<(Seq<char>, Seq<char>)>) -> Seq<char> {
    name + " { "@ + text::joined(fields.map_values(|f: (Seq<char>, Seq<char>)| field_text(f)), ", "@)
        + " }"@
}

/// A list of values.
pub open spec fn list_text(items: Seq<Seq<char>>) -> Seq<char> {
    "["@ + text::joined(items, ", "@) + "]"@
}

/// A truth value in words.
pub open spec fn bool_text(b: bool) -> Seq<char> {
    if b {
        "true"@
    } else {
        "false"@
    }
}

/// A session in words.
pub open spec fn session_text(s: SessionView) -> Seq<char> {
    struct_text(
        "Session"@,
        seq![
            ("source"@, text::debug_quoted(s.source)),
            ("name"@, text::debug_quoted(s.name)),
            ("mux"@, text::debug_quoted(s.mux)),
            ("windows"@, number::signed_decimal(s.windows)),
            ("attached"@, bool_text(s.attached)),
        ],
    )
}

/// Sessions in words.
pub open spec fn sessions_text(v: Seq<SessionView>) -> Seq<char> {
    list_text(v.map_values(|s: SessionView| session_text(s)))
}

/// The name of an effect, and its fields in words. A roster shows how many sources it
/// has, and a mux whether it was told.
pub open spec fn effect_parts(e: EventEffect) -> (Seq<char>, Seq<(Seq<char>, Seq<char>)>) {
    match e {
        EventEffect::ApplyInventory { host, sessions } => (
            "ApplyInventory"@,
            seq![
                ("host"@, text::debug_quoted(host@)),
                ("sessions"@, sessions_text(session_views(sessions@))),
            ],
        ),
        EventEffect::Refetch { host } => ("Refetch"@, seq![("host"@, text::debug_quoted(host@))]),
        EventEffect::AddDiscoveredSources { machine, muxes } => (
            "AddDiscoveredSources"@,
            seq![
                ("machine"@, text::debug_quoted(machine@)),
                (
                    "muxes"@,
                    list_text(
                        text::texts(muxes@).map_values(|m: Seq<char>| text::debug_quoted(m)),
                    ),
                ),
            ],
        ),
        EventEffect::ApplyRoster { roster } => (
            "ApplyRoster"@,
            seq![("sources"@, number::decimal(roster.sources@.len()))],
        ),
        EventEffect::ReapHost { host } => ("ReapHost"@, seq![("host"@, text::debug_quoted(host@))]),
        EventEffect::ReapDisplayAttach { host, client } => (
            "ReapDisplayAttach"@,
            seq![
                ("host"@, text::debug_quoted(host@)),
                ("client"@, text::debug_quoted(client@)),
            ],
        ),
        EventEffect::FollowDisplaySession { host, client, session } => (
            "FollowDisplaySession"@,
            seq![
                ("host"@, text::debug_quoted(host@)),
                ("client"@, text::debug_quoted(client@)),
                ("session"@, text::debug_quoted(session@)),
            ],
        ),
        EventEffect::DispatchScanned { source, detected } => (
            "DispatchScanned"@,
            seq![
                ("source"@, text::debug_quoted(source@)),
                ("detected_some"@, bool_text(detected is Some)),
            ],
        ),
        EventEffect::SyncPollSessions { source, sessions } => (
            "SyncPollSessions"@,
            seq![
                ("source"@, text::debug_quoted(source@)),
                ("sessions"@, sessions_text(session_views(sessions@))),
            ],
        ),
        EventEffect::RecordDisplayTty { host, tty } => (
            "RecordDisplayTty"@,
            seq![
                ("host"@, text::debug_quoted(host@)),
                (
                    "tty"@,
                    match tty {
                        Some(t) => "Some("@ + text::debug_quoted(t@) + ")"@,
                        None => "None"@,
                    },
                ),
            ],
        ),
        EventEffect::MachineConnected { machine, rescan } => (
            "MachineConnected"@,
            seq![
                ("machine"@, text::debug_quoted(machine@)),
                ("rescan"@, bool_text(rescan)),
            ],
        ),
    }
}

/// A field whose value is in words already.
pub struct Field {
    pub name: &'static str,
    pub value: String,
}

impl View for Field {
    type V = (Seq<char>, Seq<char>);

    open spec fn view(&self) -> (Seq<char>, Seq<char>) {
        (self.name@, self.value@)
    }
}

/// The views of a sequence of fields.
pub open spec fn field_views(v: Seq<Field>) -> Seq<(Seq<char>, Seq<char>)> {
    v.map_values(|f: Field| f@)
}

/// A value with its fields, whose values are in words already.
pub fn struct_words(name: &str, fields: &Vec<Field>) -> (s: String)
    ensures
        s@ == struct_text(name@, field_views(fields@)),
{
    let ghost goal = field_views(fields@).map_values(|f: (Seq<char>, Seq<char>)| field_text(f));
    let mut parts: Vec<String> = Vec::new();
    let mut i: usize = 0;
    while i < fields.len()
        invariant
            i <= fields@.len(),
            goal == field_views(fields@).map_values(
                |f: (Seq<char>, Seq<char>)| field_text(f),
            ),
            text::texts(parts@) == goal.take(i as int),
        decreases fields.len() - i,
    {
        let mut p = fields[i].name.to_owned();
        p.append(": ");
        p.append(fields[i].value.as_str());
        let ghost before = parts@;
        parts.push(p);
        proof {
            text::texts_push(before, p);
            assert(text::texts(parts@) =~= goal.take(i + 1));
        }
        i += 1;
    }
    proof {
        assert(goal.take(i as int) =~= goal);
    }
    let mut s = name.to_owned();
    s.append(" { ");
    s.append(text::join(&parts, ", ").as_str());
    s.append(" }");
    s
}

/// A list of values that are in words already.
pub fn list_words(items: &Vec<String>) -> (s: String)
    ensures
        s@ == list_text(text::texts(items@)),
{
    let mut s = "[".to_owned();
    s.append(text::join(items, ", ").as_str());
    s.append("]");
    s
}

fn bool_words(b: bool) -> (s: String)
    ensures
        s@ == bool_text(b),
{
    if b {
        "true".to_owned()
    } else {
        "false".to_owned()
    }
}

fn quoted_field(name: &'static str, value: &str) -> (f: Field)
    ensures
        f@ == (name@, text::debug_quoted(value@)),
{
    Field { name, value: text::to_debug_quoted(value) }
}

/// A session in words.
pub fn session_words(x: &Session) -> (s: String)
    ensures
        s@ == session_text(x@),
{
    let fields = vec![
        quoted_field("source", x.source.as_str()),
        quoted_field("name", x.name.as_str()),
        quoted_field("mux", x.mux.as_str()),
        Field { name: "windows", value: number::print_i64(x.windows) },
        Field { name: "attached", value: bool_words(x.attached) },
    ];
    proof {
        assert(field_views(fields@) =~= seq![
            ("source"@, text::debug_quoted(x.source@)),
            ("name"@, text::debug_quoted(x.name@)),
            ("mux"@, text::debug_quoted(x.mux@)),
            ("windows"@, number::signed_decimal(x.windows as int)),
            ("attached"@, bool_text(x.attached)),
        ]);
    }
    struct_words("Session", &fields)
}

fn sessions_words(v: &Vec<Session>) -> (s: String)
    ensures
        s@ == sessions_text(session_views(v@)),
{
    let mut items: Vec<String> = Vec::new();
    let mut i: usize = 0;
    while i < v.len()
        invariant
            i <= v@.len(),
            items@.len() == i,
            forall|j: int| 0 <= j < i ==> (#[trigger] items@[j])@ == session_text(v@[j]@),
        decreases v.len() - i,
    {
        items.push(session_words(&v[i]));
        i += 1;
    }
    proof {
        assert(text::texts(items@) =~= session_views(v@).map_values(
            |s: SessionView| session_text(s),
        ));
    }
    list_words(&items)
}

fn names_words(v: &Vec<String>) -> (s: String)
    ensures
        s@ == list_text(text::texts(v@).map_values(|m: Seq<char>| text::debug_quoted(m))),
{
    let mut items: Vec<String> = Vec::new();
    let mut i: usize = 0;
    while i < v.len()
        invariant
            i <= v@.len(),
            items@.len() == i,
            forall|j: int| 0 <= j < i ==> (#[trigger] items@[j])@ == text::debug_quoted(v@[j]@),
        decreases v.len() - i,
    {
        items.push(text::to_debug_quoted(v[i].as_str()));
        i += 1;
    }
    proof {
        assert(text::texts(items@) =~= text::texts(v@).map_values(
            |m: Seq<char>| text::debug_quoted(m),
        ));
    }
    list_words(&items)
}

impl EventEffect {
    /// The effect in words, for a log or a message.
    pub fn describe(&self) -> (s: String)
        ensures
            ({
                let (name, fields) = effect_parts(*self);
                s@ == struct_text(name, fields)
            }),
    {
        let (name, fields): (&str, Vec<Field>) = match self {
            EventEffect::ApplyInventory { host, sessions } => (
                "ApplyInventory",
                vec![
                    quoted_field("host", host.as_str()),
                    Field { name: "sessions", value: sessions_words(sessions) },
                ],
            ),
            EventEffect::Refetch { host } => (
                "Refetch",
                vec![quoted_field("host", host.as_str())],
            ),
            EventEffect::AddDiscoveredSources { machine, muxes } => (
                "AddDiscoveredSources",
                vec![
                    quoted_field("machine", machine.as_str()),
                    Field { name: "muxes", value: names_words(muxes) },
                ],
            ),
            EventEffect::ApplyRoster { roster } => (
                "ApplyRoster",
                vec![
                    Field { name: "sources", value: number::print(roster.sources.len() as u64) },
                ],
            ),
            EventEffect::ReapHost { host } => (
                "ReapHost",
                vec![quoted_field("host", host.as_str())],
            ),
            EventEffect::ReapDisplayAttach { host, client } => (
                "ReapDisplayAttach",
                vec![
                    quoted_field("host", host.as_str()),
                    quoted_field("client", client.as_str()),
                ],
            ),
            EventEffect::FollowDisplaySession { host, client, session } => (
                "FollowDisplaySession",
                vec![
                    quoted_field("host", host.as_str()),
                    quoted_field("client", client.as_str()),
                    quoted_field("session", session.as_str()),
                ],
            ),
            EventEffect::DispatchScanned { source, detected } => (
                "DispatchScanned",
                vec![
                    quoted_field("source", source.as_str()),
                    Field { name: "detected_some", value: bool_words(detected.is_some()) },
                ],
            ),
            EventEffect::SyncPollSessions { source, sessions } => (
                "SyncPollSessions",
                vec![
                    quoted_field("source", source.as_str()),
                    Field { name: "sessions", value: sessions_words(sessions) },
                ],
            ),
            EventEffect::RecordDisplayTty { host, tty } => {
                let value = match tty {
                    Some(t) => {
                        let mut v = "Some(".to_owned();
                        v.append(text::to_debug_quoted(t.as_str()).as_str());
                        v.append(")");
                        v
                    },
                    None => "None".to_owned(),
                };
                (
                    "RecordDisplayTty",
                    vec![quoted_field("host", host.as_str()), Field { name: "tty", value }],
                )
            },
            EventEffect::MachineConnected { machine, rescan } => (
                "MachineConnected",
                vec![
                    quoted_field("machine", machine.as_str()),
                    Field { name: "rescan", value: bool_words(*rescan) },
                ],
            ),
        };
        proof {
            assert(field_views(fields@) =~= effect_parts(*self).1);
        }
        struct_words(name, &fields)
    }
}

// ---------------------------------------------------------------------------
// Focus
// ---------------------------------------------------------------------------

/// The view that a focus command names.
#[derive(Clone, Copy, Debug, PartialEq, Eq, Structural)]
pub enum FocusTarget {
    Nav,
    Terminal,
}

impl FocusTarget {
    /// The view that `s` names: `nav`, or `terminal` with its alias `mux`, with white
    /// space around it ignored.
    pub open spec fn named(s: Seq<char>) -> Option<FocusTarget> {
        if text::trimmed(s) == "nav"@ {
            Some(FocusTarget::Nav)
        } else if text::trimmed(s) == "terminal"@ || text::trimmed(s) == "mux"@ {
            Some(FocusTarget::Terminal)
        } else {
            None
        }
    }

    /// Reads the argument of the `focus` command.
    pub fn from_str(s: &str) -> (r: Option<FocusTarget>)
        ensures
            r == Self::named(s@),
    {
        let t = text::trim(s);
        if text::same(t.as_str(), "nav") {
            Some(FocusTarget::Nav)
        } else if text::same(t.as_str(), "terminal") || text::same(t.as_str(), "mux") {
            Some(FocusTarget::Terminal)
        } else {
            None
        }
    }
}

/// A view is named by its word, with white space around it or not, and by no other.
pub proof fn views_are_told_by_name(s: Seq<char>)
    ensures
        FocusTarget::named(s) == Some(FocusTarget::Nav) <==> text::trimmed(s) == "nav"@,
        FocusTarget::named(s) == Some(FocusTarget::Terminal) <==> text::trimmed(s) == "terminal"@
            || text::trimmed(s) == "mux"@,
{
    reveal_strlit("nav");
    reveal_strlit("terminal");
    reveal_strlit("mux");
    assert("nav"@.len() == 3 && "terminal"@.len() == 8 && "mux"@.len() == 3 && "nav"@[0] != "mux"@[0]);
}

// ---------------------------------------------------------------------------
// Laws of effects in words
// ---------------------------------------------------------------------------

proof fn fields_in_words(name: Seq<char>, a: (Seq<char>, Seq<char>), b: (Seq<char>, Seq<char>), c: (
    Seq<char>,
    Seq<char>,
))
    ensures
        struct_text(name, seq![a]) == name + " { "@ + (a.0 + ": "@ + a.1) + " }"@,
        struct_text(name, seq![a, b]) == name + " { "@ + (a.0 + ": "@ + a.1 + ", "@ + (b.0 + ": "@
            + b.1)) + " }"@,
        struct_text(name, seq![a, b, c]) == name + " { "@ + (a.0 + ": "@ + a.1 + ", "@ + (b.0
            + ": "@ + b.1) + ", "@ + (c.0 + ": "@ + c.1)) + " }"@,
{
    let f = |f: (Seq<char>, Seq<char>)| field_text(f);
    let one = seq![a].map_values(f);
    let two = seq![a, b].map_values(f);
    let three = seq![a, b, c].map_values(f);
    assert(one =~= seq![field_text(a)]);
    assert(two =~= seq![field_text(a), field_text(b)]);
    assert(three =~= seq![field_text(a), field_text(b), field_text(c)]);
    reveal_with_fuel(text::joined, 4);
    assert(two.drop_last() =~= one);
    assert(three.drop_last() =~= two);
    assert(text::joined(two, ", "@) =~= field_text(a) + ", "@ + field_text(b));
}

/// What an effect in words is: its name and its fields, each with its value, in order.
pub open spec fn in_words(e: EventEffect) -> Seq<char> {
    let (name, fields) = effect_parts(e);
    struct_text(name, fields)
}

/// Effects are told by their names, with the host, the client and the session in quotes under
/// their own names.
pub proof fn effects_are_told_by_name(
    host: String,
    client: String,
    session: String,
    machine: String,
    rescan: bool,
    tty: String,
)
    ensures
        in_words(EventEffect::Refetch { host }) == "Refetch"@ + " { "@ + ("host"@ + ": "@
            + text::debug_quoted(host@)) + " }"@,
        in_words(EventEffect::ReapHost { host }) == "ReapHost"@ + " { "@ + ("host"@ + ": "@
            + text::debug_quoted(host@)) + " }"@,
        in_words(EventEffect::ReapDisplayAttach { host, client }) == "ReapDisplayAttach"@ + " { "@ + (
        "host"@ + ": "@ + text::debug_quoted(host@) + ", "@ + ("client"@ + ": "@
            + text::debug_quoted(client@))) + " }"@,
        in_words(EventEffect::FollowDisplaySession { host, client, session })
            == "FollowDisplaySession"@ + " { "@ + ("host"@ + ": "@ + text::debug_quoted(host@)
            + ", "@ + ("client"@ + ": "@ + text::debug_quoted(client@)) + ", "@ + ("session"@
            + ": "@ + text::debug_quoted(session@))) + " }"@,
        in_words(EventEffect::MachineConnected { machine, rescan }) == "MachineConnected"@ + " { "@
            + ("machine"@ + ": "@ + text::debug_quoted(machine@) + ", "@ + ("rescan"@ + ": "@
            + if rescan {
            "true"@
        } else {
            "false"@
        })) + " }"@,
        in_words(EventEffect::RecordDisplayTty { host, tty: Some(tty) }) == "RecordDisplayTty"@
            + " { "@ + ("host"@ + ": "@ + text::debug_quoted(host@) + ", "@ + ("tty"@ + ": "@ + (
        "Some("@ + text::debug_quoted(tty@) + ")"@))) + " }"@,
        in_words(EventEffect::RecordDisplayTty { host, tty: None }) == "RecordDisplayTty"@ + " { "@
            + ("host"@ + ": "@ + text::debug_quoted(host@) + ", "@ + ("tty"@ + ": "@ + "None"@))
            + " }"@,
{
    let h = ("host"@, text::debug_quoted(host@));
    let c = ("client"@, text::debug_quoted(client@));
    let s = ("session"@, text::debug_quoted(session@));
    fields_in_words("Refetch"@, h, c, s);
    fields_in_words("ReapHost"@, h, c, s);
    fields_in_words("ReapDisplayAttach"@, h, c, s);
    fields_in_words("FollowDisplaySession"@, h, c, s);
    fields_in_words(
        "MachineConnected"@,
        ("machine"@, text::debug_quoted(machine@)),
        ("rescan"@, bool_text(rescan)),
        s,
    );
    fields_in_words(
        "RecordDisplayTty"@,
        h,
        ("tty"@, "Some("@ + text::debug_quoted(tty@) + ")"@),
        s,
    );
    fields_in_words("RecordDisplayTty"@, h, ("tty"@, "None"@), s);
    let some = ("tty"@, "Some("@ + text::debug_quoted(tty@) + ")"@);
    assert(effect_parts(EventEffect::RecordDisplayTty { host, tty: Some(tty) }).1 =~= seq![h, some]);
    assert(effect_parts(EventEffect::RecordDisplayTty { host, tty: None }).1 =~= seq![
        h,
        ("tty"@, "None"@),
    ]);
}

} // verus!
