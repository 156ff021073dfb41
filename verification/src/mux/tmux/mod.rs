//! tmux: one server for all sessions, a control-mode stream, and one client per host
//! that is moved from session to session.
use crate::model::plan::DeathSignal;
use crate::model::server_model::ServerModel;
use crate::model::source::{RunError, RunErrorView};
use crate::mux::control::TmuxControl;
use crate::mux::vocab::{self, argv};
use crate::mux::{
    answers, argvs, attach_of, changes_of, control_of, dies_of, is_no_sessions, like_tmux,
    listing_of, named_of, probes_of, reply_view, serves_of, EventSource, Kind, Listed, ListedView,
    Mux, MuxView, named_mux, named_mux_excluding, SwitchPlan, SwitchPlanView,
};
use crate::session::{session_views, Session, SessionView};
use crate::shell;
use crate::text;
use vstd::prelude::*;

pub mod display;

verus! {

/// tmux.
pub struct Tmux {
    pub bin: String,
}

/// A character that may stand in a file name that a shell reads; any other becomes an
/// underscore.
pub open spec fn safe_char(c: char) -> char {
    if shell::alphanumeric(c) || c == '_' || c == '-' || c == '.' {
        c
    } else {
        '_'
    }
}

/// The file in which the display client on a host records its own tty.
pub open spec fn tty_path(host_key: Seq<char>) -> Seq<char> {
    "/tmp/.xmux-cli-"@ + host_key.map_values(|c: char| safe_char(c))
}

/// The file in which the display client on a host records its own tty: one per host,
/// so that a switch reads the tty of this very client, and moves no other. The name of
/// the host is made safe, for the path stands in a shell command.
pub fn display_tty_path(host_key: &str) -> (p: String)
    ensures
        p@ == tty_path(host_key@),
{
    let cs = text::chars_of(host_key);
    let mut p = "/tmp/.xmux-cli-".to_owned();
    let ghost start = p@;
    let ghost safe = host_key@.map_values(|c: char| safe_char(c));
    let mut i: usize = 0;
    proof {
        assert(p@ =~= start + safe.take(0));
    }
    while i < cs.len()
        invariant
            cs@ == host_key@,
            i <= cs@.len(),
            safe == host_key@.map_values(|c: char| safe_char(c)),
            p@ == start + safe.take(i as int),
        decreases cs.len() - i,
    {
        let c = cs[i];
        if shell::is_alphanumeric(c) || c == '_' || c == '-' || c == '.' {
            p.push(c);
        } else {
            p.push('_');
        }
        proof {
            assert(safe.take(i + 1) =~= safe.take(i as int).push(safe_char(c)));
            assert(p@ =~= start + safe.take(i + 1));
        }
        i += 1;
    }
    proof {
        assert(safe.take(i as int) =~= safe);
    }
    p
}

/// The shell prefix that records the tty.
pub open spec fn recording(host_key: Seq<char>) -> Seq<char> {
    "tty >"@ + tty_path(host_key) + " 2>/dev/null; "@
}

/// The shell prefix by which an attach records its own tty before it is run. It goes
/// to a file, and not through the terminal, which may swallow it.
pub fn record_prefix(host_key: &str) -> (s: String)
    ensures
        s@ == recording(host_key@),
{
    let mut s = "tty >".to_owned();
    s.append(display_tty_path(host_key).as_str());
    s.append(" 2>/dev/null; ");
    s
}

/// The shell command that moves the display client: it reads the tty that the client
/// has recorded, and only where there is one moves that client, and has it drawn anew.
pub open spec fn switch_command(bin: Seq<char>, host_key: Seq<char>, session: Seq<char>) -> Seq<
    char,
> {
    "c=$(cat "@ + tty_path(host_key) + " 2>/dev/null); [ -n \"$c\" ] && { "@ + bin
        + " switch-client -c \"$c\" -t "@ + vocab::target_text(session) + "; "@ + bin
        + " refresh-client -t \"$c\"; }"@
}

impl Mux for Tmux {
    open spec fn kind_text(&self) -> Seq<char> {
        "tmux"@
    }

    open spec fn bin_text(&self) -> Seq<char> {
        self.bin@
    }

    open spec fn probe_words(&self) -> Seq<Seq<Seq<char>>> {
        probes_of(MuxView { kind: Kind::Tmux, bin: self.bin@ })
    }

    open spec fn named_by(&self, outputs: Seq<Option<Seq<char>>>) -> Option<Seq<char>> {
        named_of(Kind::Tmux, outputs)
    }

    open spec fn serves(&self) -> ServerModel {
        serves_of(Kind::Tmux)
    }

    open spec fn knows_sockets(&self) -> bool {
        like_tmux(Kind::Tmux)
    }

    open spec fn names_sessions(&self) -> bool {
        like_tmux(Kind::Tmux)
    }

    open spec fn listing(
        &self,
        known: ListedView,
        reply: Result<Seq<char>, RunErrorView>,
    ) -> Result<Seq<SessionView>, RunErrorView> {
        listing_of(Kind::Tmux, known, reply)
    }

    open spec fn attach_words(&self, session: Seq<char>) -> Seq<Seq<char>> {
        attach_of(MuxView { kind: Kind::Tmux, bin: self.bin@ }, session)
    }

    open spec fn control_words(&self) -> Option<Seq<Seq<char>>> {
        control_of(MuxView { kind: Kind::Tmux, bin: self.bin@ })
    }

    open spec fn dies_by(&self) -> DeathSignal {
        dies_of(Kind::Tmux)
    }

    open spec fn changes_by(&self) -> EventSource {
        changes_of(Kind::Tmux)
    }

    fn kind(&self) -> (k: &str) {
        "tmux"
    }

    fn bin(&self) -> (b: &str) {
        self.bin.as_str()
    }

    /// `help` is asked before `-V`: a psmux that is called tmux mimics the version, and
    /// names itself in its help.
    fn identity_probes(&self) -> (v: Vec<Vec<String>>) {
        let mut v: Vec<Vec<String>> = Vec::new();
        v.push(argv(&[self.bin.as_str(), "help"]));
        v.push(argv(&[self.bin.as_str(), "-V"]));
        proof {
            assert(text::texts(v@[0]@) =~= seq![self.bin@, "help"@]);
            assert(text::texts(v@[1]@) =~= seq![self.bin@, "-V"@]);
            assert(argvs(v@) =~= self.probe_words());
        }
        v
    }

    fn classify_identity(&self, outputs: &[Option<String>]) -> (k: Option<&'static str>) {
        proof {
            assert(forall|i: int|
                0 <= i < outputs@.len() ==> #[trigger] answers(outputs@)[i] == text::opt_text(
                    outputs@[i],
                ));
        }
        if outputs.len() > 0 {
            if let Some(help) = &outputs[0] {
                let other = named_mux_excluding(help.as_str(), "tmux");
                if other.is_some() {
                    return other;
                }
            }
        }
        if outputs.len() > 1 {
            if let Some(version) = &outputs[1] {
                return named_mux(version.as_str());
            }
        }
        None
    }

    fn server_model(&self) -> (m: ServerModel) {
        ServerModel::Shared
    }

    fn takes_server_socket(&self) -> (r: bool) {
        true
    }

    fn assigns_new_session_name(&self) -> (r: bool) {
        true
    }

    fn read_listing(&self, known: &Listed, reply: Result<String, RunError>) -> (r: Result<
        Vec<Session>,
        RunError,
    >) {
        assert(self.listing(known@, reply_view(reply)) == listing_of(
            Kind::Tmux,
            known@,
            reply_view(reply),
        ));
        match reply {
            Ok(out) => Ok(vocab::parse_sessions(known.source.as_str(), "tmux", out.as_str())),
            Err(e) => if is_no_sessions(&e) {
                let none: Vec<Session> = Vec::new();
                proof {
                    assert(session_views(none@) =~= Seq::empty());
                }
                Ok(none)
            } else {
                Err(e)
            },
        }
    }

    fn attach_plan(&self, session: &str) -> (v: Vec<String>) {
        vocab::attach(self.bin.as_str(), session)
    }

    /// The tty is the one that the client on this host has recorded; `display_tty` is
    /// not needed. The command is for the shell of the host: where there is none, the
    /// client attaches anew.
    fn switch_in_place(&self, host_key: &str, session: &str, display_tty: Option<&str>) -> (p:
        Option<SwitchPlan>)
        ensures
            p matches Some(s) && s@ == (SwitchPlanView::Shell(
                switch_command(self.bin@, host_key@, session@),
            )),
    {
        let target = vocab::quote_target(session);
        let mut s = "c=$(cat ".to_owned();
        s.append(display_tty_path(host_key).as_str());
        s.append(" 2>/dev/null); [ -n \"$c\" ] && { ");
        s.append(self.bin.as_str());
        s.append(" switch-client -c \"$c\" -t ");
        s.append(target.as_str());
        s.append("; ");
        s.append(self.bin.as_str());
        s.append(" refresh-client -t \"$c\"; }");
        Some(SwitchPlan::Shell(s))
    }

    fn control_argv(&self) -> (r: Option<Vec<String>>) {
        let v = argv(&[self.bin.as_str(), "-CC", "attach"]);
        proof {
            assert(text::texts(v@) =~= seq![self.bin@, "-CC"@, "attach"@]);
        }
        Some(v)
    }

    fn control_protocol(&self) -> (r: Option<TmuxControl>)
        ensures
            r is Some,
    {
        Some(TmuxControl)
    }

    fn death_signal(&self) -> (d: DeathSignal) {
        DeathSignal::ControlNotice
    }

    fn event_source(&self) -> (e: EventSource) {
        EventSource::Control
    }
}

/// Whatever a host is called, the path of its tty file is one word to a shell, and the
/// word is the path.
pub proof fn tty_path_is_one_word(host_key: Seq<char>)
    ensures
        shell::shell_words(tty_path(host_key)) == seq![tty_path(host_key)],
{
    reveal_strlit("/tmp/.xmux-cli-");
    let t = tty_path(host_key);
    assert forall|i: int| 0 <= i < t.len() implies shell::plain(#[trigger] t[i]) by {
        if i >= 15 {
            assert(t[i] == safe_char(host_key[i - 15]));
        }
    }
    shell::word_reads_back(t);
    assert(shell::quoted(t) == t);
}

/// The file of a host's tty is named after the host, character by character: a letter or digit
/// of ASCII, an underscore, a dash or a dot is kept, and any other is an underscore.
pub proof fn tty_file_is_named_after_the_host(host_key: Seq<char>, i: int)
    requires
        0 <= i < host_key.len(),
    ensures
        ({
            let c = host_key[i];
            let p = tty_path(host_key);
            let kept = ('a' <= c && c <= 'z') || ('A' <= c && c <= 'Z') || ('0' <= c && c <= '9')
                || c == '_' || c == '-' || c == '.';
            &&& p.len() == 15 + host_key.len()
            &&& p.take(15) == "/tmp/.xmux-cli-"@
            &&& kept ==> p[15 + i] == c
            &&& !kept ==> p[15 + i] == '_'
        }),
{
    reveal_strlit("/tmp/.xmux-cli-");
    let p = tty_path(host_key);
    assert(p.take(15) =~= "/tmp/.xmux-cli-"@);
    assert(p[15 + i] == safe_char(host_key[i]));
}

/// An attach records its tty in the file that a switch reads it from; the switch moves that
/// client, and no other, to the session, which the shell reads as one word, and has it drawn
/// anew.
pub proof fn switch_moves_the_recorded_client(bin: Seq<char>, host_key: Seq<char>, session: Seq<char>)
    ensures
        recording(host_key) == "tty >"@ + tty_path(host_key) + " 2>/dev/null; "@,
        switch_command(bin, host_key, session) == "c=$(cat "@ + tty_path(host_key)
            + " 2>/dev/null); [ -n \"$c\" ] && { "@ + bin + " switch-client -c \"$c\" -t "@
            + vocab::target_text(session) + "; "@ + bin + " refresh-client -t \"$c\"; }"@,
        shell::shell_words(vocab::target_text(session)) == seq![session],
        shell::shell_words(tty_path(host_key)) == seq![tty_path(host_key)],
{
    vocab::target_is_one_word(session);
    tty_path_is_one_word(host_key);
}

} // verus!
