//! The machine boundary: how a mux argv reaches the server. Which mux runs there is
//! another matter; this assembles argv alone.
use crate::model::plan::{SwitchPlan, SwitchPlanView};
use crate::session::LOCAL_SOURCE;
use crate::shell;
use crate::text;
use vstd::prelude::*;

verus! {

/// How a machine is reached.
#[derive(Clone, Debug, PartialEq, Eq)]
pub enum Transport {
    /// This machine. `socket` is that of a mux server other than the default one.
    Local { socket: Option<String> },
    /// A machine over ssh. `control_path` is the ControlMaster socket, empty where
    /// connections are not shared; `os` is the platform on this side.
    Ssh { alias: String, control_path: String, os: String },
}

/// A [`Transport`] with its texts as sequences.
pub enum TransportView {
    Local { socket: Option<Seq<char>> },
    Ssh { alias: Seq<char>, control_path: Seq<char>, os: Seq<char> },
}

impl View for Transport {
    type V = TransportView;

    open spec fn view(&self) -> TransportView {
        match self {
            Transport::Local { socket } => TransportView::Local { socket: text::opt_text(*socket) },
            Transport::Ssh { alias, control_path, os } => TransportView::Ssh {
                alias: alias@,
                control_path: control_path@,
                os: os@,
            },
        }
    }
}

/// How a switch is run.
#[derive(Clone, Debug, PartialEq, Eq)]
pub enum LoweredSwitch {
    /// A mux argv to run here.
    Local(Vec<String>),
    /// An ssh argv that carries a remote command.
    RawSsh(Vec<String>),
}

/// A [`LoweredSwitch`] with its texts as sequences.
pub enum LoweredSwitchView {
    Local(Seq<Seq<char>>),
    RawSsh(Seq<Seq<char>>),
}

impl View for LoweredSwitch {
    type V = LoweredSwitchView;

    open spec fn view(&self) -> LoweredSwitchView {
        match self {
            LoweredSwitch::Local(v) => LoweredSwitchView::Local(text::texts(v@)),
            LoweredSwitch::RawSsh(v) => LoweredSwitchView::RawSsh(text::texts(v@)),
        }
    }
}

/// The id of the machine that a transport reaches.
pub open spec fn transport_id(t: TransportView) -> Seq<char> {
    match t {
        TransportView::Local { .. } => LOCAL_SOURCE@,
        TransportView::Ssh { alias, .. } => alias,
    }
}

/// The `-S <socket>` that names a server other than the default one.
pub open spec fn socket_words(socket: Option<Seq<char>>) -> Seq<Seq<char>> {
    match socket {
        Some(path) => if path.len() > 0 {
            seq!["-S"@, path]
        } else {
            Seq::empty()
        },
        None => Seq::empty(),
    }
}

/// The options that share a connection: on a side that is not Windows, where there is
/// a control path.
pub open spec fn sharing_words(control_path: Seq<char>, os: Seq<char>) -> Seq<Seq<char>> {
    if os != "windows"@ && control_path.len() > 0 {
        seq![
            "-o"@,
            "ControlMaster=auto"@,
            "-o"@,
            "ControlPath="@ + control_path,
            "-o"@,
            "ControlPersist=60s"@,
        ]
    } else {
        Seq::empty()
    }
}

/// The ssh options before the remote command: a terminal, so that ssh can ask, or
/// batch mode, so that it never waits; a bound on the connect; and `--` before the
/// alias, so that one that begins with a dash is no option.
pub open spec fn ssh_words(t: TransportView, tty: bool) -> Seq<Seq<char>> {
    match t {
        TransportView::Local { .. } => Seq::empty(),
        TransportView::Ssh { alias, control_path, os } => (if tty {
            seq!["-t"@]
        } else {
            seq!["-o"@, "BatchMode=yes"@]
        }) + seq!["-o"@, "ConnectTimeout=5"@] + sharing_words(control_path, os) + seq![
            "--"@,
            alias,
        ],
    }
}

/// The command and the arguments that run a mux argv over a transport.
pub open spec fn exec_words(t: TransportView, tty: bool, argv: Seq<Seq<char>>) -> (
    Seq<char>,
    Seq<Seq<char>>,
) {
    match t {
        TransportView::Local { socket } => (argv[0], socket_words(socket) + argv.skip(1)),
        TransportView::Ssh { .. } => ("ssh"@, ssh_words(t, tty).push(shell::command(argv))),
    }
}

/// The command that hands the terminal over to an attach: here the attach as it is; over
/// ssh one connection that selects the window, where one is asked for, and is then
/// replaced by the attach.
pub open spec fn interactive_words(
    t: TransportView,
    attach: Seq<Seq<char>>,
    select: Option<Seq<Seq<char>>>,
) -> (Seq<char>, Seq<Seq<char>>) {
    match t {
        TransportView::Local { socket } => (attach[0], socket_words(socket) + attach.skip(1)),
        TransportView::Ssh { .. } => (
            "ssh"@,
            ssh_words(t, true).push(
                match select {
                    Some(words) => shell::command(words) + " ; exec "@ + shell::command(attach),
                    None => "exec "@ + shell::command(attach),
                },
            ),
        ),
    }
}

/// The argv of a control-mode child.
pub open spec fn control_words(t: TransportView, argv: Seq<Seq<char>>) -> Seq<Seq<char>> {
    match t {
        TransportView::Local { socket } => seq![argv[0]] + socket_words(socket) + argv.skip(1),
        TransportView::Ssh { .. } => (seq!["ssh"@, "-tt"@] + ssh_words(t, false)).push(
            shell::command(argv),
        ),
    }
}

/// The argv that runs a shell command on the machine of a transport; none for this
/// machine.
pub open spec fn raw_words(t: TransportView, command: Seq<char>) -> Option<Seq<Seq<char>>> {
    match t {
        TransportView::Local { .. } => None,
        TransportView::Ssh { .. } => Some((seq!["ssh"@] + ssh_words(t, false)).push(command)),
    }
}

/// How a switch, whose mux argv is `argv`, is run over a transport.
pub open spec fn lowered(t: TransportView, argv: Seq<Seq<char>>) -> LoweredSwitchView {
    match t {
        TransportView::Local { .. } => LoweredSwitchView::Local(argv),
        TransportView::Ssh { .. } => LoweredSwitchView::RawSsh(
            (seq!["ssh"@] + ssh_words(t, false)).push(shell::command(argv)),
        ),
    }
}

/// Appends the words of `more` from the `from`th on.
fn append_words(v: &mut Vec<String>, more: &[String], from: usize)
    requires
        from <= more@.len(),
    ensures
        text::texts(final(v)@) == text::texts(old(v)@) + text::texts(more@).skip(from as int),
{
    let mut i: usize = from;
    while i < more.len()
        invariant
            from <= i <= more@.len(),
            v@.len() == old(v)@.len() + i - from,
            forall|j: int| 0 <= j < old(v)@.len() ==> v@[j] == old(v)@[j],
            forall|j: int|
                0 <= j < i - from ==> (#[trigger] v@[old(v)@.len() + j])@ == more@[from + j]@,
        decreases more.len() - i,
    {
        v.push(more[i].clone());
        i += 1;
    }
    proof {
        let a = text::texts(v@);
        let b = text::texts(old(v)@) + text::texts(more@).skip(from as int);
        assert forall|j: int| 0 <= j < a.len() implies a[j] == b[j] by {
            if j >= old(v)@.len() {
                assert(v@[old(v)@.len() + (j - old(v)@.len())]@ == more@[from + (j - old(
                    v,
                )@.len())]@);
            }
        }
        assert(a =~= b);
    }
}

/// Appends one word.
fn append_word(v: &mut Vec<String>, word: String)
    ensures
        text::texts(final(v)@) == text::texts(old(v)@).push(word@),
{
    v.push(word);
    proof {
        text::texts_push(old(v)@, word);
    }
}

impl Transport {
    /// `local`, or the ssh alias.
    pub fn host_id(&self) -> (id: &str)
        ensures
            id@ == transport_id(self@),
    {
        match self {
            Transport::Local { .. } => LOCAL_SOURCE,
            Transport::Ssh { alias, .. } => alias.as_str(),
        }
    }

    /// A copy.
    pub fn copied(&self) -> (t: Transport)
        ensures
            t@ == self@,
    {
        match self {
            Transport::Local { socket } => Transport::Local {
                socket: match socket {
                    Some(s) => Some(s.clone()),
                    None => None,
                },
            },
            Transport::Ssh { alias, control_path, os } => Transport::Ssh {
                alias: alias.clone(),
                control_path: control_path.clone(),
                os: os.clone(),
            },
        }
    }

    /// Whether the machine is another one.
    pub fn is_remote(&self) -> (r: bool)
        ensures
            r == (self@ is Ssh),
    {
        matches!(self, Transport::Ssh { .. })
    }

    /// The words that name a server other than the default one.
    fn socket_flag(socket: &Option<String>) -> (v: Vec<String>)
        ensures
            text::texts(v@) == socket_words(text::opt_text(*socket)),
    {
        let mut v: Vec<String> = Vec::new();
        if let Some(path) = socket {
            if !path.as_str().is_empty() {
                v.push("-S".to_owned());
                v.push(path.clone());
            }
        }
        proof {
            assert(text::texts(v@) =~= socket_words(text::opt_text(*socket)));
        }
        v
    }

    /// The ssh options before the remote command, up to `-- <alias>`.
    pub fn ssh_opts(&self, tty: bool) -> (a: Vec<String>)
        ensures
            text::texts(a@) == ssh_words(self@, tty),
    {
        match self {
            Transport::Local { .. } => {
                let a: Vec<String> = Vec::new();
                proof {
                    assert(text::texts(a@) =~= Seq::empty());
                }
                a
            },
            Transport::Ssh { alias, control_path, os } => {
                let mut a: Vec<String> = Vec::new();
                if tty {
                    a.push("-t".to_owned());
                } else {
                    a.push("-o".to_owned());
                    a.push("BatchMode=yes".to_owned());
                }
                a.push("-o".to_owned());
                a.push("ConnectTimeout=5".to_owned());
                if !text::same(os.as_str(), "windows") && !control_path.as_str().is_empty() {
                    a.push("-o".to_owned());
                    a.push("ControlMaster=auto".to_owned());
                    a.push("-o".to_owned());
                    let mut path = "ControlPath=".to_owned();
                    path.append(control_path.as_str());
                    a.push(path);
                    a.push("-o".to_owned());
                    a.push("ControlPersist=60s".to_owned());
                }
                a.push("--".to_owned());
                a.push(alias.clone());
                proof {
                    assert(text::texts(a@) =~= ssh_words(self@, tty));
                }
                a
            },
        }
    }

    /// The command and the arguments that run a mux argv.
    pub fn exec_argv(&self, tty: bool, mux_argv: &[String]) -> (r: (String, Vec<String>))
        requires
            mux_argv@.len() > 0,
        ensures
            (r.0@, text::texts(r.1@)) == exec_words(self@, tty, text::texts(mux_argv@)),
    {
        match self {
            Transport::Local { socket } => {
                let mut args = Transport::socket_flag(socket);
                append_words(&mut args, mux_argv, 1);
                (mux_argv[0].clone(), args)
            },
            Transport::Ssh { .. } => {
                let mut args = self.ssh_opts(tty);
                append_word(&mut args, shell::remote_command(mux_argv));
                ("ssh".to_owned(), args)
            },
        }
    }

    /// Whether commands go through a shell on the machine.
    pub fn runs_through_shell(&self) -> (r: bool)
        ensures
            r == (self@ is Ssh),
    {
        self.is_remote()
    }

    /// The command and the arguments that hand the terminal over to an attach. Over ssh
    /// the selection of a window is part of the same connection; here it is a command of
    /// its own, which is not part of this one.
    pub fn interactive_attach_argv(&self, attach: &[String], pre_select: Option<Vec<String>>) -> (r:
        (String, Vec<String>))
        requires
            attach@.len() > 0,
        ensures
            (r.0@, text::texts(r.1@)) == interactive_words(
                self@,
                text::texts(attach@),
                match pre_select {
                    Some(v) => Some(text::texts(v@)),
                    None => None,
                },
            ),
    {
        match self {
            Transport::Local { socket } => {
                let mut args = Transport::socket_flag(socket);
                append_words(&mut args, attach, 1);
                (attach[0].clone(), args)
            },
            Transport::Ssh { .. } => {
                let mut args = self.ssh_opts(true);
                let line = match pre_select {
                    Some(words) => {
                        let mut line = shell::remote_command(words.as_slice());
                        line.append(" ; exec ");
                        line.append(shell::remote_command(attach).as_str());
                        line
                    },
                    None => {
                        let mut line = "exec ".to_owned();
                        line.append(shell::remote_command(attach).as_str());
                        line
                    },
                };
                append_word(&mut args, line);
                ("ssh".to_owned(), args)
            },
        }
    }

    /// The argv of a control-mode child. Over ssh a terminal is forced, for without
    /// one the child ends before it has said anything.
    pub fn control_argv(&self, mux_control_argv: &[String]) -> (v: Vec<String>)
        requires
            mux_control_argv@.len() > 0,
        ensures
            text::texts(v@) == control_words(self@, text::texts(mux_control_argv@)),
    {
        let mut v: Vec<String> = Vec::new();
        match self {
            Transport::Local { socket } => {
                v.push(mux_control_argv[0].clone());
                let flag = Transport::socket_flag(socket);
                proof {
                    assert(text::texts(v@) =~= seq![mux_control_argv@[0]@]);
                    assert(text::texts(flag@).skip(0) =~= text::texts(flag@));
                }
                append_words(&mut v, flag.as_slice(), 0);
                append_words(&mut v, mux_control_argv, 1);
                v
            },
            Transport::Ssh { .. } => {
                v.push("ssh".to_owned());
                v.push("-tt".to_owned());
                let opts = self.ssh_opts(false);
                proof {
                    assert(text::texts(v@) =~= seq!["ssh"@, "-tt"@]);
                    assert(text::texts(opts@).skip(0) =~= text::texts(opts@));
                }
                append_words(&mut v, opts.as_slice(), 0);
                append_word(&mut v, shell::remote_command(mux_control_argv));
                v
            },
        }
    }

    /// The argv that runs a shell command on the machine; none for this machine. What
    /// the command holds of others' making is to be quoted.
    pub fn raw_ssh_argv(&self, remote_cmd: &str) -> (r: Option<Vec<String>>)
        ensures
            match r {
                Some(v) => raw_words(self@, remote_cmd@) == Some(text::texts(v@)),
                None => raw_words(self@, remote_cmd@) is None,
            },
    {
        match self {
            Transport::Local { .. } => None,
            Transport::Ssh { .. } => {
                let mut v: Vec<String> = Vec::new();
                v.push("ssh".to_owned());
                let opts = self.ssh_opts(false);
                proof {
                    assert(text::texts(v@) =~= seq!["ssh"@]);
                    assert(text::texts(opts@).skip(0) =~= text::texts(opts@));
                }
                append_words(&mut v, opts.as_slice(), 0);
                append_word(&mut v, remote_cmd.to_owned());
                Some(v)
            },
        }
    }

    /// How a switch is run: none where there is nothing to switch, else the argv that
    /// `mux_switch_argv` gives for the session, here or behind ssh.
    pub fn lower_switch<F: Fn(&str) -> Vec<String>>(
        &self,
        plan: &SwitchPlan,
        mux_switch_argv: &F,
    ) -> (r: Option<LoweredSwitch>)
        requires
            plan@ is Switch ==> forall|s: &str|
                s@ == plan@->session ==> #[trigger] call_requires(*mux_switch_argv, (s,)),
        ensures
            match plan@ {
                SwitchPlanView::PerSessionNoOp => r is None,
                SwitchPlanView::Switch { session } => r matches Some(l) && exists|
                    s: &str,
                    argv: Vec<String>,
                | #[trigger]
                    call_ensures(*mux_switch_argv, (s,), argv) && s@ == session && l@ == lowered(
                        self@,
                        text::texts(argv@),
                    ),
            },
    {
        match plan {
            SwitchPlan::PerSessionNoOp => None,
            SwitchPlan::Switch { session } => {
                let name = session.as_str();
                let argv = mux_switch_argv(name);
                match self {
                    Transport::Local { .. } => {
                        let l = LoweredSwitch::Local(argv);
                        assert(call_ensures(*mux_switch_argv, (name,), argv));
                        Some(l)
                    },
                    Transport::Ssh { .. } => {
                        let raw = shell::remote_command(argv.as_slice());
                        match self.raw_ssh_argv(raw.as_str()) {
                            Some(v) => {
                                let l = LoweredSwitch::RawSsh(v);
                                assert(call_ensures(*mux_switch_argv, (name,), argv));
                                Some(l)
                            },
                            None => None,
                        }
                    },
                }
            },
        }
    }
}

// ---------------------------------------------------------------------------
// Laws of the machine boundary
// ---------------------------------------------------------------------------

/// What runs over ssh is what was asked for: the last word is a command that the
/// remote shell reads back as the argv, and the destination stands behind `--`.
pub proof fn remote_shell_reads_the_argv(t: TransportView, tty: bool, argv: Seq<Seq<char>>)
    requires
        t is Ssh,
    ensures
        ({
            let args = exec_words(t, tty, argv).1;
            &&& shell::shell_words(args.last()) == argv
            &&& args[args.len() - 2] == transport_id(t)
            &&& args[args.len() - 3] == "--"@
        }),
{
    shell::command_reads_back(argv);
}

/// A command that no one watches never waits for an answer: ssh runs in batch mode
/// unless a terminal was asked for.
pub proof fn unwatched_ssh_is_batch(t: TransportView)
    requires
        t is Ssh,
    ensures
        ssh_words(t, false)[0] == "-o"@,
        ssh_words(t, false)[1] == "BatchMode=yes"@,
        ssh_words(t, true)[0] == "-t"@,
{
}

/// On this machine a mux runs as it was asked to, with the socket in front of its arguments
/// where there is one.
pub proof fn here_runs_as_asked(argv: Seq<Seq<char>>, path: Seq<char>, tty: bool)
    requires
        argv.len() > 0,
        path.len() > 0,
    ensures
        ({
            let plain = TransportView::Local { socket: None };
            let other = TransportView::Local { socket: Some(path) };
            let args = argv.skip(1);
            &&& exec_words(plain, tty, argv) == (argv[0], args)
            &&& exec_words(other, tty, argv) == (argv[0], seq!["-S"@, path] + args)
            &&& interactive_words(plain, argv, None) == (argv[0], args)
            &&& interactive_words(other, argv, None) == (argv[0], seq!["-S"@, path] + args)
            &&& control_words(plain, argv) == argv
            &&& control_words(other, argv) == seq![argv[0], "-S"@, path] + args
            &&& lowered(plain, argv) == LoweredSwitchView::Local(argv)
            &&& raw_words(plain, path) is None
            &&& transport_id(plain) == "local"@
        }),
{
    let none = Seq::<Seq<char>>::empty();
    let args = argv.skip(1);
    assert(none + args =~= args);
    assert(seq![argv[0]] + none + args =~= argv);
    assert(seq![argv[0]] + seq!["-S"@, path] + args =~= seq![argv[0], "-S"@, path] + args);
}

/// The words of ssh up to the alias: whether it may ask, how long it waits, and that
/// connections are shared, which is so exactly where there is a path for it and this side is
/// not Windows.
pub open spec fn ssh_front(
    alias: Seq<char>,
    control_path: Seq<char>,
    os: Seq<char>,
    first: Seq<Seq<char>>,
) -> Seq<Seq<char>> {
    if control_path.len() > 0 && os != "windows"@ {
        first + seq![
            "-o"@,
            "ConnectTimeout=5"@,
            "-o"@,
            "ControlMaster=auto"@,
            "-o"@,
            "ControlPath="@ + control_path,
            "-o"@,
            "ControlPersist=60s"@,
            "--"@,
            alias,
        ]
    } else {
        first + seq!["-o"@, "ConnectTimeout=5"@, "--"@, alias]
    }
}

/// Over ssh every command goes to the alias, behind the options that it needs, as one word
/// that the shell there reads back.
pub proof fn there_runs_behind_ssh(
    alias: Seq<char>,
    control_path: Seq<char>,
    os: Seq<char>,
    argv: Seq<Seq<char>>,
    line: Seq<char>,
)
    ensures
        ({
            let t = TransportView::Ssh { alias, control_path, os };
            let asks = ssh_front(alias, control_path, os, seq!["-t"@]);
            let batch = ssh_front(alias, control_path, os, seq!["-o"@, "BatchMode=yes"@]);
            let command = shell::command(argv);
            &&& exec_words(t, true, argv) == ("ssh"@, asks.push(command))
            &&& exec_words(t, false, argv) == ("ssh"@, batch.push(command))
            &&& interactive_words(t, argv, None) == ("ssh"@, asks.push("exec "@ + command))
            &&& control_words(t, argv) == (seq!["ssh"@, "-tt"@] + batch).push(command)
            &&& raw_words(t, line) == Some((seq!["ssh"@] + batch).push(line))
            &&& lowered(t, argv) == LoweredSwitchView::RawSsh((seq!["ssh"@] + batch).push(command))
            &&& transport_id(t) == alias
            &&& shell::shell_words(command) == argv
        }),
{
    let t = TransportView::Ssh { alias, control_path, os };
    shell::command_reads_back(argv);
    assert(ssh_words(t, true) =~= ssh_front(alias, control_path, os, seq!["-t"@]));
    assert(ssh_words(t, false) =~= ssh_front(
        alias,
        control_path,
        os,
        seq!["-o"@, "BatchMode=yes"@],
    ));
}

/// A window that is asked for is selected on the same connection, before the attach takes
/// the shell's place.
pub proof fn window_is_selected_before_the_attach(
    t: TransportView,
    attach: Seq<Seq<char>>,
    select: Seq<Seq<char>>,
)
    requires
        t is Ssh,
    ensures
        interactive_words(t, attach, Some(select)).0 == "ssh"@,
        interactive_words(t, attach, Some(select)).1.drop_last() == interactive_words(
            t,
            attach,
            None,
        ).1.drop_last(),
        interactive_words(t, attach, Some(select)).1.last() == shell::command(select)
            + " ; exec "@ + shell::command(attach),
{
    assert(interactive_words(t, attach, Some(select)).1.drop_last() =~= ssh_words(t, true));
    assert(interactive_words(t, attach, None).1.drop_last() =~= ssh_words(t, true));
}

} // verus!
