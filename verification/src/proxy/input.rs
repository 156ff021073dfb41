//! Terminal-focus input. While the terminal pane has focus every byte goes raw
//! to the session's active pane, except a prefix byte followed by a command key:
//! Left, Tab or Esc return focus to the tree, Right stays, `q` quits, `?` toggles
//! the keys help, `h`, `l` and Ctrl with Left or Right resize the tree, `t`
//! toggles auto-hide, and a doubled prefix sends one literal prefix byte. A
//! prefix inside a bracketed paste is data.
use crate::bytes;
use crate::proxy::dispatch::{action_views, Action, ActionView};
use vstd::prelude::*;

verus! {

/// The input state between two reads.
pub struct TermInput {
    prefix: u8,
    armed: bool,
    in_paste: bool,
    paste_scan: Vec<u8>,
}

/// The state of a [`TermInput`].
pub struct InputState {
    /// The prefix byte.
    pub prefix: u8,
    /// Whether a prefix awaits its command key.
    pub armed: bool,
    /// Whether a bracketed paste is under way.
    pub in_paste: bool,
    /// The last bytes seen outside commands, at most as many as a paste marker
    /// has.
    pub scan: Seq<u8>,
}

impl View for TermInput {
    type V = InputState;

    closed spec fn view(&self) -> InputState {
        InputState {
            prefix: self.prefix,
            armed: self.armed,
            in_paste: self.in_paste,
            scan: self.paste_scan@,
        }
    }
}

/// `ESC [ 200 ~`, which a terminal sends before pasted text.
pub open spec fn paste_start() -> Seq<u8> {
    seq![0x1bu8, 0x5bu8, 0x32u8, 0x30u8, 0x30u8, 0x7eu8]
}

/// `ESC [ 201 ~`, which a terminal sends after pasted text.
pub open spec fn paste_end() -> Seq<u8> {
    seq![0x1bu8, 0x5bu8, 0x32u8, 0x30u8, 0x31u8, 0x7eu8]
}

/// What one step of reading input yields.
pub enum Token {
    /// A byte for the pane.
    Byte(u8),
    /// The prefix came: what was gathered for the pane goes out.
    Cut,
    /// A command: what was gathered goes out, then the command.
    Act(ActionView),
}

impl InputState {
    /// The state once `b` has been seen outside a command.
    pub open spec fn seen(self, b: u8) -> InputState {
        let grown = self.scan.push(b);
        let scan = if grown.len() > 6 {
            grown.drop_first()
        } else {
            grown
        };
        let in_paste = if self.in_paste {
            !bytes::tail_is(scan, paste_end())
        } else {
            bytes::tail_is(scan, paste_start())
        };
        InputState { scan, in_paste, ..self }
    }

    /// The state with no prefix armed.
    pub open spec fn disarmed(self) -> InputState {
        InputState { armed: false, ..self }
    }

    /// The state with a prefix armed.
    pub open spec fn arm(self) -> InputState {
        InputState { armed: true, ..self }
    }
}

/// Whether `rest` begins with Ctrl and Left or Right, `ESC [ 1 ; 5 D` or `C`.
pub open spec fn is_ctrl_arrow(rest: Seq<u8>) -> bool {
    rest.len() >= 6 && rest[0] == 0x1b && rest[1] == 0x5b && rest[2] == 0x31 && rest[3] == 0x3b
        && rest[4] == 0x35 && (rest[5] == 0x43 || rest[5] == 0x44)
}

/// Whether `rest` begins with a plain arrow, `ESC [ A` to `D`.
pub open spec fn is_arrow(rest: Seq<u8>) -> bool {
    rest.len() >= 3 && rest[0] == 0x1b && rest[1] == 0x5b && 0x41 <= rest[2] <= 0x44
}

/// What the command key at the start of `rest` yields, and how many bytes it
/// takes. `None` in the last place says that reading stops there.
pub open spec fn command(prefix: u8, rest: Seq<u8>) -> (Seq<Token>, Option<int>) {
    let b = rest[0];
    if b == prefix {
        (seq![Token::Byte(prefix)], Some(1))
    } else if b == 0x3f {
        (seq![Token::Act(ActionView::ShowHelp)], Some(1))
    } else if b == 0x68 {
        (seq![Token::Act(ActionView::Width(-1))], Some(1))
    } else if b == 0x6c {
        (seq![Token::Act(ActionView::Width(1))], Some(1))
    } else if b == 0x74 {
        (seq![Token::Act(ActionView::ToggleAutoHide)], Some(1))
    } else if is_ctrl_arrow(rest) {
        let delta = if rest[5] == 0x43 {
            1int
        } else {
            -1int
        };
        (seq![Token::Act(ActionView::Width(delta))], Some(6))
    } else if is_arrow(rest) && rest[2] == 0x43 {
        (Seq::empty(), Some(3))
    } else if b == 0x09 || b == 0x1b {
        let len = if is_arrow(rest) {
            3int
        } else {
            1int
        };
        (seq![Token::Act(ActionView::FocusTree(rest.skip(len)))], None)
    } else if b == 0x71 {
        (seq![Token::Act(ActionView::Quit)], None)
    } else {
        (Seq::empty(), Some(1))
    }
}

/// What reading `rest` from state `st` yields, and the state it ends in.
pub open spec fn read(st: InputState, rest: Seq<u8>) -> (Seq<Token>, InputState)
    decreases rest.len(),
{
    if rest.len() == 0 {
        (Seq::empty(), st)
    } else if st.armed {
        let (tokens, taken) = command(st.prefix, rest);
        match taken {
            Some(n) => {
                let (more, end) = read(st.disarmed(), rest.skip(n));
                (tokens + more, end)
            },
            None => (tokens, st.disarmed()),
        }
    } else {
        let after = st.seen(rest[0]);
        if !after.in_paste && rest[0] == st.prefix {
            let (more, end) = read(after.arm(), rest.skip(1));
            (seq![Token::Cut] + more, end)
        } else {
            let (more, end) = read(after, rest.skip(1));
            (seq![Token::Byte(rest[0])] + more, end)
        }
    }
}

/// The action that sends `fwd` to the pane; none for no bytes.
pub open spec fn flushed(fwd: Seq<u8>) -> Seq<ActionView> {
    if fwd.len() == 0 {
        Seq::empty()
    } else {
        seq![ActionView::Forward(fwd)]
    }
}

/// The actions of `tokens` after `fwd` has been gathered for the pane: runs of
/// bytes are coalesced.
pub open spec fn coalesced(fwd: Seq<u8>, tokens: Seq<Token>) -> Seq<ActionView>
    decreases tokens.len(),
{
    if tokens.len() == 0 {
        flushed(fwd)
    } else {
        match tokens[0] {
            Token::Byte(b) => coalesced(fwd.push(b), tokens.drop_first()),
            Token::Cut => flushed(fwd) + coalesced(Seq::empty(), tokens.drop_first()),
            Token::Act(a) => flushed(fwd) + seq![a] + coalesced(
                Seq::empty(),
                tokens.drop_first(),
            ),
        }
    }
}

/// What one read asks for.
pub open spec fn actions_of(st: InputState, read_bytes: Seq<u8>) -> Seq<ActionView> {
    coalesced(Seq::empty(), read(st, read_bytes).0)
}

/// One token in front of others, coalesced.
proof fn coalesced_step(fwd: Seq<u8>, t: Token, more: Seq<Token>)
    ensures
        coalesced(fwd, seq![t] + more) == match t {
            Token::Byte(b) => coalesced(fwd.push(b), more),
            Token::Cut => flushed(fwd) + coalesced(Seq::empty(), more),
            Token::Act(a) => flushed(fwd) + seq![a] + coalesced(Seq::empty(), more),
        },
{
    assert((seq![t] + more).drop_first() =~= more);
}

/// What a command key is.
enum Command {
    /// A literal prefix byte, one byte long.
    Literal,
    /// A command this many bytes long, after which input goes on.
    Act { action: Action, len: usize },
    /// Nothing, for this many bytes.
    Skip { len: usize },
    /// A command that ends the read.
    Stop { action: Action },
}

impl Command {
    spec fn meaning(self, prefix: u8) -> (Seq<Token>, Option<int>) {
        match self {
            Command::Literal => (seq![Token::Byte(prefix)], Some(1)),
            Command::Act { action, len } => (seq![Token::Act(action@)], Some(len as int)),
            Command::Skip { len } => (Seq::empty(), Some(len as int)),
            Command::Stop { action } => (seq![Token::Act(action@)], None),
        }
    }

    /// The command whose key stands in `bytes` at `i`.
    fn at(prefix: u8, bytes: &[u8], i: usize) -> (r: Command)
        requires
            i < bytes@.len(),
        ensures
            r.meaning(prefix) == command(prefix, bytes@.skip(i as int)),
            r matches Command::Act { len, .. } ==> 1 <= len <= bytes@.len() - i,
            r matches Command::Skip { len } ==> 1 <= len <= bytes@.len() - i,
    {
        let ghost rest = bytes@.skip(i as int);
        let b0 = bytes[i];
        let n: usize = bytes.len() - i;
        let csi = b0 == 0x1b && n >= 3 && bytes[i + 1] == 0x5b;
        let ctrl_arrow = csi && n >= 6 && bytes[i + 2] == 0x31 && bytes[i + 3] == 0x3b && bytes[i
            + 4] == 0x35 && (bytes[i + 5] == 0x43 || bytes[i + 5] == 0x44);
        let arrow = csi && bytes[i + 2] >= 0x41 && bytes[i + 2] <= 0x44;
        proof {
            assert(ctrl_arrow == is_ctrl_arrow(rest));
            assert(arrow == is_arrow(rest));
        }
        if b0 == prefix {
            Command::Literal
        } else if b0 == 0x3f {
            Command::Act { action: Action::ShowHelp, len: 1 }
        } else if b0 == 0x68 {
            Command::Act { action: Action::Width(-1), len: 1 }
        } else if b0 == 0x6c {
            Command::Act { action: Action::Width(1), len: 1 }
        } else if b0 == 0x74 {
            Command::Act { action: Action::ToggleAutoHide, len: 1 }
        } else if ctrl_arrow {
            let delta: i32 = if bytes[i + 5] == 0x43 {
                1
            } else {
                -1
            };
            Command::Act { action: Action::Width(delta), len: 6 }
        } else if arrow && bytes[i + 2] == 0x43 {
            // The right pane is focused already.
            Command::Skip { len: 3 }
        } else if b0 == 0x09 || b0 == 0x1b {
            let len: usize = if arrow {
                3
            } else {
                1
            };
            let after = bytes::tail(bytes, i + len);
            proof {
                assert(after@ =~= rest.skip(len as int));
            }
            Command::Stop { action: Action::FocusTree(after) }
        } else if b0 == 0x71 {
            Command::Stop { action: Action::Quit }
        } else {
            Command::Skip { len: 1 }
        }
    }
}

/// Appends the action that sends `fwd` to the pane, and empties `fwd`.
fn flush(out: &mut Vec<Action>, fwd: &mut Vec<u8>)
    ensures
        action_views(final(out)@) == action_views(old(out)@) + flushed(old(fwd)@),
        final(fwd)@.len() == 0,
{
    if fwd.len() > 0 {
        let taken = bytes::tail(fwd.as_slice(), 0);
        proof {
            assert(taken@ =~= fwd@);
        }
        out.push(Action::Forward(taken));
        fwd.clear();
    }
    proof {
        assert(action_views(out@) =~= action_views(old(out)@) + flushed(old(fwd)@));
    }
}

impl TermInput {
    /// Input with this prefix byte, nothing armed and no paste under way.
    pub fn new(prefix: u8) -> (t: TermInput)
        ensures
            t@ == (InputState { prefix, armed: false, in_paste: false, scan: Seq::empty() }),
    {
        let t = TermInput { prefix, armed: false, in_paste: false, paste_scan: Vec::new() };
        proof {
            assert(t@.scan =~= Seq::<u8>::empty());
        }
        t
    }

    /// Whether a prefix is armed awaiting its command key.
    pub fn is_armed(&self) -> (r: bool)
        ensures
            r == self@.armed,
    {
        self.armed
    }

    fn track_paste(&mut self, byte: u8)
        ensures
            final(self)@ == old(self)@.seen(byte),
    {
        self.paste_scan.push(byte);
        if self.paste_scan.len() > 6 {
            self.paste_scan.remove(0);
        }
        proof {
            assert(self.paste_scan@ =~= old(self)@.seen(byte).scan);
        }
        let start: [u8; 6] = [0x1b, 0x5b, 0x32, 0x30, 0x30, 0x7e];
        let end: [u8; 6] = [0x1b, 0x5b, 0x32, 0x30, 0x31, 0x7e];
        proof {
            assert(start@ =~= paste_start());
            assert(end@ =~= paste_end());
        }
        if !self.in_paste && bytes::ends_with(self.paste_scan.as_slice(), &start) {
            self.in_paste = true;
        } else if self.in_paste && bytes::ends_with(self.paste_scan.as_slice(), &end) {
            self.in_paste = false;
        }
    }

    /// Processes one read. Bytes for the pane are coalesced; a command key takes
    /// only its own bytes, so what follows in the same read is input again.
    pub fn feed(&mut self, bytes: &[u8]) -> (out: Vec<Action>)
        ensures
            action_views(out@) == actions_of(old(self)@, bytes@),
            final(self)@ == read(old(self)@, bytes@).1,
    {
        let ghost st0 = self@;
        let ghost goal = actions_of(st0, bytes@);
        let ghost goal_end = read(st0, bytes@).1;
        let mut out: Vec<Action> = Vec::new();
        let mut fwd: Vec<u8> = Vec::new();
        let mut i: usize = 0;
        proof {
            assert(bytes@.skip(0) =~= bytes@);
            assert(fwd@ =~= Seq::empty());
            assert(action_views(out@) + goal =~= goal);
        }
        while i < bytes.len()
            invariant
                i <= bytes@.len(),
                goal == actions_of(old(self)@, bytes@),
                goal_end == read(old(self)@, bytes@).1,
                action_views(out@) + coalesced(fwd@, read(self@, bytes@.skip(i as int)).0) == goal,
                read(self@, bytes@.skip(i as int)).1 == goal_end,
            decreases bytes.len() - i,
        {
            let ghost rest = bytes@.skip(i as int);
            let ghost st = self@;
            let ghost views = action_views(out@);
            let ghost held = fwd@;
            if self.armed {
                let found = Command::at(self.prefix, bytes, i);
                self.armed = false;
                proof {
                    assert(self@ == st.disarmed());
                }
                match found {
                    Command::Literal => {
                        fwd.push(self.prefix);
                        proof {
                            let more = read(self@, rest.skip(1)).0;
                            coalesced_step(held, Token::Byte(st.prefix), more);
                            assert(rest.skip(1) =~= bytes@.skip(i + 1));
                        }
                        i += 1;
                    },
                    Command::Act { action, len } => {
                        let ghost a = action@;
                        flush(&mut out, &mut fwd);
                        out.push(action);
                        proof {
                            let more = read(self@, rest.skip(len as int)).0;
                            coalesced_step(held, Token::Act(a), more);
                            assert(rest.skip(len as int) =~= bytes@.skip(i + len));
                            assert(fwd@ =~= Seq::empty());
                            assert(action_views(out@) =~= views + flushed(held) + seq![a]);
                            assert(action_views(out@) + coalesced(Seq::empty(), more) =~= views
                                + coalesced(held, seq![Token::Act(a)] + more));
                        }
                        i += len;
                    },
                    Command::Skip { len } => {
                        proof {
                            let more = read(self@, rest.skip(len as int)).0;
                            assert(Seq::<Token>::empty() + more =~= more);
                            assert(rest.skip(len as int) =~= bytes@.skip(i + len));
                        }
                        i += len;
                    },
                    Command::Stop { action } => {
                        let ghost a = action@;
                        flush(&mut out, &mut fwd);
                        out.push(action);
                        proof {
                            coalesced_step(held, Token::Act(a), Seq::empty());
                            assert(coalesced(Seq::empty(), Seq::empty()) =~= Seq::empty());
                            assert(seq![Token::Act(a)] + Seq::<Token>::empty() =~= seq![
                                Token::Act(a),
                            ]);
                            assert(flushed(held) + seq![a] + Seq::empty() =~= flushed(held)
                                + seq![a]);
                            assert(action_views(out@) =~= views + flushed(held) + seq![a]);
                            assert(action_views(out@) =~= views + coalesced(
                                held,
                                seq![Token::Act(a)],
                            ));
                        }
                        return out;
                    },
                }
            } else {
                let b = bytes[i];
                self.track_paste(b);
                let ghost after = self@;
                let ghost more_rest = rest.skip(1);
                proof {
                    assert(rest[0] == b);
                    assert(more_rest =~= bytes@.skip(i + 1));
                }
                if !self.in_paste && b == self.prefix {
                    flush(&mut out, &mut fwd);
                    self.armed = true;
                    proof {
                        assert(self@ == after.arm());
                        let more = read(self@, more_rest).0;
                        coalesced_step(held, Token::Cut, more);
                        assert(fwd@ =~= Seq::empty());
                        assert(action_views(out@) + coalesced(Seq::empty(), more) =~= views
                            + coalesced(held, seq![Token::Cut] + more));
                    }
                } else {
                    fwd.push(b);
                    proof {
                        coalesced_step(held, Token::Byte(b), read(self@, more_rest).0);
                    }
                }
                i += 1;
            }
        }
        proof {
            assert(bytes@.skip(i as int) =~= Seq::empty());
        }
        flush(&mut out, &mut fwd);
        out
    }
}

// ---------------------------------------------------------------------------
// Laws of reading input
// ---------------------------------------------------------------------------

/// Whether every byte of `b` is data: none is a prefix outside a paste.
pub open spec fn all_data(st: InputState, b: Seq<u8>) -> bool
    decreases b.len(),
{
    b.len() > 0 ==> {
        let after = st.seen(b[0]);
        &&& after.in_paste || b[0] != st.prefix
        &&& all_data(after, b.skip(1))
    }
}

/// `b` as tokens, one a byte.
pub open spec fn byte_tokens(b: Seq<u8>) -> Seq<Token> {
    b.map_values(|x: u8| Token::Byte(x))
}

proof fn data_reads_as_bytes(st: InputState, b: Seq<u8>)
    requires
        !st.armed,
        all_data(st, b),
    ensures
        read(st, b).0 == byte_tokens(b),
        !read(st, b).1.armed,
    decreases b.len(),
{
    if b.len() > 0 {
        data_reads_as_bytes(st.seen(b[0]), b.skip(1));
        assert(byte_tokens(b) =~= seq![Token::Byte(b[0])] + byte_tokens(b.skip(1)));
    } else {
        assert(byte_tokens(b) =~= Seq::empty());
    }
}

proof fn bytes_coalesce(fwd: Seq<u8>, b: Seq<u8>)
    ensures
        coalesced(fwd, byte_tokens(b)) == flushed(fwd + b),
    decreases b.len(),
{
    if b.len() > 0 {
        assert(byte_tokens(b).drop_first() =~= byte_tokens(b.drop_first()));
        bytes_coalesce(fwd.push(b[0]), b.drop_first());
        assert(fwd.push(b[0]) + b.drop_first() =~= fwd + b);
    } else {
        assert(fwd + b =~= fwd);
    }
}

proof fn unprefixed_is_data(st: InputState, b: Seq<u8>)
    requires
        !b.contains(st.prefix),
    ensures
        all_data(st, b),
    decreases b.len(),
{
    if b.len() > 0 {
        assert(b.contains(b[0]));
        assert forall|x: u8| b.skip(1).contains(x) implies b.contains(x) by {
            let k = choose|k: int| 0 <= k < b.skip(1).len() && b.skip(1)[k] == x;
            assert(b[k + 1] == x);
        }
        unprefixed_is_data(st.seen(b[0]), b.skip(1));
    }
}

/// Data goes to the pane whole and unchanged: a read in which no prefix stands
/// outside a paste is one `Forward` of exactly its bytes.
pub proof fn data_is_forwarded(st: InputState, b: Seq<u8>)
    requires
        !st.armed,
        all_data(st, b),
    ensures
        actions_of(st, b) == flushed(b),
        !read(st, b).1.armed,
{
    data_reads_as_bytes(st, b);
    bytes_coalesce(Seq::empty(), b);
    assert(Seq::<u8>::empty() + b =~= b);
}

/// A read without the prefix byte goes to the pane whole, whatever a paste is
/// doing.
pub proof fn unprefixed_is_forwarded(st: InputState, b: Seq<u8>)
    requires
        !st.armed,
        !b.contains(st.prefix),
    ensures
        actions_of(st, b) == flushed(b),
{
    unprefixed_is_data(st, b);
    data_is_forwarded(st, b);
}

/// A prefix that comes while a paste is under way is never intercepted: it is
/// forwarded and arms nothing.
pub proof fn pasted_prefix_is_literal(st: InputState)
    requires
        !st.armed,
        st.seen(st.prefix).in_paste,
    ensures
        actions_of(st, seq![st.prefix]) == seq![ActionView::Forward(seq![st.prefix])],
        read(st, seq![st.prefix]).1 == st.seen(st.prefix),
{
    let b = seq![st.prefix];
    reveal_with_fuel(read, 2);
    assert(b.skip(1) =~= Seq::empty());
    assert(all_data(st.seen(b[0]), b.skip(1)));
    data_is_forwarded(st, b);
}

/// A doubled prefix sends one literal prefix byte.
pub proof fn doubled_prefix_is_one_literal(st: InputState)
    requires
        st.armed,
    ensures
        actions_of(st, seq![st.prefix]) == seq![ActionView::Forward(seq![st.prefix])],
        read(st, seq![st.prefix]).1 == st.disarmed(),
{
    let b = seq![st.prefix];
    reveal_with_fuel(read, 2);
    assert(b.skip(1) =~= Seq::empty());
    assert(read(st, b).0 =~= byte_tokens(b));
    bytes_coalesce(Seq::empty(), b);
    assert(Seq::<u8>::empty() + b =~= b);
}

/// Whether reading `rest` ends in a command that leaves the pane.
pub open spec fn leaves(st: InputState, rest: Seq<u8>) -> bool
    decreases rest.len(),
{
    if rest.len() == 0 {
        false
    } else if st.armed {
        match command(st.prefix, rest).1 {
            Some(n) => leaves(st.disarmed(), rest.skip(n)),
            None => true,
        }
    } else {
        let after = st.seen(rest[0]);
        if !after.in_paste && rest[0] == st.prefix {
            leaves(after.arm(), rest.skip(1))
        } else {
            leaves(after, rest.skip(1))
        }
    }
}

proof fn command_is_local(prefix: u8, a: Seq<u8>, b: Seq<u8>)
    requires
        a.len() > 0,
        command(prefix, a).1 is Some,
    ensures
        command(prefix, a + b) == command(prefix, a),
        1 <= command(prefix, a).1->0 <= a.len(),
{
    let ab = a + b;
    assert(forall|i: int| 0 <= i < a.len() ==> ab[i] == a[i]);
}

/// Tokens do not depend on where reads are cut.
proof fn tokens_of_split(st: InputState, a: Seq<u8>, b: Seq<u8>)
    requires
        !leaves(st, a),
    ensures
        read(st, a + b).0 == read(st, a).0 + read(read(st, a).1, b).0,
        read(st, a + b).1 == read(read(st, a).1, b).1,
    decreases a.len(),
{
    let ab = a + b;
    if a.len() == 0 {
        assert(ab =~= b);
        assert(Seq::<Token>::empty() + read(st, b).0 =~= read(st, b).0);
    } else if st.armed {
        command_is_local(st.prefix, a, b);
        let n = command(st.prefix, a).1->0;
        assert(ab.skip(n) =~= a.skip(n) + b);
        tokens_of_split(st.disarmed(), a.skip(n), b);
        assert(read(st, ab).0 =~= read(st, a).0 + read(read(st, a).1, b).0);
    } else {
        let after = st.seen(a[0]);
        assert(ab[0] == a[0]);
        assert(ab.skip(1) =~= a.skip(1) + b);
        if !after.in_paste && a[0] == st.prefix {
            tokens_of_split(after.arm(), a.skip(1), b);
        } else {
            tokens_of_split(after, a.skip(1), b);
        }
        assert(read(st, ab).0 =~= read(st, a).0 + read(read(st, a).1, b).0);
    }
}

/// What a list of actions does, byte by byte and command by command.
pub open spec fn atoms(actions: Seq<ActionView>) -> Seq<Token>
    decreases actions.len(),
{
    if actions.len() == 0 {
        Seq::empty()
    } else {
        atoms(actions.drop_last()) + match actions.last() {
            ActionView::Forward(b) => byte_tokens(b),
            a => seq![Token::Act(a)],
        }
    }
}

/// `tokens` without the places at which gathered bytes went out.
pub open spec fn uncut(tokens: Seq<Token>) -> Seq<Token>
    decreases tokens.len(),
{
    if tokens.len() == 0 {
        Seq::empty()
    } else if tokens.last() is Cut {
        uncut(tokens.drop_last())
    } else {
        uncut(tokens.drop_last()).push(tokens.last())
    }
}

proof fn atoms_of_sum(a: Seq<ActionView>, b: Seq<ActionView>)
    ensures
        atoms(a + b) == atoms(a) + atoms(b),
    decreases b.len(),
{
    if b.len() == 0 {
        assert(a + b =~= a);
        assert(atoms(a) + atoms(b) =~= atoms(a));
    } else {
        assert((a + b).drop_last() =~= a + b.drop_last());
        atoms_of_sum(a, b.drop_last());
        assert(atoms(a + b) =~= atoms(a) + atoms(b));
    }
}

proof fn uncut_of_sum(a: Seq<Token>, b: Seq<Token>)
    ensures
        uncut(a + b) == uncut(a) + uncut(b),
    decreases b.len(),
{
    if b.len() == 0 {
        assert(a + b =~= a);
        assert(uncut(a) + uncut(b) =~= uncut(a));
    } else {
        assert((a + b).drop_last() =~= a + b.drop_last());
        uncut_of_sum(a, b.drop_last());
        assert(uncut(a + b) =~= uncut(a) + uncut(b));
    }
}

proof fn atoms_of_flushed(fwd: Seq<u8>)
    ensures
        atoms(flushed(fwd)) == byte_tokens(fwd),
{
    reveal_with_fuel(atoms, 2);
    if fwd.len() > 0 {
        assert(flushed(fwd).drop_last() =~= Seq::empty());
        assert(Seq::<Token>::empty() + byte_tokens(fwd) =~= byte_tokens(fwd));
    } else {
        assert(byte_tokens(fwd) =~= Seq::empty());
    }
}

/// Whether no command token is a bare run of bytes.
spec fn only_commands(tokens: Seq<Token>) -> bool {
    forall|i: int| 0 <= i < tokens.len() ==> !(#[trigger] tokens[i] matches Token::Act(a) && a is Forward)
}

proof fn read_gives_commands(st: InputState, rest: Seq<u8>)
    ensures
        only_commands(read(st, rest).0),
    decreases rest.len(),
{
    if rest.len() > 0 {
        if st.armed {
            if let Some(n) = command(st.prefix, rest).1 {
                command_is_local(st.prefix, rest, Seq::empty());
                read_gives_commands(st.disarmed(), rest.skip(n));
            }
        } else {
            let after = st.seen(rest[0]);
            read_gives_commands(after.arm(), rest.skip(1));
            read_gives_commands(after, rest.skip(1));
        }
    }
}

proof fn atoms_of_coalesced(fwd: Seq<u8>, tokens: Seq<Token>)
    requires
        only_commands(tokens),
    ensures
        atoms(coalesced(fwd, tokens)) == byte_tokens(fwd) + uncut(tokens),
    decreases tokens.len(),
{
    reveal_with_fuel(atoms, 2);
    reveal_with_fuel(uncut, 2);
    atoms_of_flushed(fwd);
    if tokens.len() == 0 {
        assert(byte_tokens(fwd) + uncut(tokens) =~= byte_tokens(fwd));
    } else {
        let t = tokens[0];
        let more = tokens.drop_first();
        assert forall|i: int| 0 <= i < more.len() implies !(#[trigger] more[i] matches Token::Act(a)
            && a is Forward) by {
            assert(more[i] == tokens[i + 1]);
        }
        assert(tokens =~= seq![t] + more);
        uncut_of_sum(seq![t], more);
        assert(seq![t].drop_last() =~= Seq::empty());
        match t {
            Token::Byte(b) => {
                atoms_of_coalesced(fwd.push(b), more);
                assert(uncut(seq![t]) =~= seq![t]);
                assert(byte_tokens(fwd.push(b)) =~= byte_tokens(fwd).push(t));
                assert(byte_tokens(fwd.push(b)) + uncut(more) =~= byte_tokens(fwd) + uncut(tokens));
            },
            Token::Cut => {
                atoms_of_coalesced(Seq::empty(), more);
                atoms_of_sum(flushed(fwd), coalesced(Seq::empty(), more));
                assert(uncut(seq![t]) =~= Seq::empty());
                assert(byte_tokens(Seq::empty()) + uncut(more) =~= uncut(more));
                assert(uncut(tokens) =~= uncut(more));
            },
            Token::Act(a) => {
                assert(!(tokens[0] matches Token::Act(a) && a is Forward));
                atoms_of_coalesced(Seq::empty(), more);
                atoms_of_sum(flushed(fwd) + seq![a], coalesced(Seq::empty(), more));
                atoms_of_sum(flushed(fwd), seq![a]);
                assert(seq![a].drop_last() =~= Seq::empty());
                assert(atoms(seq![a]) =~= seq![t]);
                assert(uncut(seq![t]) =~= seq![t]);
                assert(byte_tokens(Seq::empty()) + uncut(more) =~= uncut(more));
                assert(byte_tokens(fwd) + seq![t] + uncut(more) =~= byte_tokens(fwd) + uncut(
                    tokens,
                ));
            },
        }
    }
}

/// Input means the same however it is cut into reads: as long as the first part
/// holds no command that leaves the pane, reading both parts one after the other
/// sends the same bytes and issues the same commands, in the same order, as
/// reading them at once, and ends in the same state.
pub proof fn reads_may_be_cut(st: InputState, a: Seq<u8>, b: Seq<u8>)
    requires
        !leaves(st, a),
    ensures
        atoms(actions_of(st, a + b)) == atoms(actions_of(st, a)) + atoms(
            actions_of(read(st, a).1, b),
        ),
        read(st, a + b).1 == read(read(st, a).1, b).1,
{
    let mid = read(st, a).1;
    tokens_of_split(st, a, b);
    read_gives_commands(st, a + b);
    read_gives_commands(st, a);
    read_gives_commands(mid, b);
    atoms_of_coalesced(Seq::empty(), read(st, a + b).0);
    atoms_of_coalesced(Seq::empty(), read(st, a).0);
    atoms_of_coalesced(Seq::empty(), read(mid, b).0);
    uncut_of_sum(read(st, a).0, read(mid, b).0);
    let none = byte_tokens(Seq::empty());
    assert(none =~= Seq::empty());
    assert(none + uncut(read(st, a + b).0) =~= (none + uncut(read(st, a).0)) + (none + uncut(
        read(mid, b).0,
    )));
}

// ---------------------------------------------------------------------------
// Laws of pastes
// ---------------------------------------------------------------------------

/// Whether `start` stands in `h` with no `end` behind it.
pub open spec fn left_open(h: Seq<u8>, start: Seq<u8>, end: Seq<u8>) -> bool {
    exists|i: int|
        {
            &&& #[trigger] bytes::found_at(h, start, i)
            &&& forall|j: int| i < j ==> !#[trigger] bytes::found_at(h, end, j)
        }
}

/// Whether a paste is under way once `h` has come: `ESC [ 200 ~` stands in it with no
/// `ESC [ 201 ~` behind.
pub open spec fn pasting(h: Seq<u8>) -> bool {
    left_open(
        h,
        seq![0x1bu8, 0x5b, 0x32, 0x30, 0x30, 0x7e],
        seq![0x1bu8, 0x5b, 0x32, 0x30, 0x31, 0x7e],
    )
}

/// Whether a state is that after the data `h`: the paste it tells of is that of `h`, and it
/// keeps the end of `h`.
pub open spec fn has_seen(st: InputState, h: Seq<u8>) -> bool {
    &&& st.in_paste <==> pasting(h)
    &&& st.scan == if h.len() > 6 {
        h.skip(h.len() - 6)
    } else {
        h
    }
}

proof fn found_in_longer(h: Seq<u8>, b: u8, p: Seq<u8>, i: int)
    requires
        p.len() == 6,
        i + 6 <= h.len(),
    ensures
        bytes::found_at(h.push(b), p, i) == bytes::found_at(h, p, i),
{
    if 0 <= i {
        assert(h.push(b).subrange(i, i + 6) =~= h.subrange(i, i + 6));
    }
}

proof fn left_open_after_byte(h: Seq<u8>, b: u8, start: Seq<u8>, end: Seq<u8>)
    requires
        start.len() == 6,
        end.len() == 6,
        start != end,
    ensures
        ({
            let g = h.push(b);
            left_open(g, start, end) == if bytes::found_at(g, start, g.len() - 6) {
                true
            } else if bytes::found_at(g, end, g.len() - 6) {
                false
            } else {
                left_open(h, start, end)
            }
        }),
{
    let g = h.push(b);
    let n = g.len() - 6;
    if bytes::found_at(g, start, n) {
    } else if bytes::found_at(g, end, n) {
        assert forall|i: int| bytes::found_at(g, start, i) implies exists|j: int|
            i < j && #[trigger] bytes::found_at(g, end, j) by {
            assert(i < n);
        }
    } else {
        if left_open(h, start, end) {
            let i = choose|i: int|
                {
                    &&& #[trigger] bytes::found_at(h, start, i)
                    &&& forall|j: int| i < j ==> !#[trigger] bytes::found_at(h, end, j)
                };
            found_in_longer(h, b, start, i);
            assert forall|j: int| i < j implies !#[trigger] bytes::found_at(g, end, j) by {
                if j < n {
                    found_in_longer(h, b, end, j);
                }
            }
            assert(bytes::found_at(g, start, i));
        }
        if left_open(g, start, end) {
            let i = choose|i: int|
                {
                    &&& #[trigger] bytes::found_at(g, start, i)
                    &&& forall|j: int| i < j ==> !#[trigger] bytes::found_at(g, end, j)
                };
            found_in_longer(h, b, start, i);
            assert forall|j: int| i < j implies !#[trigger] bytes::found_at(h, end, j) by {
                if bytes::found_at(h, end, j) {
                    found_in_longer(h, b, end, j);
                    assert(bytes::found_at(g, end, j));
                }
            }
            assert(bytes::found_at(h, start, i));
        }
    }
}

proof fn end_of_data(h: Seq<u8>, scan: Seq<u8>, p: Seq<u8>)
    requires
        p.len() == 6,
        scan == if h.len() > 6 {
            h.skip(h.len() - 6)
        } else {
            h
        },
    ensures
        bytes::tail_is(scan, p) == bytes::found_at(h, p, h.len() - 6),
{
    let n = h.len() - 6;
    if n >= 0 {
        assert(h.subrange(n, n + 6) =~= scan);
        assert(scan.skip(0) =~= scan);
        assert(scan.subrange(0, 6) =~= scan);
    }
}

proof fn paste_after_byte(st: InputState, h: Seq<u8>, b: u8)
    requires
        has_seen(st, h),
    ensures
        has_seen(st.seen(b), h.push(b)),
{
    let start = seq![0x1bu8, 0x5b, 0x32, 0x30, 0x30, 0x7e];
    let end = seq![0x1bu8, 0x5b, 0x32, 0x30, 0x31, 0x7e];
    let g = h.push(b);
    let after = st.seen(b);
    assert(start =~= paste_start());
    assert(end =~= paste_end());
    assert(start[4] != end[4]);
    assert(after.scan =~= if g.len() > 6 {
        g.skip(g.len() - 6)
    } else {
        g
    });
    end_of_data(g, after.scan, start);
    end_of_data(g, after.scan, end);
    left_open_after_byte(h, b, start, end);
    if bytes::found_at(g, start, g.len() - 6) {
        assert(!bytes::found_at(g, end, g.len() - 6));
    }
}

/// New input has seen nothing.
pub proof fn new_input_has_seen_nothing(prefix: u8)
    ensures
        has_seen(
            InputState { prefix, armed: false, in_paste: false, scan: Seq::empty() },
            Seq::empty(),
        ),
{
}

/// A paste is under way exactly while a start marker has come with no end marker after it,
/// however the data was cut into reads.
pub proof fn paste_is_between_its_markers(st: InputState, h: Seq<u8>, b: Seq<u8>)
    requires
        !st.armed,
        has_seen(st, h),
        all_data(st, b),
    ensures
        has_seen(read(st, b).1, h + b),
    decreases b.len(),
{
    if b.len() > 0 {
        paste_after_byte(st, h, b[0]);
        paste_is_between_its_markers(st.seen(b[0]), h.push(b[0]), b.skip(1));
        assert(h.push(b[0]) + b.skip(1) =~= h + b);
    } else {
        assert(h + b =~= h);
    }
}

/// Outside a paste the prefix asks for nothing and awaits a command key.
pub proof fn prefix_arms(st: InputState, h: Seq<u8>)
    requires
        !st.armed,
        has_seen(st, h),
        !pasting(h.push(st.prefix)),
    ensures
        actions_of(st, seq![st.prefix]) == Seq::<ActionView>::empty(),
        read(st, seq![st.prefix]).1.armed,
        read(st, seq![st.prefix]).1.prefix == st.prefix,
        has_seen(read(st, seq![st.prefix]).1, h.push(st.prefix)),
{
    let b = seq![st.prefix];
    paste_after_byte(st, h, st.prefix);
    reveal_with_fuel(read, 2);
    assert(b.skip(1) =~= Seq::empty());
    coalesced_step(Seq::empty(), Token::Cut, Seq::empty());
    assert(read(st, b).0 =~= seq![Token::Cut] + Seq::<Token>::empty());
    assert(actions_of(st, b) =~= Seq::<ActionView>::empty());
}

/// Text without an escape byte begins no paste: the prefix that follows it is still a prefix.
pub proof fn text_begins_no_paste(st: InputState, b: Seq<u8>)
    requires
        !st.armed,
        !st.in_paste,
        !st.scan.contains(0x1b),
        !b.contains(0x1b),
        !b.contains(st.prefix),
    ensures
        ({
            let after = read(st, b).1;
            &&& !after.armed
            &&& !after.in_paste
            &&& after.prefix == st.prefix
            &&& !after.scan.contains(0x1b)
            &&& actions_of(after, seq![st.prefix]) == Seq::<ActionView>::empty()
            &&& read(after, seq![st.prefix]).1.armed
            &&& !read(after, seq![st.prefix]).1.in_paste
        }),
    decreases b.len(),
{
    if b.len() > 0 {
        assert(b.contains(b[0]));
        let after = st.seen(b[0]);
        no_marker_without_escape(st, b[0]);
        assert forall|x: u8| b.skip(1).contains(x) implies b.contains(x) by {
            let k = choose|k: int| 0 <= k < b.skip(1).len() && b.skip(1)[k] == x;
            assert(b[k + 1] == x);
        }
        text_begins_no_paste(after, b.skip(1));
    } else {
        let p = seq![st.prefix];
        no_marker_without_escape(st, st.prefix);
        reveal_with_fuel(read, 2);
        assert(p.skip(1) =~= Seq::empty());
        coalesced_step(Seq::empty(), Token::Cut, Seq::empty());
        assert(read(st, p).0 =~= seq![Token::Cut] + Seq::<Token>::empty());
        assert(actions_of(st, p) =~= Seq::<ActionView>::empty());
    }
}

proof fn no_marker_without_escape(st: InputState, b: u8)
    requires
        !st.in_paste,
        !st.scan.contains(0x1b),
    ensures
        !st.seen(b).in_paste,
        b != 0x1b ==> !st.seen(b).scan.contains(0x1b),
{
    let grown = st.scan.push(b);
    let scan = st.seen(b).scan;
    assert forall|k: int| 0 <= k < scan.len() - 1 implies scan[k] != 0x1b by {
        let at = if grown.len() > 6 {
            k + 1
        } else {
            k
        };
        assert(scan[k] == grown[at]);
        assert(st.scan.contains(st.scan[at]));
    }
    if bytes::tail_is(scan, paste_start()) {
        let at = scan.len() - 6;
        assert(scan.subrange(at, at + 6)[0] == scan[at]);
        assert(scan.skip(at)[0] == scan[at]);
    }
    assert(scan.len() > 0 && scan.last() == b);
}

// ---------------------------------------------------------------------------
// Laws of the command keys
// ---------------------------------------------------------------------------

/// After the prefix, a key of one byte asks for its command, takes that byte alone, and what
/// follows it in the same read is input again.
pub proof fn keys_ask_for_their_command(st: InputState, key: u8, rest: Seq<u8>)
    requires
        st.armed,
        key != st.prefix,
        key != 0x09 && key != 0x1b && key != 0x71,
    ensures
        ({
            let after = InputState { armed: false, ..st };
            let asked = actions_of(st, seq![key] + rest);
            let more = actions_of(after, rest);
            &&& read(st, seq![key] + rest).1 == read(after, rest).1
            &&& key == 0x3f ==> asked == seq![ActionView::ShowHelp] + more
            &&& key == 0x68 ==> asked == seq![ActionView::Width(-1)] + more
            &&& key == 0x6c ==> asked == seq![ActionView::Width(1)] + more
            &&& key == 0x74 ==> asked == seq![ActionView::ToggleAutoHide] + more
            &&& key != 0x3f && key != 0x68 && key != 0x6c && key != 0x74 ==> asked == more
        }),
{
    let s = seq![key] + rest;
    let after = InputState { armed: false, ..st };
    let more = read(after, rest).0;
    assert(s[0] == key);
    assert(s.skip(1) =~= rest);
    let tokens = command(st.prefix, s).0;
    assert(read(st, s).0 =~= tokens + more);
    if tokens.len() == 0 {
        assert(tokens + more =~= more);
    } else {
        let a = tokens[0]->Act_0;
        assert(tokens =~= seq![Token::Act(a)]);
        coalesced_step(Seq::empty(), Token::Act(a), more);
        assert(actions_of(st, s) =~= seq![a] + actions_of(after, rest));
    }
}

/// After the prefix, `q` quits, and Tab and Esc give the focus back to the tree with what
/// follows them; the read ends there.
pub proof fn leaving_keys(st: InputState, rest: Seq<u8>)
    requires
        st.armed,
    ensures
        st.prefix != 0x71 ==> actions_of(st, seq![0x71u8] + rest) == seq![ActionView::Quit],
        st.prefix != 0x71 ==> read(st, seq![0x71u8] + rest).1 == (InputState { armed: false, ..st }),
        st.prefix != 0x09 ==> actions_of(st, seq![0x09u8] + rest) == seq![
            ActionView::FocusTree(rest),
        ],
        st.prefix != 0x09 ==> read(st, seq![0x09u8] + rest).1 == (InputState { armed: false, ..st }),
        st.prefix != 0x1b && (rest.len() == 0 || rest[0] != 0x5b) ==> actions_of(
            st,
            seq![0x1bu8] + rest,
        ) == seq![ActionView::FocusTree(rest)],
        st.prefix != 0x1b && (rest.len() == 0 || rest[0] != 0x5b) ==> read(
            st,
            seq![0x1bu8] + rest,
        ).1 == (InputState { armed: false, ..st }),
{
    let q = seq![0x71u8] + rest;
    let tab = seq![0x09u8] + rest;
    let esc = seq![0x1bu8] + rest;
    assert(tab.skip(1) =~= rest);
    assert(esc.skip(1) =~= rest);
    if rest.len() > 0 {
        assert(esc[1] == rest[0]);
    }
    one_action(ActionView::Quit);
    one_action(ActionView::FocusTree(rest));
}

/// After the prefix an arrow is one key: Right stays in the pane, and each of the others
/// gives the focus back to the tree with what follows it.
pub proof fn arrow_keys(st: InputState, last: u8, rest: Seq<u8>)
    requires
        st.armed,
        st.prefix != 0x1b,
        0x41 <= last <= 0x44,
    ensures
        ({
            let after = InputState { armed: false, ..st };
            let s = seq![0x1bu8, 0x5b, last] + rest;
            &&& last == 0x43 ==> actions_of(st, s) == actions_of(after, rest)
            &&& last == 0x43 ==> read(st, s).1 == read(after, rest).1
            &&& last != 0x43 ==> actions_of(st, s) == seq![ActionView::FocusTree(rest)]
            &&& last != 0x43 ==> read(st, s).1 == after
        }),
{
    let s = seq![0x1bu8, 0x5b, last] + rest;
    assert(s[0] == 0x1b && s[1] == 0x5b && s[2] == last);
    assert(s.skip(3) =~= rest);
    let more = read(InputState { armed: false, ..st }, rest).0;
    assert(Seq::<Token>::empty() + more =~= more);
    one_action(ActionView::FocusTree(rest));
}

/// After the prefix, Ctrl with Right widens the tree and Ctrl with Left narrows it.
pub proof fn ctrl_arrow_keys(st: InputState, rest: Seq<u8>)
    requires
        st.armed,
        st.prefix != 0x1b,
    ensures
        ({
            let after = InputState { armed: false, ..st };
            let right = seq![0x1bu8, 0x5b, 0x31, 0x3b, 0x35, 0x43] + rest;
            let left = seq![0x1bu8, 0x5b, 0x31, 0x3b, 0x35, 0x44] + rest;
            &&& actions_of(st, right) == seq![ActionView::Width(1)] + actions_of(after, rest)
            &&& read(st, right).1 == read(after, rest).1
            &&& actions_of(st, left) == seq![ActionView::Width(-1)] + actions_of(after, rest)
            &&& read(st, left).1 == read(after, rest).1
        }),
{
    let after = InputState { armed: false, ..st };
    let right = seq![0x1bu8, 0x5b, 0x31, 0x3b, 0x35, 0x43] + rest;
    let left = seq![0x1bu8, 0x5b, 0x31, 0x3b, 0x35, 0x44] + rest;
    let more = read(after, rest).0;
    assert(right.skip(6) =~= rest);
    assert(left.skip(6) =~= rest);
    assert(is_ctrl_arrow(right));
    assert(is_ctrl_arrow(left));
    coalesced_step(Seq::empty(), Token::Act(ActionView::Width(1)), more);
    coalesced_step(Seq::empty(), Token::Act(ActionView::Width(-1)), more);
    assert(actions_of(st, right) =~= seq![ActionView::Width(1)] + actions_of(after, rest));
    assert(actions_of(st, left) =~= seq![ActionView::Width(-1)] + actions_of(after, rest));
}

proof fn one_action(a: ActionView)
    ensures
        coalesced(Seq::empty(), seq![Token::Act(a)]) == seq![a],
{
    coalesced_step(Seq::empty(), Token::Act(a), Seq::empty());
    assert(seq![Token::Act(a)] + Seq::<Token>::empty() =~= seq![Token::Act(a)]);
    assert(coalesced(Seq::empty(), seq![Token::Act(a)]) =~= seq![a]);
}

/// A command key is no data: it leaves what a paste is doing as it was.
pub proof fn keys_are_no_data(st: InputState, key: u8, h: Seq<u8>)
    requires
        st.armed,
        has_seen(st, h),
    ensures
        has_seen(read(st, seq![key]).1, h),
        !read(st, seq![key]).1.armed,
{
    reveal_with_fuel(read, 2);
    assert(seq![key].skip(1) =~= Seq::empty());
}

} // verus!
