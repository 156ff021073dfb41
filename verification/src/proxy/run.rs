//! The state behind one attached mux client: what its output does to the grid,
//! which of its terminal queries are answered, and which commands wait for it.
use crate::bytes;
use crate::model::death::{marker_tty, parse_display_tty_marker};
use crate::mux::vocab::{mux_env_keys_to_clear, mux_vars};
use crate::number;
use crate::proxy::screen::{
    clamped, held_back, is_size, read_on, vt_cursor, vt_fresh, vt_resized, vt_size, Grid, Terminal,
};
use crate::text;
use vstd::prelude::*;

verus! {

/// What the pump of an attachment reports.
#[derive(Clone, Debug, PartialEq, Eq)]
pub enum PtyEvent {
    /// The grid read a chunk of child output: redraw.
    Output { id: u64 },
    /// The child's output ended: reap the attachment.
    Exited { id: u64 },
    /// The attach shell has reported its own tty.
    DisplayTty { id: u64, tty: String },
}

/// A [`PtyEvent`] with its text as a sequence.
pub enum PtyEventView {
    Output { id: u64 },
    Exited { id: u64 },
    DisplayTty { id: u64, tty: Seq<char> },
}

impl View for PtyEvent {
    type V = PtyEventView;

    open spec fn view(&self) -> PtyEventView {
        match self {
            PtyEvent::Output { id } => PtyEventView::Output { id: *id },
            PtyEvent::Exited { id } => PtyEventView::Exited { id: *id },
            PtyEvent::DisplayTty { id, tty } => PtyEventView::DisplayTty { id: *id, tty: tty@ },
        }
    }
}

/// The views of a sequence of events.
pub open spec fn event_views(v: Seq<PtyEvent>) -> Seq<PtyEventView> {
    v.map_values(|e: PtyEvent| e@)
}

/// A command for the child: bytes to write to it, or a size to give it.
#[derive(Clone, Debug, PartialEq, Eq)]
pub enum PtyCmd {
    Input(Vec<u8>),
    Resize { cols: u16, rows: u16 },
}

/// A [`PtyCmd`] with its bytes as a sequence.
pub enum PtyCmdView {
    Input(Seq<u8>),
    Resize { cols: u16, rows: u16 },
}

impl View for PtyCmd {
    type V = PtyCmdView;

    open spec fn view(&self) -> PtyCmdView {
        match self {
            PtyCmd::Input(b) => PtyCmdView::Input(b@),
            PtyCmd::Resize { cols, rows } => PtyCmdView::Resize { cols: *cols, rows: *rows },
        }
    }
}

/// The views of a sequence of commands.
pub open spec fn cmd_views(v: Seq<PtyCmd>) -> Seq<PtyCmdView> {
    v.map_values(|c: PtyCmd| c@)
}

// ---------------------------------------------------------------------------
// Terminal queries
// ---------------------------------------------------------------------------

/// `ESC [ 6 n`: where is the cursor?
pub open spec fn cursor_query() -> Seq<u8> {
    seq![0x1bu8, 0x5bu8, 0x36u8, 0x6eu8]
}

/// `ESC [ c`: what are you?
pub open spec fn device_query() -> Seq<u8> {
    seq![0x1bu8, 0x5bu8, 0x63u8]
}

/// `ESC [ 0 c`: what are you?
pub open spec fn device_query_zero() -> Seq<u8> {
    seq![0x1bu8, 0x5bu8, 0x30u8, 0x63u8]
}

/// `ESC [ ? 1 ; 2 c`: a VT100 with advanced video.
pub open spec fn device_reply() -> Seq<u8> {
    seq![0x1bu8, 0x5bu8, 0x3fu8, 0x31u8, 0x3bu8, 0x32u8, 0x63u8]
}

/// `ESC [ row ; column R`, counted from one, for the cursor at (column, row).
pub open spec fn cursor_reply(cursor: (u16, u16)) -> Seq<u8> {
    seq![0x1bu8, 0x5bu8] + number::ascii(number::decimal((cursor.1 + 1) as nat)) + seq![0x3bu8]
        + number::ascii(number::decimal((cursor.0 + 1) as nat)) + seq![0x52u8]
}

/// The reply to the query that `s` begins with; empty where it begins with none.
pub open spec fn reply(s: Seq<u8>, cursor: (u16, u16)) -> Seq<u8> {
    if bytes::found_at(s, cursor_query(), 0) {
        cursor_reply(cursor)
    } else if bytes::found_at(s, device_query(), 0) || bytes::found_at(s, device_query_zero(), 0) {
        device_reply()
    } else {
        Seq::empty()
    }
}

/// The replies to the queries in `s`, in order.
pub open spec fn replies(s: Seq<u8>, cursor: (u16, u16)) -> Seq<u8>
    decreases s.len(),
{
    if s.len() == 0 {
        Seq::empty()
    } else {
        reply(s, cursor) + replies(s.drop_first(), cursor)
    }
}

/// Whether `p` is the beginning of a query, and not a whole one.
pub open spec fn unfinished(p: Seq<u8>) -> bool {
    p == seq![0x1bu8, 0x5bu8, 0x36u8] || p == seq![0x1bu8, 0x5bu8, 0x30u8] || p == seq![
        0x1bu8,
        0x5bu8,
    ] || p == seq![0x1bu8]
}

/// How many bytes at the end of `s` begin a query that they do not finish.
pub open spec fn partial_len(s: Seq<u8>) -> int {
    let n = s.len() as int;
    if n >= 3 && s[n - 3] == 0x1b && s[n - 2] == 0x5b && (s[n - 1] == 0x36 || s[n - 1] == 0x30) {
        3
    } else if n >= 2 && s[n - 2] == 0x1b && s[n - 1] == 0x5b {
        2
    } else if n >= 1 && s[n - 1] == 0x1b {
        1
    } else {
        0
    }
}

/// The unfinished query at the end of `s`.
pub open spec fn partial(s: Seq<u8>) -> Seq<u8> {
    s.skip(s.len() - partial_len(s))
}

/// `ESC [` stands at none of the positions inside a query.
proof fn nothing_inside(s: Seq<u8>, n: int, cursor: (u16, u16))
    requires
        1 <= n <= s.len(),
        forall|j: int| 1 <= j < n ==> s[j] != 0x1b,
    ensures
        replies(s, cursor) == reply(s, cursor) + replies(s.skip(n), cursor),
    decreases n,
{
    if n == 1 {
        assert(s.skip(1) =~= s.drop_first());
    } else {
        nothing_inside(s, n - 1, cursor);
        let t = s.skip(n - 1);
        assert(t[0] == s[n - 1]);
        assert(!bytes::found_at(t, cursor_query(), 0)) by {
            first_of(t, cursor_query());
        }
        assert(!bytes::found_at(t, device_query(), 0)) by {
            first_of(t, device_query());
        }
        assert(!bytes::found_at(t, device_query_zero(), 0)) by {
            first_of(t, device_query_zero());
        }
        assert(t.drop_first() =~= s.skip(n));
        assert(reply(t, cursor) + replies(t.drop_first(), cursor) =~= replies(s.skip(n), cursor));
    }
}

proof fn first_of(t: Seq<u8>, q: Seq<u8>)
    requires
        q.len() >= 1,
        t.len() >= 1,
        t[0] != q[0],
    ensures
        !bytes::found_at(t, q, 0),
{
    if bytes::found_at(t, q, 0) {
        assert(t.subrange(0, q.len() as int)[0] == q[0]);
    }
}

/// The responses owed to the child for the queries in `data`, with the cursor at
/// (column, row): the cursor's position for `ESC[6n`, the attributes of a VT100 for
/// `ESC[c` and `ESC[0c`. Nothing else would answer, and the child would wait.
pub fn query_responses(data: &[u8], cursor: (u16, u16)) -> (out: Vec<u8>)
    requires
        cursor.0 < 0xffff,
        cursor.1 < 0xffff,
    ensures
        out@ == replies(data@, cursor),
{
    let mut out: Vec<u8> = Vec::new();
    let mut i: usize = 0;
    let report: [u8; 4] = [0x1b, 0x5b, 0x36, 0x6e];
    let device: [u8; 3] = [0x1b, 0x5b, 0x63];
    let device_zero: [u8; 4] = [0x1b, 0x5b, 0x30, 0x63];
    let attributes: [u8; 7] = [0x1b, 0x5b, 0x3f, 0x31, 0x3b, 0x32, 0x63];
    proof {
        assert(data@.skip(0) =~= data@);
        assert(out@ + replies(data@, cursor) =~= replies(data@, cursor));
    }
    while i < data.len()
        invariant
            cursor.0 < 0xffff,
            cursor.1 < 0xffff,
            i <= data@.len(),
            report@ =~= cursor_query(),
            device@ =~= device_query(),
            device_zero@ =~= device_query_zero(),
            attributes@ =~= device_reply(),
            out@ + replies(data@.skip(i as int), cursor) == replies(data@, cursor),
        decreases data.len() - i,
    {
        let ghost s = data@.skip(i as int);
        let ghost before = out@;
        let mut step: usize = 1;
        proof {
            here(data@, cursor_query(), i as int);
            here(data@, device_query(), i as int);
            here(data@, device_query_zero(), i as int);
        }
        if bytes::matches_at(data, &report, i) {
            out.push(0x1b);
            out.push(0x5b);
            number::push_decimal(&mut out, cursor.1 as u64 + 1);
            out.push(0x3b);
            number::push_decimal(&mut out, cursor.0 as u64 + 1);
            out.push(0x52);
            step = 4;
            proof {
                assert(out@ =~= before + cursor_reply(cursor));
                inside(s, cursor_query());
            }
        } else if bytes::matches_at(data, &device, i) {
            bytes::extend(&mut out, &attributes);
            step = 3;
            proof {
                inside(s, device_query());
            }
        } else if bytes::matches_at(data, &device_zero, i) {
            bytes::extend(&mut out, &attributes);
            step = 4;
            proof {
                inside(s, device_query_zero());
            }
        } else {
            assert(out@ =~= before + Seq::<u8>::empty());
        }
        proof {
            nothing_inside(s, step as int, cursor);
            assert(s.skip(step as int) =~= data@.skip(i + step));
            assert(out@ == before + reply(s, cursor));
            assert(out@ + replies(data@.skip(i + step), cursor) =~= before + (reply(s, cursor)
                + replies(s.skip(step as int), cursor)));
        }
        i += step;
    }
    proof {
        assert(data@.skip(i as int).len() == 0);
        assert(out@ + replies(data@.skip(i as int), cursor) =~= out@);
    }
    out
}

proof fn here(s: Seq<u8>, q: Seq<u8>, i: int)
    requires
        0 <= i <= s.len(),
    ensures
        bytes::found_at(s, q, i) == bytes::found_at(s.skip(i), q, 0),
{
    if i + q.len() <= s.len() {
        assert(s.subrange(i, i + q.len()) =~= s.skip(i).subrange(0, q.len() as int));
    }
}

/// The bytes of a query after its first are none that a query begins with.
proof fn inside(s: Seq<u8>, q: Seq<u8>)
    requires
        bytes::found_at(s, q, 0),
        forall|j: int| 1 <= j < q.len() ==> q[j] != 0x1b,
    ensures
        forall|j: int| 1 <= j < q.len() ==> s[j] != 0x1b,
        q.len() <= s.len(),
{
    assert forall|j: int| 1 <= j < q.len() implies s[j] != 0x1b by {
        assert(s.subrange(0, q.len() as int)[j] == q[j]);
    }
}

/// The bytes at the end of `data` that begin a query and do not finish it: they are
/// carried over to the next read. A whole query, which was answered, is not.
pub fn trailing_partial_query(data: &[u8]) -> (p: &[u8])
    ensures
        p@ == partial(data@),
{
    let n: usize = data.len();
    let keep: usize = if n >= 3 && data[n - 3] == 0x1b && data[n - 2] == 0x5b && (data[n - 1] == 0x36
        || data[n - 1] == 0x30) {
        3
    } else if n >= 2 && data[n - 2] == 0x1b && data[n - 1] == 0x5b {
        2
    } else if n >= 1 && data[n - 1] == 0x1b {
        1
    } else {
        0
    };
    let p = vstd::slice::slice_subrange(data, n - keep, n);
    proof {
        assert(p@ =~= partial(data@));
    }
    p
}

// ---------------------------------------------------------------------------
// The marker
// ---------------------------------------------------------------------------

/// Gathers output in `acc` until a whole display-tty marker is in it, and then
/// captures the tty, once, and lets the gathered output go.
pub fn scan_marker_once(acc: &mut Vec<u8>, captured: &mut Option<String>, chunk: &[u8])
    ensures
        scanned(
            (old(acc)@, text::opt_text(*old(captured))),
            chunk@,
        ) == (final(acc)@, text::opt_text(*final(captured))),
{
    if captured.is_some() {
        return ;
    }
    bytes::extend(acc, chunk);
    if let Some(tty) = parse_display_tty_marker(acc.as_slice()) {
        *captured = Some(tty);
        *acc = Vec::new();
    }
}

/// What is gathered and what is captured once a chunk was scanned.
pub open spec fn scanned(
    st: (Seq<u8>, Option<Seq<char>>),
    chunk: Seq<u8>,
) -> (Seq<u8>, Option<Seq<char>>) {
    if st.1 is Some {
        st
    } else {
        match marker_tty(st.0 + chunk) {
            Some(tty) => (Seq::empty(), Some(tty)),
            None => (st.0 + chunk, None),
        }
    }
}

// ---------------------------------------------------------------------------
// The attachment
// ---------------------------------------------------------------------------

/// One kept live attach: the grid that its output is read into, the commands that
/// wait for the child, and what the pump carries from one read to the next.
pub struct Attachment {
    /// The grid that is drawn when the attachment is selected.
    pub grid: Grid,
    /// Commands for the child, in order.
    pub outbox: Vec<PtyCmd>,
    /// Columns and rows.
    pub size: (u16, u16),
    /// True until the first output proves the attach live.
    pub connecting: bool,
    /// Whether an output event waits for a redraw.
    pub pending: bool,
    /// The unfinished query at the end of what was read.
    pub carried: Vec<u8>,
    /// Output in which the marker is looked for.
    pub gathered: Vec<u8>,
    /// The tty that the attach shell reported.
    pub tty: Option<String>,
    pub id: u64,
}

/// What an [`Attachment`] is.
#[verifier::ext_equal]
pub struct AttachmentView {
    pub terminal: Terminal,
    /// What of the output the grid reads once more is known.
    pub held: Seq<u8>,
    pub outbox: Seq<PtyCmdView>,
    pub size: (u16, u16),
    pub connecting: bool,
    pub pending: bool,
    pub carried: Seq<u8>,
    pub gathered: Seq<u8>,
    pub tty: Option<Seq<char>>,
    pub id: u64,
}

impl View for Attachment {
    type V = AttachmentView;

    open spec fn view(&self) -> AttachmentView {
        AttachmentView {
            terminal: self.grid.terminal(),
            held: self.grid.held(),
            outbox: cmd_views(self.outbox@),
            size: self.size,
            connecting: self.connecting,
            pending: self.pending,
            carried: self.carried@,
            gathered: self.gathered@,
            tty: text::opt_text(self.tty),
            id: self.id,
        }
    }
}

/// An attachment whose child has just been started.
pub open spec fn started(cols: u16, rows: u16, id: u64) -> AttachmentView {
    AttachmentView {
        terminal: vt_fresh(rows, cols),
        held: Seq::empty(),
        outbox: Seq::empty(),
        size: (cols, rows),
        connecting: true,
        pending: false,
        carried: Seq::empty(),
        gathered: Seq::empty(),
        tty: None,
        id,
    }
}

/// The cursor of an attachment's grid, as (column, row).
pub open spec fn cursor_of(t: Terminal) -> (u16, u16) {
    clamped(vt_size(t), vt_cursor(t))
}

/// The replies that a chunk of output calls for.
pub open spec fn pump_reply(a: AttachmentView, chunk: Seq<u8>) -> Seq<u8> {
    replies(a.carried + chunk, cursor_of(read_on(a.terminal, a.held + chunk)))
}

/// The attachment once its pump has read a chunk of output: the grid has read it,
/// the queries in it are answered, an unfinished one is carried over, and the marker
/// is looked for.
pub open spec fn pumped(a: AttachmentView, chunk: Seq<u8>) -> AttachmentView {
    let (gathered, tty) = scanned((a.gathered, a.tty), chunk);
    AttachmentView {
        terminal: read_on(a.terminal, a.held + chunk),
        held: held_back(a.held + chunk),
        outbox: if pump_reply(a, chunk).len() > 0 {
            a.outbox.push(PtyCmdView::Input(pump_reply(a, chunk)))
        } else {
            a.outbox
        },
        connecting: false,
        pending: true,
        carried: partial(a.carried + chunk),
        gathered,
        tty,
        ..a
    }
}

/// What the pump reports of a chunk: the tty, where this chunk has completed the
/// marker; the output, unless a report of it still waits for a redraw.
pub open spec fn pump_events(a: AttachmentView, chunk: Seq<u8>) -> Seq<PtyEventView> {
    let first = match pumped(a, chunk).tty {
        Some(tty) => if a.tty is None {
            seq![PtyEventView::DisplayTty { id: a.id, tty }]
        } else {
            Seq::empty()
        },
        None => Seq::empty(),
    };
    if a.pending {
        first
    } else {
        first.push(PtyEventView::Output { id: a.id })
    }
}

/// What it takes to start the child of an attachment.
#[derive(Clone, Debug, PartialEq, Eq)]
pub struct SpawnPlan {
    pub program: String,
    pub args: Vec<String>,
    /// The variables that the child must not inherit.
    pub cleared: Vec<String>,
    pub cols: u16,
    pub rows: u16,
}

/// What it takes to start `argv` at a size, in an environment with these variables: the
/// mux session variables are cleared, which would lead the child to another server. There
/// is nothing to start without a program.
pub fn spawn_plan(argv: &[String], env_keys: Vec<String>, cols: u16, rows: u16) -> (r: Result<
    SpawnPlan,
    String,
>)
    ensures
        match r {
            Ok(p) => argv@.len() > 0 && p.program@ == argv@[0]@ && text::texts(p.args@)
                == text::texts(argv@).skip(1) && text::texts(p.cleared@) == mux_vars(
                text::texts(env_keys@),
            ) && p.cols == cols && p.rows == rows,
            Err(e) => argv@.len() == 0 && e@ == "spawn_attachment: argv must not be empty"@,
        },
{
    if argv.len() == 0 {
        return Err("spawn_attachment: argv must not be empty".to_owned());
    }
    let mut args: Vec<String> = Vec::new();
    let mut i: usize = 1;
    while i < argv.len()
        invariant
            1 <= i <= argv@.len(),
            args@.len() == i - 1,
            forall|j: int| 0 <= j < i - 1 ==> (#[trigger] args@[j])@ == argv@[j + 1]@,
        decreases argv.len() - i,
    {
        args.push(argv[i].clone());
        i += 1;
    }
    proof {
        assert(text::texts(args@) =~= text::texts(argv@).skip(1));
    }
    Ok(
        SpawnPlan {
            program: argv[0].clone(),
            args,
            cleared: mux_env_keys_to_clear(env_keys),
            cols,
            rows,
        },
    )
}

impl Attachment {
    /// An attachment of this size, under this id.
    pub fn new(cols: u16, rows: u16, id: u64) -> (a: Attachment)
        requires
            is_size(rows, cols),
        ensures
            a@ == started(cols, rows, id),
            vt_size(a.grid.terminal()) == (rows, cols),
    {
        let a = Attachment {
            grid: Grid::new(rows, cols),
            outbox: Vec::new(),
            size: (cols, rows),
            connecting: true,
            pending: false,
            carried: Vec::new(),
            gathered: Vec::new(),
            tty: None,
            id,
        };
        proof {
            assert(a@.outbox =~= Seq::empty());
        }
        a
    }

    pub fn id(&self) -> (id: u64)
        ensures
            id == self@.id,
    {
        self.id
    }

    /// Queues input for the child.
    pub fn input(&mut self, bytes: Vec<u8>)
        ensures
            final(self)@ == (AttachmentView {
                outbox: old(self)@.outbox.push(PtyCmdView::Input(bytes@)),
                ..old(self)@
            }),
    {
        self.outbox.push(PtyCmd::Input(bytes));
        proof {
            assert(self@.outbox =~= old(self)@.outbox.push(PtyCmdView::Input(bytes@)));
        }
    }

    /// Notes a redraw: the next output may be reported.
    pub fn clear_pending(&mut self)
        ensures
            final(self)@ == (AttachmentView { pending: false, ..old(self)@ }),
    {
        self.pending = false;
    }

    /// Queues a resize for the child, and resizes the grid.
    pub fn resize(&mut self, cols: u16, rows: u16)
        requires
            is_size(rows, cols),
        ensures
            final(self)@ == resized(old(self)@, cols, rows),
            vt_size(final(self)@.terminal) == (rows, cols),
    {
        self.outbox.push(PtyCmd::Resize { cols, rows });
        self.grid.resize(rows, cols);
        self.size = (cols, rows);
        proof {
            assert(self@ =~= resized(old(self)@, cols, rows));
        }
    }

    /// The commands that wait for the child; they wait no longer.
    pub fn take_commands(&mut self) -> (cmds: Vec<PtyCmd>)
        ensures
            cmd_views(cmds@) == old(self)@.outbox,
            final(self)@ == (AttachmentView { outbox: Seq::empty(), ..old(self)@ }),
    {
        let mut cmds: Vec<PtyCmd> = Vec::new();
        std::mem::swap(&mut cmds, &mut self.outbox);
        proof {
            assert(self@.outbox =~= Seq::empty());
        }
        cmds
    }

    /// Reads a chunk of child output, and says what to report of it.
    pub fn output(&mut self, chunk: &[u8]) -> (events: Vec<PtyEvent>)
        ensures
            final(self)@ == pumped(old(self)@, chunk@),
            vt_size(final(self)@.terminal) == vt_size(old(self)@.terminal),
            event_views(events@) == pump_events(old(self)@, chunk@),
    {
        self.grid.feed(chunk);
        let cursor = self.grid.cursor();
        bytes::extend(&mut self.carried, chunk);
        let responses = query_responses(self.carried.as_slice(), cursor);
        if responses.len() > 0 {
            self.outbox.push(PtyCmd::Input(responses));
        }
        let keep = trailing_partial_query(self.carried.as_slice());
        let kept = bytes::copy(keep, 0, keep.len());
        self.carried = kept;
        self.connecting = false;
        let known = self.tty.is_some();
        scan_marker_once(&mut self.gathered, &mut self.tty, chunk);
        let mut events: Vec<PtyEvent> = Vec::new();
        if !known {
            if let Some(tty) = &self.tty {
                events.push(PtyEvent::DisplayTty { id: self.id, tty: tty.clone() });
            }
        }
        if !self.pending {
            events.push(PtyEvent::Output { id: self.id });
        }
        self.pending = true;
        proof {
            let was = old(self)@;
            assert(self@.carried =~= partial(was.carried + chunk@));
            assert(self@ =~= pumped(was, chunk@));
            assert(event_views(events@) =~= pump_events(was, chunk@));
        }
        events
    }

    /// What is reported when the child's output ends.
    pub fn ended(&self) -> (e: PtyEvent)
        ensures
            e@ == (PtyEventView::Exited { id: self@.id }),
    {
        PtyEvent::Exited { id: self.id }
    }

    /// Lets the attachment go, and hands out its id: its child is to be killed.
    pub fn teardown(self) -> (id: u64)
        ensures
            id == self@.id,
    {
        self.id
    }
}

/// An attachment at another size.
pub open spec fn resized(a: AttachmentView, cols: u16, rows: u16) -> AttachmentView {
    AttachmentView {
        terminal: vt_resized(a.terminal, rows, cols),
        outbox: a.outbox.push(PtyCmdView::Resize { cols, rows }),
        size: (cols, rows),
        ..a
    }
}

// ---------------------------------------------------------------------------
// Laws of the pump
// ---------------------------------------------------------------------------

/// Output may be cut anywhere: with what is carried over, the queries in the two
/// parts are answered as those in the whole, each of them once.
pub proof fn queries_may_be_cut(a: Seq<u8>, b: Seq<u8>, cursor: (u16, u16))
    ensures
        replies(a + b, cursor) == replies(a, cursor) + replies(partial(a) + b, cursor),
    decreases a.len(),
{
    if a.len() == 0 {
        assert(partial(a) + b =~= b);
        assert(a + b =~= b);
        assert(replies(a, cursor) + replies(b, cursor) =~= replies(b, cursor));
    } else if partial_len(a) == a.len() {
        assert(partial(a) =~= a);
        unfinished_is_unanswered(a, cursor);
        assert(replies(a, cursor) + replies(a + b, cursor) =~= replies(a + b, cursor));
    } else {
        let t = a.drop_first();
        queries_may_be_cut(t, b, cursor);
        assert(partial_len(t) == partial_len(a));
        assert(partial(t) =~= partial(a));
        assert((a + b).drop_first() =~= t + b);
        whole_or_none(a, b, cursor_query());
        whole_or_none(a, b, device_query());
        whole_or_none(a, b, device_query_zero());
        assert(reply(a + b, cursor) == reply(a, cursor));
        assert(reply(a, cursor) + (replies(t, cursor) + replies(partial(a) + b, cursor)) =~= (reply(
            a,
            cursor,
        ) + replies(t, cursor)) + replies(partial(a) + b, cursor));
    }
}

/// A query that begins with `a` and is not finished in it leaves `a` unfinished.
proof fn whole_or_none(a: Seq<u8>, b: Seq<u8>, q: Seq<u8>)
    requires
        a.len() > 0,
        partial_len(a) != a.len(),
        q == cursor_query() || q == device_query() || q == device_query_zero(),
    ensures
        bytes::found_at(a + b, q, 0) == bytes::found_at(a, q, 0),
{
    let n = q.len() as int;
    if n <= a.len() {
        assert((a + b).subrange(0, n) =~= a.subrange(0, n));
    } else if bytes::found_at(a + b, q, 0) {
        assert forall|j: int| 0 <= j < a.len() implies a[j] == q[j] by {
            assert((a + b).subrange(0, n)[j] == q[j]);
        }
        assert(false);
    }
}

/// An unfinished query calls for no reply.
proof fn unfinished_is_unanswered(a: Seq<u8>, cursor: (u16, u16))
    requires
        a.len() > 0,
        partial_len(a) == a.len(),
    ensures
        replies(a, cursor) == Seq::<u8>::empty(),
{
    reveal_with_fuel(replies, 4);
    if bytes::found_at(a, device_query(), 0) {
        assert(a.subrange(0, 3)[2] == 0x63);
    }
    let t = a.drop_first();
    if t.len() > 0 {
        nothing_inside(a, a.len() as int, cursor);
        assert(a.skip(a.len() as int).len() == 0);
    }
    assert(replies(a, cursor) =~= Seq::empty());
}

/// What is carried over is unfinished: nothing in it was answered.
pub proof fn carried_is_unanswered(s: Seq<u8>, cursor: (u16, u16))
    ensures
        replies(partial(s), cursor) == Seq::<u8>::empty(),
        partial(s).len() == 0 || unfinished(partial(s)),
{
    let p = partial(s);
    if p.len() > 0 {
        assert(partial_len(p) == p.len());
        unfinished_is_unanswered(p, cursor);
        if p.len() == 3 {
            assert(p =~= seq![0x1bu8, 0x5bu8, 0x36u8] || p =~= seq![0x1bu8, 0x5bu8, 0x30u8]);
        } else if p.len() == 2 {
            assert(p =~= seq![0x1bu8, 0x5bu8]);
        } else {
            assert(p =~= seq![0x1bu8]);
        }
    }
}

/// Between two redraws an attachment reports output at most once.
pub proof fn output_is_reported_once(a: AttachmentView, first: Seq<u8>, then: Seq<u8>)
    ensures
        !pump_events(pumped(a, first), then).contains(PtyEventView::Output { id: a.id }),
{
    let e = pump_events(pumped(a, first), then);
    assert forall|i: int| 0 <= i < e.len() implies e[i] != (PtyEventView::Output { id: a.id }) by {}
}

/// Once a tty is captured it stays, and is not reported again.
pub proof fn tty_is_reported_once(a: AttachmentView, chunk: Seq<u8>)
    requires
        a.tty is Some,
    ensures
        pumped(a, chunk).tty == a.tty,
        forall|tty: Seq<char>|
            !pump_events(a, chunk).contains(PtyEventView::DisplayTty { id: a.id, tty }),
{
}

// ---------------------------------------------------------------------------
// Laws of the replies
// ---------------------------------------------------------------------------

/// Output without an escape byte asks nothing, and what follows it is answered as if it stood
/// alone.
pub proof fn plain_output_asks_nothing(a: Seq<u8>, b: Seq<u8>, cursor: (u16, u16))
    requires
        !a.contains(0x1b),
    ensures
        replies(a + b, cursor) == replies(b, cursor),
    decreases a.len(),
{
    if a.len() == 0 {
        assert(a + b =~= b);
    } else {
        let s = a + b;
        assert(s[0] == a[0]);
        assert(a.contains(a[0]));
        let t = a.drop_first();
        assert(!t.contains(0x1b)) by {
            if t.contains(0x1b) {
                let k = choose|k: int| 0 <= k < t.len() && t[k] == 0x1b;
                assert(a[k + 1] == 0x1b);
            }
        }
        plain_output_asks_nothing(t, b, cursor);
        assert(s.drop_first() =~= t + b);
        begins_no_query(s);
        assert(reply(s, cursor) + replies(t + b, cursor) =~= replies(t + b, cursor));
    }
}

proof fn begins_no_query(s: Seq<u8>)
    requires
        s.len() > 0,
        s[0] != 0x1b,
    ensures
        !bytes::found_at(s, cursor_query(), 0),
        !bytes::found_at(s, device_query(), 0),
        !bytes::found_at(s, device_query_zero(), 0),
{
    first_of(s, cursor_query());
    first_of(s, device_query());
    first_of(s, device_query_zero());
}

/// A query for the cursor is answered with its row and column, counted from one, and a query
/// for the device as a VT100 with advanced video; each once, and what follows is answered
/// next.
pub proof fn queries_are_answered(rest: Seq<u8>, col: u16, row: u16)
    ensures
        replies(seq![0x1bu8, 0x5b, 0x36, 0x6e] + rest, (col, row)) == seq![0x1bu8, 0x5b]
            + number::ascii(number::decimal((row + 1) as nat)) + seq![0x3bu8] + number::ascii(
            number::decimal((col + 1) as nat),
        ) + seq![0x52u8] + replies(rest, (col, row)),
        replies(seq![0x1bu8, 0x5b, 0x63] + rest, (col, row)) == seq![
            0x1bu8,
            0x5b,
            0x3f,
            0x31,
            0x3b,
            0x32,
            0x63,
        ] + replies(rest, (col, row)),
        replies(seq![0x1bu8, 0x5b, 0x30, 0x63] + rest, (col, row)) == seq![
            0x1bu8,
            0x5b,
            0x3f,
            0x31,
            0x3b,
            0x32,
            0x63,
        ] + replies(rest, (col, row)),
{
    let cursor = (col, row);
    let p = seq![0x1bu8, 0x5b, 0x36, 0x6e] + rest;
    let q = seq![0x1bu8, 0x5b, 0x63] + rest;
    let z = seq![0x1bu8, 0x5b, 0x30, 0x63] + rest;
    assert(p.subrange(0, 4) =~= cursor_query());
    nothing_inside(p, 4, cursor);
    assert(p.skip(4) =~= rest);
    assert(q.subrange(0, 3) =~= device_query());
    assert(!bytes::found_at(q, cursor_query(), 0)) by {
        if bytes::found_at(q, cursor_query(), 0) {
            assert(q.subrange(0, 4)[2] == q[2]);
        }
    }
    nothing_inside(q, 3, cursor);
    assert(q.skip(3) =~= rest);
    assert(z.subrange(0, 4) =~= device_query_zero());
    assert(!bytes::found_at(z, cursor_query(), 0)) by {
        if bytes::found_at(z, cursor_query(), 0) {
            assert(z.subrange(0, 4)[2] == z[2]);
        }
    }
    nothing_inside(z, 4, cursor);
    assert(z.skip(4) =~= rest);
}

/// Any other control sequence asks nothing.
pub proof fn other_sequences_ask_nothing(rest: Seq<u8>, second: u8, third: u8, cursor: (u16, u16))
    requires
        second != 0x1b,
        third != 0x1b,
        second != 0x5b || (third != 0x36 && third != 0x63 && third != 0x30),
    ensures
        replies(seq![0x1bu8, second, third] + rest, cursor) == replies(rest, cursor),
{
    let s = seq![0x1bu8, second, third] + rest;
    assert(s[0] == 0x1b && s[1] == second && s[2] == third);
    if bytes::found_at(s, cursor_query(), 0) {
        assert(s.subrange(0, 4)[1] == s[1] && s.subrange(0, 4)[2] == s[2]);
    }
    if bytes::found_at(s, device_query(), 0) {
        assert(s.subrange(0, 3)[1] == s[1] && s.subrange(0, 3)[2] == s[2]);
    }
    if bytes::found_at(s, device_query_zero(), 0) {
        assert(s.subrange(0, 4)[1] == s[1] && s.subrange(0, 4)[2] == s[2]);
    }
    nothing_inside(s, 3, cursor);
    assert(s.skip(3) =~= rest);
    assert(Seq::<u8>::empty() + replies(rest, cursor) =~= replies(rest, cursor));
}

/// What is carried over is the beginning of a query that the output ends with, and nothing
/// where it ends with none.
pub proof fn unfinished_query_is_carried(a: Seq<u8>, last: u8)
    ensures
        partial(a + seq![0x1bu8]) == seq![0x1bu8],
        partial(a + seq![0x1bu8, 0x5b]) == seq![0x1bu8, 0x5b],
        partial(a + seq![0x1bu8, 0x5b, 0x36]) == seq![0x1bu8, 0x5b, 0x36],
        partial(a + seq![0x1bu8, 0x5b, 0x30]) == seq![0x1bu8, 0x5b, 0x30],
        last != 0x1b && last != 0x5b && last != 0x36 && last != 0x30 ==> partial(
            a.push(last),
        ).len() == 0,
        partial(Seq::empty()).len() == 0,
{
    assert(partial(a + seq![0x1bu8]) =~= seq![0x1bu8]);
    assert(partial(a + seq![0x1bu8, 0x5b]) =~= seq![0x1bu8, 0x5b]);
    assert(partial(a + seq![0x1bu8, 0x5b, 0x36]) =~= seq![0x1bu8, 0x5b, 0x36]);
    assert(partial(a + seq![0x1bu8, 0x5b, 0x30]) =~= seq![0x1bu8, 0x5b, 0x30]);
}

/// A chunk of output is read by the grid behind what it held; what it asks is answered with
/// the cursor as the chunk left it, behind what waits to be sent; and the attachment stands.
pub proof fn chunk_is_read_and_answered(a: AttachmentView, chunk: Seq<u8>)
    ensures
        ({
            let after = pumped(a, chunk);
            let t = read_on(a.terminal, a.held + chunk);
            let said = replies(a.carried + chunk, clamped(vt_size(t), vt_cursor(t)));
            &&& after.terminal == t
            &&& after.held == held_back(a.held + chunk)
            &&& said.len() > 0 ==> after.outbox == a.outbox.push(PtyCmdView::Input(said))
            &&& said.len() == 0 ==> after.outbox == a.outbox
            &&& !after.connecting
            &&& after.pending
            &&& after.carried == partial(a.carried + chunk)
            &&& after.id == a.id
            &&& after.size == a.size
        }),
{
}

/// A chunk is reported where no report of output waits for a redraw, with the tty in front of
/// it where this chunk completed the marker.
pub proof fn chunk_is_reported(a: AttachmentView, chunk: Seq<u8>)
    ensures
        ({
            let e = pump_events(a, chunk);
            let told = a.tty is None && marker_tty(a.gathered + chunk) is Some;
            let tty = PtyEventView::DisplayTty {
                id: a.id,
                tty: marker_tty(a.gathered + chunk)->0,
            };
            let out = PtyEventView::Output { id: a.id };
            &&& told && a.pending ==> e == seq![tty]
            &&& told && !a.pending ==> e == seq![tty, out]
            &&& !told && a.pending ==> e.len() == 0
            &&& !told && !a.pending ==> e == seq![out]
            &&& told ==> pumped(a, chunk).tty == marker_tty(a.gathered + chunk)
            &&& a.tty is None && !told ==> pumped(a, chunk).tty is None && pumped(
                a,
                chunk,
            ).gathered == a.gathered + chunk
        }),
{
    let out = PtyEventView::Output { id: a.id };
    assert(Seq::<PtyEventView>::empty().push(out) =~= seq![out]);
    let tty = PtyEventView::DisplayTty { id: a.id, tty: marker_tty(a.gathered + chunk)->0 };
    assert(seq![tty].push(out) =~= seq![tty, out]);
}

/// Another size is given to the grid and sent to the child; nothing else changes.
pub proof fn size_is_passed_on(a: AttachmentView, cols: u16, rows: u16)
    ensures
        ({
            let after = resized(a, cols, rows);
            &&& after.terminal == vt_resized(a.terminal, rows, cols)
            &&& after.outbox == a.outbox.push(PtyCmdView::Resize { cols, rows })
            &&& after.size == (cols, rows)
            &&& after.connecting == a.connecting && after.pending == a.pending && after.id == a.id
            &&& after.held == a.held && after.carried == a.carried && after.gathered == a.gathered
            &&& after.tty == a.tty
        }),
{
}

/// An attachment that was just started has nothing to show, to send or to report.
pub proof fn started_is_blank(cols: u16, rows: u16, id: u64)
    ensures
        ({
            let a = started(cols, rows, id);
            &&& a.terminal == vt_fresh(rows, cols)
            &&& a.outbox.len() == 0 && a.held.len() == 0 && a.carried.len() == 0
                && a.gathered.len() == 0
            &&& a.connecting && !a.pending && a.tty is None
            &&& a.id == id && a.size == (cols, rows)
        }),
{
}

} // verus!
