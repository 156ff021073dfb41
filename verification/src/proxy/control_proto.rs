//! The control-mode (`-CC`) wire: line framing and classification, the table of
//! notifications, and the `refresh-client -C WxH` size line.
use crate::number;
use crate::text;
use vstd::prelude::*;

verus! {

/// One line of control-mode output, classified by shape. Whether an unknown
/// `%`-line is a notification or the body of a block is for the reader, which
/// knows if it is inside one.
#[derive(Debug, PartialEq)]
pub enum Line<'a> {
    /// `control` is bit 0 of the flags: the block replies to a command of this
    /// client, and is not a spontaneous one.
    Begin { num: u64, control: bool },
    End { num: u64 },
    Error { num: u64 },
    Output { pane: &'a str, data: &'a str },
    ExtendedOutput { pane: &'a str, rest: &'a str },
    Notification(Notif<'a>),
    Body(&'a str),
}

/// A control-mode notification. What is unknown or malformed is `Other`.
#[derive(Debug, PartialEq)]
pub enum Notif<'a> {
    SessionChanged { id: &'a str, name: &'a str },
    SessionsChanged,
    WindowAdd { window: &'a str },
    WindowClose { window: &'a str },
    WindowRenamed { window: &'a str, name: &'a str },
    WindowPaneChanged { window: &'a str, pane: &'a str },
    SessionWindowChanged { session: &'a str, window: &'a str },
    LayoutChange { window: &'a str },
    Pause { pane: &'a str },
    Continue { pane: &'a str },
    Exit { reason: Option<&'a str> },
    ClientDetached,
    Other,
}

/// A [`Line`] with its texts as sequences.
pub enum LineView {
    Begin { num: int, control: bool },
    End { num: int },
    Error { num: int },
    Output { pane: Seq<char>, data: Seq<char> },
    ExtendedOutput { pane: Seq<char>, rest: Seq<char> },
    Notification(NotifView),
    Body(Seq<char>),
}

/// A [`Notif`] with its texts as sequences.
pub enum NotifView {
    SessionChanged { id: Seq<char>, name: Seq<char> },
    SessionsChanged,
    WindowAdd { window: Seq<char> },
    WindowClose { window: Seq<char> },
    WindowRenamed { window: Seq<char>, name: Seq<char> },
    WindowPaneChanged { window: Seq<char>, pane: Seq<char> },
    SessionWindowChanged { session: Seq<char>, window: Seq<char> },
    LayoutChange { window: Seq<char> },
    Pause { pane: Seq<char> },
    Continue { pane: Seq<char> },
    Exit { reason: Option<Seq<char>> },
    ClientDetached,
    Other,
}

impl<'a> View for Notif<'a> {
    type V = NotifView;

    open spec fn view(&self) -> NotifView {
        match self {
            Notif::SessionChanged { id, name } => NotifView::SessionChanged {
                id: id@,
                name: name@,
            },
            Notif::SessionsChanged => NotifView::SessionsChanged,
            Notif::WindowAdd { window } => NotifView::WindowAdd { window: window@ },
            Notif::WindowClose { window } => NotifView::WindowClose { window: window@ },
            Notif::WindowRenamed { window, name } => NotifView::WindowRenamed {
                window: window@,
                name: name@,
            },
            Notif::WindowPaneChanged { window, pane } => NotifView::WindowPaneChanged {
                window: window@,
                pane: pane@,
            },
            Notif::SessionWindowChanged { session, window } => NotifView::SessionWindowChanged {
                session: session@,
                window: window@,
            },
            Notif::LayoutChange { window } => NotifView::LayoutChange { window: window@ },
            Notif::Pause { pane } => NotifView::Pause { pane: pane@ },
            Notif::Continue { pane } => NotifView::Continue { pane: pane@ },
            Notif::Exit { reason } => NotifView::Exit { reason: text::opt_str(*reason) },
            Notif::ClientDetached => NotifView::ClientDetached,
            Notif::Other => NotifView::Other,
        }
    }
}

impl<'a> View for Line<'a> {
    type V = LineView;

    open spec fn view(&self) -> LineView {
        match self {
            Line::Begin { num, control } => LineView::Begin { num: *num as int, control: *control },
            Line::End { num } => LineView::End { num: *num as int },
            Line::Error { num } => LineView::Error { num: *num as int },
            Line::Output { pane, data } => LineView::Output { pane: pane@, data: data@ },
            Line::ExtendedOutput { pane, rest } => LineView::ExtendedOutput {
                pane: pane@,
                rest: rest@,
            },
            Line::Notification(n) => LineView::Notification(n@),
            Line::Body(b) => LineView::Body(b@),
        }
    }
}

/// The number of a frame, from what follows its verb, `<time> <num> <flags>`.
pub open spec fn frame_num(rest: Seq<char>) -> Option<int> {
    let fields = text::words(rest);
    if fields.len() > 1 {
        number::read_unsigned(fields[1], u64::MAX as int)
    } else {
        None
    }
}

/// Bit 0 of a frame's flags. Flags that are absent or no number count as set, so
/// that a malformed line is taken for a reply.
pub open spec fn frame_control(rest: Seq<char>) -> bool {
    let fields = text::words(rest);
    if fields.len() > 2 {
        match number::read_unsigned(fields[2], u32::MAX as int) {
            Some(v) => v % 2 == 1,
            None => true,
        }
    } else {
        true
    }
}

/// The frame that `rest` makes with this verb; without a number it is an unknown
/// notification.
pub open spec fn frame(num: Option<int>, make: spec_fn(int) -> LineView) -> LineView {
    match num {
        Some(n) => make(n),
        None => LineView::Notification(NotifView::Other),
    }
}

/// What a control-mode line is.
pub open spec fn line_of(s: Seq<char>) -> LineView {
    if text::begins(s, "%begin "@) {
        let rest = s.skip("%begin "@.len() as int);
        frame(
            frame_num(rest),
            |n: int| LineView::Begin { num: n, control: frame_control(rest) },
        )
    } else if text::begins(s, "%end "@) {
        frame(frame_num(s.skip("%end "@.len() as int)), |n: int| LineView::End { num: n })
    } else if text::begins(s, "%error "@) {
        frame(frame_num(s.skip("%error "@.len() as int)), |n: int| LineView::Error { num: n })
    } else {
        let out = if text::begins(s, "%output "@) {
            text::cut_at(s.skip("%output "@.len() as int), ' ')
        } else {
            None
        };
        let ext = if text::begins(s, "%extended-output "@) {
            text::cut_at(s.skip("%extended-output "@.len() as int), ' ')
        } else {
            None
        };
        match out {
            Some((pane, data)) => LineView::Output { pane, data },
            None => match ext {
                Some((pane, rest)) => LineView::ExtendedOutput { pane, rest },
                None => if s.len() > 0 && s[0] == '%' {
                    LineView::Notification(notif_of(s))
                } else {
                    LineView::Body(s)
                },
            },
        }
    }
}

/// What a notification line says: its verb is the text before the first space,
/// its arguments the next fields. Only the first four fields are told apart.
pub open spec fn notif_of(s: Seq<char>) -> NotifView {
    let f = text::pieces_n(s, ' ', 4);
    let verb = f[0];
    let one = f.len() > 1;
    let two = f.len() > 2;
    if verb == "%session-changed"@ && two {
        NotifView::SessionChanged { id: f[1], name: f[2] }
    } else if verb == "%sessions-changed"@ {
        NotifView::SessionsChanged
    } else if verb == "%window-add"@ && one {
        NotifView::WindowAdd { window: f[1] }
    } else if verb == "%window-close"@ && one {
        NotifView::WindowClose { window: f[1] }
    } else if verb == "%window-renamed"@ && two {
        NotifView::WindowRenamed { window: f[1], name: f[2] }
    } else if verb == "%window-pane-changed"@ && two {
        NotifView::WindowPaneChanged { window: f[1], pane: f[2] }
    } else if verb == "%session-window-changed"@ && two {
        NotifView::SessionWindowChanged { session: f[1], window: f[2] }
    } else if verb == "%layout-change"@ && one {
        NotifView::LayoutChange { window: f[1] }
    } else if verb == "%pause"@ && one {
        NotifView::Pause { pane: f[1] }
    } else if verb == "%continue"@ && one {
        NotifView::Continue { pane: f[1] }
    } else if verb == "%client-detached"@ {
        NotifView::ClientDetached
    } else if verb == "%exit"@ {
        let reason = text::trimmed(s.skip("%exit"@.len() as int));
        NotifView::Exit {
            reason: if reason.len() > 0 {
                Some(reason)
            } else {
                None
            },
        }
    } else {
        NotifView::Other
    }
}

/// Classifies one control-mode line, its newline already stripped.
pub fn classify(line: &str) -> (r: Line<'_>)
    ensures
        r@ == line_of(line@),
{
    if let Some(rest) = text::after_str(line, "%begin ") {
        return match frame_num_after(rest) {
            Some(num) => Line::Begin { num, control: frame_is_control(rest) },
            None => Line::Notification(Notif::Other),
        };
    }
    if let Some(rest) = text::after_str(line, "%end ") {
        return match frame_num_after(rest) {
            Some(num) => Line::End { num },
            None => Line::Notification(Notif::Other),
        };
    }
    if let Some(rest) = text::after_str(line, "%error ") {
        return match frame_num_after(rest) {
            Some(num) => Line::Error { num },
            None => Line::Notification(Notif::Other),
        };
    }
    if let Some(rest) = text::after_str(line, "%output ") {
        if let Some((pane, data)) = text::split_once_str(rest, ' ') {
            return Line::Output { pane, data };
        }
    }
    if let Some(rest) = text::after_str(line, "%extended-output ") {
        if let Some((pane, rest)) = text::split_once_str(rest, ' ') {
            return Line::ExtendedOutput { pane, rest };
        }
    }
    let cs = text::chars_of(line);
    if cs.len() > 0 && cs[0] == '%' {
        return Line::Notification(parse_notif(line));
    }
    Line::Body(line)
}

/// The number of a frame, from what follows its verb.
fn frame_num_after(rest: &str) -> (r: Option<u64>)
    ensures
        match r {
            Some(n) => frame_num(rest@) == Some(n as int),
            None => frame_num(rest@) is None,
        },
{
    let fields = text::split_whitespace(rest);
    if fields.len() > 1 {
        proof {
            assert(text::texts(fields@)[1] == fields@[1]@);
        }
        number::parse_unsigned(
            text::chars_of(fields[1].as_str()).as_slice(),
            0xffff_ffff_ffff_ffff,
        )
    } else {
        None
    }
}

/// Bit 0 of a frame's flags.
fn frame_is_control(rest: &str) -> (r: bool)
    ensures
        r == frame_control(rest@),
{
    let fields = text::split_whitespace(rest);
    if fields.len() > 2 {
        proof {
            assert(text::texts(fields@)[2] == fields@[2]@);
        }
        match number::parse_unsigned(
            text::chars_of(fields[2].as_str()).as_slice(),
            0xffff_ffff,
        ) {
            Some(v) => v % 2 == 1,
            None => true,
        }
    } else {
        true
    }
}

/// Parses a `%`-prefixed notification line.
pub fn parse_notif(line: &str) -> (r: Notif<'_>)
    ensures
        r@ == notif_of(line@),
{
    let f = text::splitn_str(line, ' ', 4);
    let ghost fields = text::pieces_n(line@, ' ', 4);
    proof {
        assert(f@.len() == fields.len());
        assert(forall|i: int| 0 <= i < fields.len() ==> f@[i]@ == #[trigger] fields[i]);
    }
    let verb = f[0];
    let one = f.len() > 1;
    let two = f.len() > 2;
    if text::same(verb, "%session-changed") && two {
        Notif::SessionChanged { id: f[1], name: f[2] }
    } else if text::same(verb, "%sessions-changed") {
        Notif::SessionsChanged
    } else if text::same(verb, "%window-add") && one {
        Notif::WindowAdd { window: f[1] }
    } else if text::same(verb, "%window-close") && one {
        Notif::WindowClose { window: f[1] }
    } else if text::same(verb, "%window-renamed") && two {
        Notif::WindowRenamed { window: f[1], name: f[2] }
    } else if text::same(verb, "%window-pane-changed") && two {
        Notif::WindowPaneChanged { window: f[1], pane: f[2] }
    } else if text::same(verb, "%session-window-changed") && two {
        Notif::SessionWindowChanged { session: f[1], window: f[2] }
    } else if text::same(verb, "%layout-change") && one {
        Notif::LayoutChange { window: f[1] }
    } else if text::same(verb, "%pause") && one {
        Notif::Pause { pane: f[1] }
    } else if text::same(verb, "%continue") && one {
        Notif::Continue { pane: f[1] }
    } else if text::same(verb, "%client-detached") {
        Notif::ClientDetached
    } else if text::same(verb, "%exit") {
        proof {
            first_field_begins(line@, ' ', 4);
        }
        let n: usize = verb.unicode_len();
        let reason = text::trim_str(text::skip_str(line, n));
        Notif::Exit {
            reason: if reason.is_empty() {
                None
            } else {
                Some(reason)
            },
        }
    } else {
        Notif::Other
    }
}

/// A text begins with its first field.
proof fn first_field_begins(s: Seq<char>, c: char, n: nat)
    requires
        n > 0,
    ensures
        text::pieces_n(s, c, n)[0].len() <= s.len(),
{
    text::first_index_bounds(s, c);
}

/// `refresh-client -C WxH`, in the `x` form.
pub open spec fn size_line(cols: u16, rows: u16) -> Seq<char> {
    "refresh-client -C "@ + number::decimal(cols as nat) + "x"@ + number::decimal(rows as nat)
        + "\n"@
}

/// The line that sets the size of a control client.
pub fn refresh_size_line(cols: u16, rows: u16) -> (s: String)
    ensures
        s@ == size_line(cols, rows),
{
    let mut s = "refresh-client -C ".to_owned();
    s.append(number::print(cols as u64).as_str());
    s.append("x");
    s.append(number::print(rows as u64).as_str());
    s.append("\n");
    s
}

// ---------------------------------------------------------------------------
// Laws
// ---------------------------------------------------------------------------

proof fn does_not_begin(s: Seq<char>, p: Seq<char>, k: int)
    requires
        0 <= k < p.len(),
        k >= s.len() || s[k] != p[k],
    ensures
        !text::begins(s, p),
{
    if text::begins(s, p) {
        assert(s.take(p.len() as int)[k] == s[k]);
    }
}

/// The words of a frame line, which has a time, a number and flags.
proof fn frame_words(time: Seq<char>, num: nat, flags: nat)
    requires
        text::is_word(time),
    ensures
        text::words(time + " "@ + number::decimal(num) + " "@ + number::decimal(flags)) == seq![
            time,
            number::decimal(num),
            number::decimal(flags),
        ],
{
    reveal_strlit(" ");
    assert(" "@ =~= seq![' ']);
    let n = number::decimal(num);
    let f = number::decimal(flags);
    decimal_is_word(num);
    decimal_is_word(flags);
    text::words_of_word(time);
    text::words_of_word(n);
    text::words_of_word(f);
    text::words_add_up(time, ' ', n);
    text::words_add_up(time + seq![' '] + n, ' ', f);
    assert(seq![time] + seq![n] + seq![f] =~= seq![time, n, f]);
}

proof fn decimal_is_word(n: nat)
    ensures
        text::is_word(number::decimal(n)),
{
    let d = number::decimal(n);
    number::decimal_reads_back(n);
    assert forall|i: int| 0 <= i < d.len() implies !text::is_space(#[trigger] d[i]) by {
        assert(number::is_digit(d[i]));
    }
}

/// A frame line is read back as its frame: the number is the second field, and the reply is
/// one to this client exactly where the flags are odd.
pub proof fn frames_read_back(time: Seq<char>, num: u64, flags: u32)
    requires
        text::is_word(time),
    ensures
        ({
            let rest = time + " "@ + number::decimal(num as nat) + " "@ + number::decimal(
                flags as nat,
            );
            &&& line_of("%begin "@ + rest) == (LineView::Begin {
                num: num as int,
                control: flags % 2 == 1,
            })
            &&& line_of("%end "@ + rest) == (LineView::End { num: num as int })
            &&& line_of("%error "@ + rest) == (LineView::Error { num: num as int })
        }),
{
    reveal_strlit("%begin ");
    reveal_strlit("%end ");
    reveal_strlit("%error ");
    let rest = time + " "@ + number::decimal(num as nat) + " "@ + number::decimal(flags as nat);
    frame_words(time, num as nat, flags as nat);
    number::decimal_reads_back(num as nat);
    number::decimal_reads_back(flags as nat);
    assert(number::read_unsigned(number::decimal(num as nat), u64::MAX as int) == Some(num as int));
    assert(number::read_unsigned(number::decimal(flags as nat), u32::MAX as int) == Some(
        flags as int,
    ));
    let b = "%begin "@ + rest;
    let e = "%end "@ + rest;
    let x = "%error "@ + rest;
    assert(b.take(7) =~= "%begin "@);
    assert(b.skip(7) =~= rest);
    does_not_begin(e, "%begin "@, 1);
    assert(e.take(5) =~= "%end "@);
    assert(e.skip(5) =~= rest);
    does_not_begin(x, "%begin "@, 1);
    does_not_begin(x, "%end "@, 2);
    assert(x.take(7) =~= "%error "@);
    assert(x.skip(7) =~= rest);
}

/// Output is read back as that of its pane, whole, whatever it holds.
pub proof fn output_reads_back(pane: Seq<char>, data: Seq<char>)
    requires
        !pane.contains(' '),
    ensures
        line_of("%output "@ + pane + " "@ + data) == (LineView::Output { pane, data }),
        line_of("%extended-output "@ + pane + " "@ + data) == (LineView::ExtendedOutput {
            pane,
            rest: data,
        }),
{
    reveal_strlit("%begin ");
    reveal_strlit("%end ");
    reveal_strlit("%error ");
    reveal_strlit("%output ");
    reveal_strlit("%extended-output ");
    reveal_strlit(" ");
    let rest = pane + " "@ + data;
    let o = "%output "@ + pane + " "@ + data;
    let x = "%extended-output "@ + pane + " "@ + data;
    does_not_begin(o, "%begin "@, 1);
    does_not_begin(o, "%end "@, 1);
    does_not_begin(o, "%error "@, 1);
    does_not_begin(x, "%begin "@, 1);
    does_not_begin(x, "%end "@, 2);
    does_not_begin(x, "%error "@, 2);
    does_not_begin(x, "%output "@, 1);
    assert(o.take(8) =~= "%output "@);
    assert(o.skip(8) =~= rest);
    assert(x.take(17) =~= "%extended-output "@);
    assert(x.skip(17) =~= rest);
    let n = pane.len() as int;
    assert forall|j: int| 0 <= j < n implies rest[j] != ' ' by {
        assert(pane.contains(pane[j]));
    }
    text::first_index_is(rest, ' ', n);
    assert(rest.take(n) =~= pane);
    assert(rest.skip(n + 1) =~= data);
}

/// A line that does not begin with a percent sign is a line of a reply, whole.
pub proof fn other_lines_are_replies(s: Seq<char>)
    requires
        s.len() == 0 || s[0] != '%',
    ensures
        line_of(s) == LineView::Body(s),
{
    reveal_strlit("%begin ");
    reveal_strlit("%end ");
    reveal_strlit("%error ");
    reveal_strlit("%output ");
    reveal_strlit("%extended-output ");
    does_not_begin(s, "%begin "@, 0);
    does_not_begin(s, "%end "@, 0);
    does_not_begin(s, "%error "@, 0);
    does_not_begin(s, "%output "@, 0);
    does_not_begin(s, "%extended-output "@, 0);
}

proof fn notification_line(s: Seq<char>)
    requires
        s.len() > 1,
        s[0] == '%',
        (s[1] != 'b' && s[1] != 'e' && s[1] != 'o') || (s.len() > 3 && s[1] == 'e' && s[2] == 'x'
            && s[3] == 'i'),
    ensures
        line_of(s) == LineView::Notification(notif_of(s)),
{
    reveal_strlit("%begin ");
    reveal_strlit("%end ");
    reveal_strlit("%error ");
    reveal_strlit("%output ");
    reveal_strlit("%extended-output ");
    does_not_begin(s, "%begin "@, 1);
    does_not_begin(s, "%output "@, 1);
    if s[1] == 'e' {
        does_not_begin(s, "%end "@, 2);
        does_not_begin(s, "%error "@, 2);
        does_not_begin(s, "%extended-output "@, 3);
    } else {
        does_not_begin(s, "%end "@, 1);
        does_not_begin(s, "%error "@, 1);
        does_not_begin(s, "%extended-output "@, 1);
    }
}

proof fn fields_of_sum(a: Seq<char>, b: Seq<char>, n: nat)
    requires
        !a.contains(' '),
        n > 1,
    ensures
        text::pieces_n(a + seq![' '] + b, ' ', n) == seq![a] + text::pieces_n(
            b,
            ' ',
            (n - 1) as nat,
        ),
{
    let s = a + seq![' '] + b;
    let k = a.len() as int;
    assert forall|j: int| 0 <= j < k implies s[j] != ' ' by {
        assert(a.contains(a[j]));
    }
    text::first_index_is(s, ' ', k);
    assert(s.take(k) =~= a);
    assert(s.skip(k + 1) =~= b);
}

proof fn one_field(a: Seq<char>, n: nat)
    requires
        !a.contains(' '),
        n > 0,
    ensures
        text::pieces_n(a, ' ', n) == seq![a],
{
    text::first_index_bounds(a, ' ');
    if text::first_index(a, ' ') < a.len() {
        assert(a.contains(a[text::first_index(a, ' ')]));
    }
}

/// The verbs differ by their lengths, or else by their second letters.
proof fn verbs_differ()
    ensures
        "%session-changed"@.len() == 16 && "%session-changed"@[1] == 's',
        "%sessions-changed"@.len() == 17,
        "%window-add"@.len() == 11,
        "%window-close"@.len() == 13,
        "%window-renamed"@.len() == 15,
        "%window-pane-changed"@.len() == 20,
        "%session-window-changed"@.len() == 23,
        "%layout-change"@.len() == 14,
        "%pause"@.len() == 6,
        "%continue"@.len() == 9,
        "%client-detached"@.len() == 16 && "%client-detached"@[1] == 'c',
        "%exit"@.len() == 5,
{
    reveal_strlit("%session-changed");
    reveal_strlit("%sessions-changed");
    reveal_strlit("%window-add");
    reveal_strlit("%window-close");
    reveal_strlit("%window-renamed");
    reveal_strlit("%window-pane-changed");
    reveal_strlit("%session-window-changed");
    reveal_strlit("%layout-change");
    reveal_strlit("%pause");
    reveal_strlit("%continue");
    reveal_strlit("%client-detached");
    reveal_strlit("%exit");
}

/// Whether a verb is written as one: a percent sign, then no space.
spec fn plain_verb(v: Seq<char>) -> bool {
    v.len() > 3 && v[0] == '%' && (v[1] == 's' || v[1] == 'w' || v[1] == 'l' || v[1] == 'p' || v[1]
        == 'c' || (v[1] == 'e' && v[2] == 'x' && v[3] == 'i')) && !v.contains(' ')
}

proof fn verbs_are_plain()
    ensures
        plain_verb("%session-changed"@),
        plain_verb("%sessions-changed"@),
        plain_verb("%window-add"@),
        plain_verb("%window-close"@),
        plain_verb("%window-renamed"@),
        plain_verb("%window-pane-changed"@),
        plain_verb("%session-window-changed"@),
        plain_verb("%layout-change"@),
        plain_verb("%pause"@),
        plain_verb("%continue"@),
        plain_verb("%client-detached"@),
        plain_verb("%exit"@),
{
    reveal_strlit("%session-changed");
    reveal_strlit("%sessions-changed");
    reveal_strlit("%window-add");
    reveal_strlit("%window-close");
    reveal_strlit("%window-renamed");
    reveal_strlit("%window-pane-changed");
    reveal_strlit("%session-window-changed");
    reveal_strlit("%layout-change");
    reveal_strlit("%pause");
    reveal_strlit("%continue");
    reveal_strlit("%client-detached");
    reveal_strlit("%exit");
}

proof fn line_with_two(verb: Seq<char>, a: Seq<char>, b: Seq<char>)
    requires
        plain_verb(verb),
        !a.contains(' '),
        !b.contains(' '),
    ensures
        ({
            let s = verb + " "@ + a + " "@ + b;
            &&& line_of(s) == LineView::Notification(notif_of(s))
            &&& text::pieces_n(s, ' ', 4) == seq![verb, a, b]
        }),
{
    reveal_strlit(" ");
    assert(" "@ =~= seq![' ']);
    let s = verb + " "@ + a + " "@ + b;
    let rest = a + seq![' '] + b;
    assert(s =~= verb + seq![' '] + rest);
    notification_line(s);
    fields_of_sum(verb, rest, 4);
    fields_of_sum(a, b, 3);
    one_field(b, 2);
    assert(seq![verb] + (seq![a] + seq![b]) =~= seq![verb, a, b]);
}

proof fn line_with_one(verb: Seq<char>, a: Seq<char>)
    requires
        plain_verb(verb),
        !a.contains(' '),
    ensures
        ({
            let s = verb + " "@ + a;
            &&& line_of(s) == LineView::Notification(notif_of(s))
            &&& text::pieces_n(s, ' ', 4) == seq![verb, a]
        }),
{
    reveal_strlit(" ");
    assert(" "@ =~= seq![' ']);
    let s = verb + " "@ + a;
    notification_line(s);
    fields_of_sum(verb, a, 4);
    one_field(a, 3);
    assert(seq![verb] + seq![a] =~= seq![verb, a]);
}

/// A notification is told by its verb, and carries the ids and names that stand behind it,
/// each in its place.
pub proof fn notifications_read_back(a: Seq<char>, b: Seq<char>)
    requires
        !a.contains(' '),
        !b.contains(' '),
    ensures
        line_of("%session-changed"@ + " "@ + a + " "@ + b) == LineView::Notification(
            NotifView::SessionChanged { id: a, name: b },
        ),
        line_of("%window-renamed"@ + " "@ + a + " "@ + b) == LineView::Notification(
            NotifView::WindowRenamed { window: a, name: b },
        ),
        line_of("%window-pane-changed"@ + " "@ + a + " "@ + b) == LineView::Notification(
            NotifView::WindowPaneChanged { window: a, pane: b },
        ),
        line_of("%session-window-changed"@ + " "@ + a + " "@ + b) == LineView::Notification(
            NotifView::SessionWindowChanged { session: a, window: b },
        ),
        line_of("%window-add"@ + " "@ + a) == LineView::Notification(
            NotifView::WindowAdd { window: a },
        ),
        line_of("%window-close"@ + " "@ + a) == LineView::Notification(
            NotifView::WindowClose { window: a },
        ),
        line_of("%layout-change"@ + " "@ + a) == LineView::Notification(
            NotifView::LayoutChange { window: a },
        ),
        line_of("%pause"@ + " "@ + a) == LineView::Notification(NotifView::Pause { pane: a }),
        line_of("%continue"@ + " "@ + a) == LineView::Notification(NotifView::Continue { pane: a }),
        line_of("%sessions-changed"@) == LineView::Notification(NotifView::SessionsChanged),
        line_of("%client-detached"@ + " "@ + a) == LineView::Notification(
            NotifView::ClientDetached,
        ),
{
    verbs_differ();
    verbs_are_plain();
    line_with_two("%session-changed"@, a, b);
    line_with_two("%window-renamed"@, a, b);
    line_with_two("%window-pane-changed"@, a, b);
    line_with_two("%session-window-changed"@, a, b);
    line_with_one("%window-add"@, a);
    line_with_one("%window-close"@, a);
    line_with_one("%layout-change"@, a);
    line_with_one("%pause"@, a);
    line_with_one("%continue"@, a);
    line_with_one("%client-detached"@, a);
    notification_line("%sessions-changed"@);
    one_field("%sessions-changed"@, 4);
}

/// The end of the stream carries what stands behind it, without white space at its ends,
/// and no reason where nothing does.
pub proof fn exit_reads_back(reason: Seq<char>)
    requires
        text::trimmed(reason) == reason,
    ensures
        line_of("%exit"@ + " "@ + reason) == LineView::Notification(
            NotifView::Exit {
                reason: if reason.len() > 0 {
                    Some(reason)
                } else {
                    None
                },
            },
        ),
        line_of("%exit"@) == LineView::Notification(NotifView::Exit { reason: None }),
{
    reveal_strlit(" ");
    assert(" "@ =~= seq![' ']);
    verbs_differ();
    verbs_are_plain();
    let e = "%exit"@;
    let s = e + " "@ + reason;
    notification_line(s);
    notification_line(e);
    fields_of_sum(e, reason, 4);
    one_field(e, 4);
    let tail = s.skip(5);
    assert(tail =~= seq![' '] + reason);
    assert(tail.drop_first() =~= reason);
    assert(text::trimmed(tail) == text::trimmed(reason));
    assert(e.skip(5) =~= Seq::empty());
    assert(text::trimmed(Seq::<char>::empty()) =~= Seq::empty());
}

/// A line with any other verb is a notification of no meaning here.
pub proof fn unknown_verbs_mean_nothing(verb: Seq<char>, rest: Seq<char>)
    requires
        verb.len() > 1,
        verb[0] == '%',
        verb[1] != 'b' && verb[1] != 'e' && verb[1] != 'o',
        !verb.contains(' '),
        verb != "%session-changed"@ && verb != "%sessions-changed"@ && verb != "%window-add"@ && verb
            != "%window-close"@ && verb != "%window-renamed"@ && verb != "%window-pane-changed"@,
        verb != "%session-window-changed"@ && verb != "%layout-change"@ && verb != "%pause"@ && verb
            != "%continue"@ && verb != "%client-detached"@,
    ensures
        line_of(verb) == LineView::Notification(NotifView::Other),
        line_of(verb + seq![' '] + rest) == LineView::Notification(NotifView::Other),
{
    reveal_strlit("%exit");
    notification_line(verb);
    notification_line(verb + seq![' '] + rest);
    one_field(verb, 4);
    fields_of_sum(verb, rest, 4);
    assert((seq![verb] + text::pieces_n(rest, ' ', 3))[0] == verb);
}

} // verus!
