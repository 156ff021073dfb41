//! SGR mouse reports.
use crate::number;
use vstd::prelude::*;

verus! {

/// A parsed mouse report: button code, 1-based column and row, press or release.
#[derive(Debug, Clone, PartialEq, Eq, Structural)]
pub struct MouseEvent {
    pub cb: u16,
    pub col: u16,
    pub row: u16,
    pub pressed: bool,
}

/// The report that `s` begins with, `ESC [ < cb ; col ; row` and `M` or `m`, and
/// its length. None where `s` does not begin with a complete report.
pub open spec fn report(s: Seq<u8>) -> Option<(MouseEvent, int)> {
    if s.len() < 3 || s[0] != 0x1b || s[1] != 0x5b || s[2] != 0x3c {
        None
    } else {
        match number::leading_u16(s.skip(3)) {
            None => None,
            Some((cb, n1)) => {
                let i = 3 + n1;
                if i >= s.len() || s[i] != 0x3b {
                    None
                } else {
                    match number::leading_u16(s.skip(i + 1)) {
                        None => None,
                        Some((col, n2)) => {
                            let j = i + 1 + n2;
                            if j >= s.len() || s[j] != 0x3b {
                                None
                            } else {
                                match number::leading_u16(s.skip(j + 1)) {
                                    None => None,
                                    Some((row, n3)) => {
                                        let k = j + 1 + n3;
                                        if k >= s.len() || (s[k] != 0x4d && s[k] != 0x6d) {
                                            None
                                        } else {
                                            Some(
                                                (
                                                    MouseEvent {
                                                        cb: cb as u16,
                                                        col: col as u16,
                                                        row: row as u16,
                                                        pressed: s[k] == 0x4d,
                                                    },
                                                    k + 1,
                                                ),
                                            )
                                        }
                                    },
                                }
                            }
                        },
                    }
                }
            },
        }
    }
}

/// Parses one mouse report. A report split across two reads is incomplete and
/// gives none.
pub fn parse_sgr_mouse(data: &[u8]) -> (r: Option<(MouseEvent, usize)>)
    ensures
        match r {
            Some((ev, n)) => report(data@) == Some((ev, n as int)),
            None => report(data@) is None,
        },
{
    let len: usize = data.len();
    if len < 3 || data[0] != 0x1b || data[1] != 0x5b || data[2] != 0x3c {
        return None;
    }
    let (cb, n1) = match number::parse_leading_u16(data, 3) {
        Some(v) => v,
        None => return None,
    };
    let i: usize = 3 + n1;
    if i >= len || data[i] != 0x3b {
        return None;
    }
    let (col, n2) = match number::parse_leading_u16(data, i + 1) {
        Some(v) => v,
        None => return None,
    };
    let j: usize = i + 1 + n2;
    if j >= len || data[j] != 0x3b {
        return None;
    }
    let (row, n3) = match number::parse_leading_u16(data, j + 1) {
        Some(v) => v,
        None => return None,
    };
    let k: usize = j + 1 + n3;
    if k >= len || (data[k] != 0x4d && data[k] != 0x6d) {
        return None;
    }
    Some((MouseEvent { cb, col, row, pressed: data[k] == 0x4d }, k + 1))
}

/// `ESC [ < cb ; col ; row` and `M` for a press or `m` for a release.
pub open spec fn encoding(ev: MouseEvent, col: u16, row: u16) -> Seq<u8> {
    seq![0x1bu8, 0x5bu8, 0x3cu8] + number::ascii(number::decimal(ev.cb as nat)) + seq![0x3bu8]
        + number::ascii(number::decimal(col as nat)) + seq![0x3bu8] + number::ascii(
        number::decimal(row as nat),
    ) + seq![
        if ev.pressed {
            0x4du8
        } else {
            0x6du8
        },
    ]
}

/// Encodes a mouse event at a new column and row.
pub fn encode_sgr_mouse(ev: &MouseEvent, col: u16, row: u16) -> (out: Vec<u8>)
    ensures
        out@ == encoding(*ev, col, row),
{
    let mut out: Vec<u8> = Vec::new();
    out.push(0x1b);
    out.push(0x5b);
    out.push(0x3c);
    number::push_decimal(&mut out, ev.cb as u64);
    out.push(0x3b);
    number::push_decimal(&mut out, col as u64);
    out.push(0x3b);
    number::push_decimal(&mut out, row as u64);
    out.push(
        if ev.pressed {
            0x4d
        } else {
            0x6d
        },
    );
    proof {
        assert(out@ =~= encoding(*ev, col, row));
    }
    out
}

/// What stands behind `x` in `x + y`.
proof fn behind(x: Seq<u8>, y: Seq<u8>)
    ensures
        (x + y).skip(x.len() as int) == y,
        y.len() > 0 ==> (x + y)[x.len() as int] == y[0],
{
    assert((x + y).skip(x.len() as int) =~= y);
}

/// Grouping does not count.
proof fn regroup(x: Seq<u8>, y: Seq<u8>, z: Seq<u8>)
    ensures
        (x + y) + z == x + (y + z),
{
    assert((x + y) + z =~= x + (y + z));
}

/// The number that a run of digits writes down.
pub open spec fn field_value(d: Seq<u8>) -> int {
    number::digits_value(number::widened(d))
}

/// Whether bytes are a run of digits.
pub open spec fn is_field(d: Seq<u8>) -> bool {
    d.len() > 0 && forall|i: int| 0 <= i < d.len() ==> number::is_digit_byte(#[trigger] d[i])
}

/// A field and its separator, taken off.
proof fn field(head: Seq<u8>, d: Seq<u8>, tail: Seq<u8>)
    requires
        is_field(d),
        tail.len() > 0,
        !number::is_digit_byte(tail[0]),
    ensures
        ({
            let s = head + (d + tail);
            &&& number::leading_u16(s.skip(head.len() as int)) == if field_value(d) <= 65535 {
                Some((field_value(d), d.len() as int))
            } else {
                None
            }
            &&& s[(head.len() + d.len()) as int] == tail[0]
            &&& s == (head + d) + tail
            &&& s.len() == head.len() + d.len() + tail.len()
        }),
{
    behind(head, d + tail);
    let b = d + tail;
    assert forall|i: int| 0 <= i < d.len() implies number::is_digit_byte(#[trigger] b[i]) by {
        assert(b[i] == d[i]);
    }
    number::leading_digits_is(b, d.len() as int);
    assert(b.take(d.len() as int) =~= d);
    regroup(head, d, tail);
    behind(head + d, tail);
}

/// The text of a report with these fields, which ends in `last`.
pub open spec fn report_text(cb: Seq<u8>, col: Seq<u8>, row: Seq<u8>, last: u8) -> Seq<u8> {
    seq![0x1bu8, 0x5bu8, 0x3cu8] + cb + seq![0x3bu8] + col + seq![0x3bu8] + row + seq![last]
}

// ---------------------------------------------------------------------------
// Laws of reports
// ---------------------------------------------------------------------------

/// A report whose three fields are digits is the event that they write down, over its
/// whole length, whatever follows. It is none where a number is past 65535, or where it
/// ends in neither `M` nor `m`.
pub proof fn fields_make_a_report(
    cb: Seq<u8>,
    col: Seq<u8>,
    row: Seq<u8>,
    last: u8,
    more: Seq<u8>,
)
    requires
        is_field(cb) && is_field(col) && is_field(row),
        !number::is_digit_byte(last),
    ensures
        report(report_text(cb, col, row, last) + more) == if field_value(cb) <= 65535
            && field_value(col) <= 65535 && field_value(row) <= 65535 && (last == 0x4d || last
            == 0x6d) {
            Some(
                (
                    MouseEvent {
                        cb: field_value(cb) as u16,
                        col: field_value(col) as u16,
                        row: field_value(row) as u16,
                        pressed: last == 0x4d,
                    },
                    report_text(cb, col, row, last).len() as int,
                ),
            )
        } else {
            None
        },
{
    let semi = seq![0x3bu8];
    let end = seq![last];
    let p0 = seq![0x1bu8, 0x5bu8, 0x3cu8];
    let p1 = p0 + cb + semi;
    let p2 = p1 + col + semi;
    let t3 = end + more;
    let t2 = semi + (row + t3);
    let t1 = semi + (col + t2);
    let s = report_text(cb, col, row, last) + more;
    assert(s == p0 + (cb + t1)) by {
        regroup(p2 + row, end, more);
        regroup(p2, row, t3);
        regroup(p1 + col, semi, row + t3);
        regroup(p1, col, t2);
        regroup(p0 + cb, semi, col + t2);
        regroup(p0, cb, t1);
    }
    field(p0, cb, t1);
    assert(s == p1 + (col + t2)) by {
        regroup(p0 + cb, semi, col + t2);
    }
    field(p1, col, t2);
    assert(s == p2 + (row + t3)) by {
        regroup(p1 + col, semi, row + t3);
    }
    field(p2, row, t3);
    let i: int = 3 + cb.len() as int;
    let j: int = i + 1 + col.len();
    assert(p1.len() == i + 1);
    assert(p2.len() == j + 1);
    assert(s[0] == 0x1b && s[1] == 0x5b && s[2] == 0x3c);
}

/// What is encoded parses back: the event at its new place, over the whole
/// length, whatever follows.
pub proof fn encoding_parses_back(ev: MouseEvent, col: u16, row: u16, more: Seq<u8>)
    ensures
        report(encoding(ev, col, row) + more) == Some(
            (MouseEvent { col, row, ..ev }, encoding(ev, col, row).len() as int),
        ),
{
    let last = if ev.pressed {
        0x4du8
    } else {
        0x6du8
    };
    number::decimal_is_digits(ev.cb as nat);
    number::decimal_is_digits(col as nat);
    number::decimal_is_digits(row as nat);
    let a = number::ascii(number::decimal(ev.cb as nat));
    let b = number::ascii(number::decimal(col as nat));
    let c = number::ascii(number::decimal(row as nat));
    assert(encoding(ev, col, row) == report_text(a, b, c, last));
    fields_make_a_report(a, b, c, last, more);
}

/// The coordinates of an event do not count where it is encoded at others: the button
/// code and whether it is a press are all that is taken from it.
pub proof fn coordinates_are_replaced(ev: MouseEvent, other: MouseEvent, col: u16, row: u16)
    requires
        ev.cb == other.cb,
        ev.pressed == other.pressed,
    ensures
        encoding(ev, col, row) == encoding(other, col, row),
{
}

/// A number that something other than a digit follows is the same whatever comes after
/// that.
proof fn number_is_stable(s: Seq<u8>, more: Seq<u8>)
    requires
        number::leading_digits(s) < s.len(),
    ensures
        number::leading_u16(s + more) == number::leading_u16(s),
{
    number::leading_digits_bounds(s);
    let n = number::leading_digits(s);
    let all = s + more;
    assert forall|i: int| 0 <= i < n implies number::is_digit_byte(#[trigger] all[i]) by {
        assert(all[i] == s[i]);
    }
    assert(all[n] == s[n]);
    number::leading_digits_is(all, n);
    assert(all.take(n) =~= s.take(n));
}

/// A report that is whole stays what it is, whatever follows it, and lies within the
/// bytes.
pub proof fn whole_report_is_stable(s: Seq<u8>, more: Seq<u8>)
    requires
        report(s) is Some,
    ensures
        0 < (report(s)->0).1 <= s.len(),
        report(s + more) == report(s),
{
    let all = s + more;
    number::leading_digits_bounds(s.skip(3));
    let n1 = number::leading_digits(s.skip(3));
    let i = 3 + n1;
    number::leading_digits_bounds(s.skip(i + 1));
    let n2 = number::leading_digits(s.skip(i + 1));
    let j = i + 1 + n2;
    number::leading_digits_bounds(s.skip(j + 1));
    let n3 = number::leading_digits(s.skip(j + 1));
    assert(all.skip(3) =~= s.skip(3) + more);
    assert(all.skip(i + 1) =~= s.skip(i + 1) + more);
    assert(all.skip(j + 1) =~= s.skip(j + 1) + more);
    number_is_stable(s.skip(3), more);
    number_is_stable(s.skip(i + 1), more);
    number_is_stable(s.skip(j + 1), more);
}

/// A report that is cut short is none: no strict prefix of a report parses.
pub proof fn cut_report_is_none(s: Seq<u8>, n: int)
    requires
        report(s) is Some,
        0 <= n < (report(s)->0).1,
    ensures
        report(s.take(n)) is None,
{
    whole_report_is_stable(s, Seq::empty());
    let p = s.take(n);
    if report(p) is Some {
        whole_report_is_stable(p, s.skip(n));
        assert(p + s.skip(n) =~= s);
    }
}

/// No strict prefix of what is encoded parses.
pub proof fn cut_encoding_is_none(ev: MouseEvent, col: u16, row: u16, n: int)
    requires
        0 <= n < encoding(ev, col, row).len(),
    ensures
        report(encoding(ev, col, row).take(n)) is None,
{
    let e = encoding(ev, col, row);
    encoding_parses_back(ev, col, row, Seq::empty());
    assert(e + Seq::<u8>::empty() =~= e);
    cut_report_is_none(e, n);
}

/// Whether no number in `s` is written with a zero in front that it could do without.
pub open spec fn is_unpadded(s: Seq<u8>) -> bool {
    forall|i: int|
        0 < i < s.len() - 1 && #[trigger] s[i] == 0x30 && !number::is_digit_byte(s[i - 1])
            ==> !number::is_digit_byte(s[i + 1])
}

/// A field that is not padded is the decimal form of its value.
proof fn field_writes_back(s: Seq<u8>, at: int, n: int)
    requires
        is_unpadded(s),
        0 < at,
        0 < n,
        at + n < s.len(),
        !number::is_digit_byte(s[at - 1]),
        forall|i: int| at <= i < at + n ==> number::is_digit_byte(#[trigger] s[i]),
    ensures
        s.subrange(at, at + n) == number::ascii(
            number::decimal(field_value(s.subrange(at, at + n)) as nat),
        ),
        field_value(s.subrange(at, at + n)) >= 0,
{
    let d = s.subrange(at, at + n);
    let w = number::widened(d);
    assert forall|i: int| 0 <= i < w.len() implies number::is_digit(#[trigger] w[i]) by {
        assert(d[i] == s[at + i]);
    }
    if n > 1 {
        assert(number::is_digit_byte(s[at + 1]));
        assert(s[at] != 0x30);
        assert(w[0] == s[at] as char);
    }
    number::value_writes_back(w);
    assert(number::ascii(w) =~= d) by {
        assert forall|i: int| 0 <= i < d.len() implies #[trigger] number::ascii(w)[i] == d[i] by {
            assert(number::is_digit_byte(s[at + i]));
        }
    }
}

/// A whole report without superfluous zeros encodes back to itself.
pub proof fn unpadded_report_encodes_back(s: Seq<u8>)
    requires
        report(s) is Some,
        (report(s)->0).1 == s.len(),
        is_unpadded(s),
    ensures
        ({
            let ev = (report(s)->0).0;
            encoding(ev, ev.col, ev.row) == s
        }),
{
    let ev = (report(s)->0).0;
    let a = s.skip(3);
    number::leading_digits_bounds(a);
    let n1 = number::leading_digits(a);
    let i = 3 + n1;
    let b = s.skip(i + 1);
    number::leading_digits_bounds(b);
    let n2 = number::leading_digits(b);
    let j = i + 1 + n2;
    let c = s.skip(j + 1);
    number::leading_digits_bounds(c);
    let n3 = number::leading_digits(c);
    let k = j + 1 + n3;
    assert forall|x: int| 3 <= x < i implies number::is_digit_byte(#[trigger] s[x]) by {
        assert(a[x - 3] == s[x]);
    }
    assert forall|x: int| i + 1 <= x < j implies number::is_digit_byte(#[trigger] s[x]) by {
        assert(b[x - i - 1] == s[x]);
    }
    assert forall|x: int| j + 1 <= x < k implies number::is_digit_byte(#[trigger] s[x]) by {
        assert(c[x - j - 1] == s[x]);
    }
    assert(a.take(n1) =~= s.subrange(3, i));
    assert(b.take(n2) =~= s.subrange(i + 1, j));
    assert(c.take(n3) =~= s.subrange(j + 1, k));
    field_writes_back(s, 3, n1);
    field_writes_back(s, i + 1, n2);
    field_writes_back(s, j + 1, n3);
    assert(encoding(ev, ev.col, ev.row) =~= report_text(
        s.subrange(3, i),
        s.subrange(i + 1, j),
        s.subrange(j + 1, k),
        s[k],
    ));
    assert(report_text(s.subrange(3, i), s.subrange(i + 1, j), s.subrange(j + 1, k), s[k]) =~= s);
}

} // verus!
