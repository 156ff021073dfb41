//! Decimal numbers as text.
use crate::text;
use vstd::prelude::*;
use vstd::slice::slice_subrange;

verus! {

/// The character of a decimal digit.
pub open spec fn digit_char(d: nat) -> char {
    ('0' as int + d) as char
}

/// Whether `c` is one of `0` to `9`.
pub open spec fn is_digit(c: char) -> bool {
    '0' <= c <= '9'
}

/// Whether `s` holds digits only.
pub open spec fn all_digits(s: Seq<char>) -> bool {
    forall|i: int| 0 <= i < s.len() ==> is_digit(#[trigger] s[i])
}

/// The number that the digits of `s` write down.
pub open spec fn digits_value(s: Seq<char>) -> int
    decreases s.len(),
{
    if s.len() == 0 {
        0
    } else {
        10 * digits_value(s.drop_last()) + (s.last() as int - '0' as int)
    }
}

/// `n` in decimal, without leading zeros.
pub open spec fn decimal(n: nat) -> Seq<char>
    decreases n,
{
    if n < 10 {
        seq![digit_char(n)]
    } else {
        decimal(n / 10).push(digit_char(n % 10))
    }
}

/// `n` in decimal, with a leading minus sign where it is negative.
pub open spec fn signed_decimal(n: int) -> Seq<char> {
    if n < 0 {
        seq!['-'] + decimal((-n) as nat)
    } else {
        decimal(n as nat)
    }
}

/// The number an unsigned type of the greatest value `max` reads out of `s`: an
/// optional `+`, then one digit or more.
pub open spec fn read_unsigned(s: Seq<char>, max: int) -> Option<int> {
    let d = if s.len() > 0 && s[0] == '+' {
        s.skip(1)
    } else {
        s
    };
    if d.len() > 0 && all_digits(d) && digits_value(d) <= max {
        Some(digits_value(d))
    } else {
        None
    }
}

/// The number an `i64` reads out of `s`: an optional sign, then one digit or
/// more.
pub open spec fn read_i64(s: Seq<char>) -> Option<int> {
    if s.len() > 0 && s[0] == '-' {
        let d = s.skip(1);
        if d.len() > 0 && all_digits(d) && -digits_value(d) >= i64::MIN {
            Some(-digits_value(d))
        } else {
            None
        }
    } else {
        read_unsigned(s, i64::MAX as int)
    }
}

/// What a run of digits is worth is not negative, and reading on makes it no
/// smaller.
pub proof fn digits_value_grows(s: Seq<char>, n: int)
    requires
        all_digits(s),
        0 <= n <= s.len(),
    ensures
        0 <= digits_value(s.take(n)) <= digits_value(s),
    decreases s.len(),
{
    if n < s.len() {
        let t = s.drop_last();
        assert forall|i: int| 0 <= i < t.len() implies is_digit(#[trigger] t[i]) by {
            assert(t[i] == s[i]);
        }
        digits_value_grows(t, n);
        assert(t.take(n) =~= s.take(n));
        assert(is_digit(s[s.len() - 1]));
    } else {
        assert(s.take(n) =~= s);
        if s.len() > 0 {
            let t = s.drop_last();
            assert forall|i: int| 0 <= i < t.len() implies is_digit(#[trigger] t[i]) by {
                assert(t[i] == s[i]);
            }
            digits_value_grows(t, t.len() as int);
            assert(t.take(t.len() as int) =~= t);
            assert(is_digit(s[s.len() - 1]));
        }
    }
}

/// What is printed reads back: the decimal form of a number is made of digits
/// and is worth that number.
pub proof fn decimal_reads_back(n: nat)
    ensures
        decimal(n).len() > 0,
        all_digits(decimal(n)),
        digits_value(decimal(n)) == n,
        forall|max: int| n <= max ==> #[trigger] read_unsigned(decimal(n), max) == Some(n as int),
    decreases n,
{
    if n < 10 {
        assert(decimal(n).drop_last() =~= Seq::<char>::empty());
        assert(digits_value(decimal(n).drop_last()) == 0);
        assert(decimal(n).last() == digit_char(n));
    } else {
        decimal_reads_back(n / 10);
        assert(decimal(n).drop_last() =~= decimal(n / 10));
        assert(decimal(n).last() == digit_char(n % 10));
        assert forall|i: int| 0 <= i < decimal(n).len() implies is_digit(
            #[trigger] decimal(n)[i],
        ) by {
            if i < decimal(n / 10).len() {
                assert(is_digit(decimal(n / 10)[i]));
            }
        }
    }
    assert(is_digit(decimal(n)[0]));
}

/// Whether `c` is one of `0` to `9`.
pub fn digit(c: char) -> (r: bool)
    ensures
        r == is_digit(c),
{
    '0' <= c && c <= '9'
}

/// The digit `d` as a character.
fn to_digit_char(d: u8) -> (c: char)
    requires
        d < 10,
    ensures
        c == digit_char(d as nat),
{
    (0x30 + d) as char
}

/// `n` in decimal.
pub fn print(n: u64) -> (out: String)
    ensures
        out@ == decimal(n as nat),
    decreases n,
{
    let mut out = if n < 10 {
        String::new()
    } else {
        print(n / 10)
    };
    out.push(to_digit_char((n % 10) as u8));
    proof {
        if n < 10 {
            assert(out@ =~= seq![digit_char(n as nat)]);
        }
    }
    out
}

/// `n` in decimal.
pub fn print_i64(n: i64) -> (out: String)
    ensures
        out@ == signed_decimal(n as int),
{
    if n < 0 {
        let mut out = String::new();
        out.push('-');
        let magnitude: u64 = if n == i64::MIN {
            0x8000_0000_0000_0000
        } else {
            (-n) as u64
        };
        out.append(print(magnitude).as_str());
        proof {
            assert(out@ =~= seq!['-'] + decimal((-n) as nat));
        }
        out
    } else {
        print(n as u64)
    }
}

/// The number that `cs` writes down, where it is digits only and at most `max`.
fn read_digits(cs: &[char], max: u64) -> (r: Option<u64>)
    ensures
        match r {
            Some(n) => cs@.len() > 0 && all_digits(cs@) && digits_value(cs@) == n && n <= max,
            None => !(cs@.len() > 0 && all_digits(cs@) && digits_value(cs@) <= max),
        },
{
    if cs.len() == 0 {
        return None;
    }
    let mut n: u64 = 0;
    let mut i: usize = 0;
    while i < cs.len()
        invariant
            i <= cs@.len(),
            cs@.len() > 0,
            n <= max,
            n == digits_value(cs@.take(i as int)),
            forall|j: int| 0 <= j < i ==> is_digit(#[trigger] cs@[j]),
        decreases cs.len() - i,
    {
        if !digit(cs[i]) {
            proof {
                assert(!is_digit(cs@[i as int]));
            }
            return None;
        }
        let d: u64 = (cs[i] as u32 - '0' as u32) as u64;
        proof {
            assert(cs@.take(i + 1).drop_last() =~= cs@.take(i as int));
            if all_digits(cs@) {
                digits_value_grows(cs@, i + 1);
            }
        }
        if d > max || n > (max - d) / 10 {
            return None;
        }
        n = 10 * n + d;
        i += 1;
    }
    proof {
        assert(cs@.take(i as int) =~= cs@);
    }
    Some(n)
}

/// The number an unsigned type of the greatest value `max` reads out of `cs`.
pub fn parse_unsigned(cs: &[char], max: u64) -> (r: Option<u64>)
    ensures
        match r {
            Some(n) => read_unsigned(cs@, max as int) == Some(n as int),
            None => read_unsigned(cs@, max as int) is None,
        },
{
    if cs.len() > 0 && cs[0] == '+' {
        let d = slice_subrange(cs, 1, cs.len());
        proof {
            assert(d@ =~= cs@.skip(1));
        }
        read_digits(d, max)
    } else {
        read_digits(cs, max)
    }
}

/// The number an `i64` reads out of `cs`.
pub fn parse_i64(cs: &[char]) -> (r: Option<i64>)
    ensures
        match r {
            Some(n) => read_i64(cs@) == Some(n as int),
            None => read_i64(cs@) is None,
        },
{
    if cs.len() > 0 && cs[0] == '-' {
        let d = slice_subrange(cs, 1, cs.len());
        proof {
            assert(d@ =~= cs@.skip(1));
        }
        match read_digits(d, 0x8000_0000_0000_0000) {
            Some(n) => if n == 0x8000_0000_0000_0000 {
                Some(i64::MIN)
            } else {
                Some(-(n as i64))
            },
            None => None,
        }
    } else {
        match parse_unsigned(cs, 0x7fff_ffff_ffff_ffff) {
            Some(n) => Some(n as i64),
            None => None,
        }
    }
}

// ---------------------------------------------------------------------------
// Numbers as bytes
// ---------------------------------------------------------------------------

/// ASCII text as bytes.
pub open spec fn ascii(s: Seq<char>) -> Seq<u8> {
    s.map_values(|c: char| c as u8)
}

/// Bytes read as one character each.
pub open spec fn widened(b: Seq<u8>) -> Seq<char> {
    b.map_values(|x: u8| x as char)
}

/// Whether `b` is the code of one of `0` to `9`.
pub open spec fn is_digit_byte(b: u8) -> bool {
    0x30 <= b <= 0x39
}

/// Appends `n` in decimal.
pub fn push_decimal(out: &mut Vec<u8>, n: u64)
    ensures
        final(out)@ == old(out)@ + ascii(decimal(n as nat)),
    decreases n,
{
    if n >= 10 {
        push_decimal(out, n / 10);
    }
    out.push(0x30 + (n % 10) as u8);
    proof {
        let d = decimal(n as nat);
        assert(d.last() == digit_char((n % 10) as nat));
        if n >= 10 {
            assert(ascii(d) =~= ascii(decimal((n / 10) as nat)).push(d.last() as u8));
        }
        assert(out@ =~= old(out)@ + ascii(d));
    }
}

/// How many digits `b` begins with.
pub open spec fn leading_digits(b: Seq<u8>) -> int
    decreases b.len(),
{
    if b.len() == 0 || !is_digit_byte(b[0]) {
        0
    } else {
        1 + leading_digits(b.drop_first())
    }
}

/// The `u16` that `b` begins with, and how many bytes it takes. None where `b`
/// begins with no digit, or with a number past 65535.
pub open spec fn leading_u16(b: Seq<u8>) -> Option<(int, int)> {
    let n = leading_digits(b);
    if n == 0 || digits_value(widened(b.take(n))) > 65535 {
        None
    } else {
        Some((digits_value(widened(b.take(n))), n))
    }
}

/// `leading_digits` is the length of the run.
pub proof fn leading_digits_is(b: Seq<u8>, n: int)
    requires
        0 <= n <= b.len(),
        forall|i: int| 0 <= i < n ==> is_digit_byte(#[trigger] b[i]),
        n < b.len() ==> !is_digit_byte(b[n]),
    ensures
        leading_digits(b) == n,
    decreases n,
{
    if n > 0 {
        assert(is_digit_byte(b[0]));
        let t = b.drop_first();
        assert forall|i: int| 0 <= i < n - 1 implies is_digit_byte(#[trigger] t[i]) by {
            assert(t[i] == b[i + 1]);
        }
        leading_digits_is(t, n - 1);
    }
}

/// What stands in a run of digits.
pub proof fn leading_digits_bounds(b: Seq<u8>)
    ensures
        0 <= leading_digits(b) <= b.len(),
        forall|i: int| 0 <= i < leading_digits(b) ==> is_digit_byte(#[trigger] b[i]),
        leading_digits(b) < b.len() ==> !is_digit_byte(b[leading_digits(b)]),
    decreases b.len(),
{
    if b.len() > 0 && is_digit_byte(b[0]) {
        let t = b.drop_first();
        leading_digits_bounds(t);
        let n = leading_digits(t);
        if n < t.len() {
            assert(t[n] == b[n + 1]);
        }
        assert forall|i: int| 0 <= i < leading_digits(b) implies is_digit_byte(
            #[trigger] b[i],
        ) by {
            if i > 0 {
                assert(t[i - 1] == b[i]);
            }
        }
    }
}

/// Printed decimals are digits, which write down the number printed.
pub proof fn decimal_is_digits(n: nat)
    ensures
        ascii(decimal(n)).len() > 0,
        forall|i: int| 0 <= i < ascii(decimal(n)).len() ==> is_digit_byte(#[trigger] ascii(decimal(n))[i]),
        digits_value(widened(ascii(decimal(n)))) == n,
{
    let d = decimal(n);
    decimal_reads_back(n);
    assert forall|i: int| 0 <= i < ascii(d).len() implies is_digit_byte(#[trigger] ascii(d)[i]) by {
        assert(is_digit(d[i]));
    }
    assert(widened(ascii(d)) =~= d) by {
        assert forall|i: int| 0 <= i < d.len() implies widened(ascii(d))[i] == d[i] by {
            assert(is_digit(d[i]));
        }
    }
}

/// Digits without a superfluous zero in front are the decimal form of what they write
/// down.
pub proof fn value_writes_back(s: Seq<char>)
    requires
        s.len() > 0,
        all_digits(s),
        s.len() == 1 || s[0] != '0',
    ensures
        digits_value(s) >= 0,
        decimal(digits_value(s) as nat) == s,
    decreases s.len(),
{
    let t = s.drop_last();
    assert(is_digit(s[s.len() - 1]));
    let d = s.last() as int - '0' as int;
    assert(0 <= d <= 9);
    if s.len() == 1 {
        assert(digits_value(t) == 0);
        assert(decimal(d as nat) =~= s);
    } else {
        assert forall|i: int| 0 <= i < t.len() implies is_digit(#[trigger] t[i]) by {
            assert(t[i] == s[i]);
        }
        value_writes_back(t);
        let v = digits_value(t);
        if v == 0 {
            assert(decimal(0)[0] == '0');
            assert(t[0] == s[0]);
        }
        assert(digits_value(s) == 10 * v + d);
        assert((10 * v + d) / 10 == v && (10 * v + d) % 10 == d);
        assert(t.push(s.last()) =~= s);
    }
}

/// The `u16` that `data` begins with from `from` on, and how many bytes it
/// takes.
pub fn parse_leading_u16(data: &[u8], from: usize) -> (r: Option<(u16, usize)>)
    requires
        from <= data@.len(),
    ensures
        match r {
            Some((v, n)) => leading_u16(data@.skip(from as int)) == Some((v as int, n as int))
                && from + n <= data@.len() && n > 0,
            None => leading_u16(data@.skip(from as int)) is None,
        },
{
    let ghost b = data@.skip(from as int);
    if from == data.len() || !(0x30 <= data[from] && data[from] <= 0x39) {
        return None;
    }
    let mut n: u32 = 0;
    let mut i: usize = 0;
    proof {
        leading_digits_bounds(b);
        assert(b[0] == data@[from as int]);
        assert(widened(b.take(0)) =~= Seq::<char>::empty());
    }
    while i < data.len() - from && 0x30 <= data[from + i] && data[from + i] <= 0x39
        invariant
            from < data@.len(),
            i <= data@.len() - from,
            b == data@.skip(from as int),
            b.len() > 0,
            is_digit_byte(b[0]),
            forall|j: int| 0 <= j < i ==> is_digit_byte(#[trigger] b[j]),
            n <= 65535,
            n == digits_value(widened(b.take(i as int))),
        decreases data.len() - i,
    {
        proof {
            let t = widened(b.take(i + 1));
            assert(b[i as int] == data@[from + i]);
            assert(t.drop_last() =~= widened(b.take(i as int)));
            assert(t.last() == b[i as int] as char);
        }
        n = n * 10 + (data[from + i] - 0x30) as u32;
        i += 1;
        if n > 65535 {
            proof {
                let all = leading_digits(b);
                leading_digits_bounds(b);
                assert(all >= i);
                let w = widened(b.take(all));
                assert forall|j: int| 0 <= j < w.len() implies is_digit(#[trigger] w[j]) by {
                    assert(is_digit_byte(b[j]));
                }
                digits_value_grows(w, i as int);
                assert(w.take(i as int) =~= widened(b.take(i as int)));
            }
            return None;
        }
    }
    proof {
        if i < b.len() {
            assert(b[i as int] == data@[from + i]);
        }
        leading_digits_is(b, i as int);
    }
    Some((n as u16, i))
}

/// A decimal form holds digits alone.
pub proof fn decimal_holds_digits(n: nat, c: char)
    requires
        !is_digit(c),
    ensures
        !decimal(n).contains(c),
{
    decimal_reads_back(n);
    if decimal(n).contains(c) {
        let i = choose|i: int| 0 <= i < decimal(n).len() && decimal(n)[i] == c;
        assert(is_digit(decimal(n)[i]));
    }
}

/// An `i64` reads a decimal form that it has room for.
pub proof fn decimal_is_i64(n: nat)
    requires
        n <= i64::MAX,
    ensures
        read_i64(decimal(n)) == Some(n as int),
{
    decimal_reads_back(n);
    assert(is_digit(decimal(n)[0]));
    assert(read_unsigned(decimal(n), i64::MAX as int) == Some(n as int));
}

/// What is printed of an `i64` reads back, and holds no colon.
pub proof fn signed_decimal_reads_back(n: i64)
    ensures
        read_i64(signed_decimal(n as int)) == Some(n as int),
        !signed_decimal(n as int).contains(':'),
{
    if n < 0 {
        let m = (-(n as int)) as nat;
        decimal_reads_back(m);
        decimal_holds_digits(m, ':');
        let s = signed_decimal(n as int);
        assert(s.skip(1) =~= decimal(m));
        if s.contains(':') {
            let i = choose|i: int| 0 <= i < s.len() && s[i] == ':';
            assert(decimal(m)[i - 1] == ':');
        }
    } else {
        decimal_is_i64(n as nat);
        decimal_holds_digits(n as nat, ':');
    }
}

/// Whether a text is made of ASCII digits.
pub fn are_digits(s: &str) -> (r: bool)
    ensures
        r == all_digits(s@),
{
    let cs = text::chars_of(s);
    let mut i: usize = 0;
    while i < cs.len()
        invariant
            cs@ == s@,
            i <= cs@.len(),
            forall|j: int| 0 <= j < i ==> is_digit(#[trigger] cs@[j]),
        decreases cs.len() - i,
    {
        if !digit(cs[i]) {
            return false;
        }
        i += 1;
    }
    true
}

/// A decimal form is written digit by digit, the last digit last.
pub proof fn decimal_is_written_by_digits(n: nat, d: nat)
    requires
        d < 10,
    ensures
        decimal(d).len() == 1 && decimal(d)[0] as int == '0' as int + d,
        n > 0 ==> decimal(10 * n + d) == decimal(n) + decimal(d),
{
    assert((10 * n + d) / 10 == n && (10 * n + d) % 10 == d);
    if n > 0 {
        assert(decimal(10 * n + d) =~= decimal(n) + decimal(d));
    }
}

/// A number is read with a plus sign in front or none; one past what there is room for, an
/// empty text and one with anything but digits in it are none.
pub proof fn numbers_are_read_from_digits(n: nat, max: int, s: Seq<char>)
    ensures
        n <= max ==> read_unsigned(seq!['+'] + decimal(n), max) == Some(n as int),
        n > max ==> read_unsigned(decimal(n), max) is None,
        read_unsigned(Seq::empty(), max) is None,
        s.len() > 0 && s[0] != '+' && !all_digits(s) ==> read_unsigned(s, max) is None,
        n <= i64::MAX ==> read_i64(seq!['-'] + decimal(n)) == Some(-(n as int)),
        n <= i64::MAX ==> read_i64(seq!['+'] + decimal(n)) == Some(n as int),
        n > i64::MAX ==> read_i64(decimal(n)) is None,
        s.len() > 0 && s[0] != '+' && s[0] != '-' && !all_digits(s) ==> read_i64(s) is None,
{
    decimal_reads_back(n);
    let d = decimal(n);
    assert((seq!['+'] + d).skip(1) =~= d);
    assert((seq!['-'] + d).skip(1) =~= d);
    assert(is_digit(d[0]));
}

} // verus!
