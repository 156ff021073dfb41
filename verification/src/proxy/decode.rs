//! Raw bytes to key presses, for the picker. Covers only the keys the switcher
//! uses: an escape byte that does not begin a control sequence is the Esc key,
//! and a control sequence that names no known key is consumed without one.
use crate::bytes;
use crate::number;
use crate::proxy::key::{KeyCode, KeyEvent, KeyModifiers};
use crate::text;
use vstd::prelude::*;
use vstd::slice::slice_subrange;
use vstd::utf8::{
    decode_utf8, encode_scalar, encode_utf8, encode_utf8_decode_utf8, encode_utf8_first_scalar,
    encode_utf8_valid_utf8, is_ascii_chars_encode_utf8, valid_utf8,
};

verus! {

/// How many bytes the character that begins with `lead` takes.
pub open spec fn char_len(lead: u8) -> int {
    if lead < 0x80 {
        1
    } else if lead < 0xe0 {
        2
    } else if lead < 0xf0 {
        3
    } else {
        4
    }
}

/// Whether `b` ends a control sequence.
pub open spec fn is_final(b: u8) -> bool {
    0x40 <= b <= 0x7e
}

/// The first position at or after `from` that ends a control sequence, or the
/// length.
pub open spec fn final_index(s: Seq<u8>, from: int) -> int
    decreases s.len() - from,
{
    if from >= s.len() || is_final(s[from]) {
        from
    } else {
        final_index(s, from + 1)
    }
}

/// The modifiers that the parameters of an arrow name: the second field less
/// one is a bit field, Shift, Alt, Control from the lowest.
pub open spec fn modifiers_of(params: Seq<u8>) -> KeyModifiers {
    if !valid_utf8(params) {
        KeyModifiers::spec_none()
    } else {
        let fields = text::pieces(decode_utf8(params), ';');
        if fields.len() < 2 {
            KeyModifiers::spec_none()
        } else {
            match number::read_unsigned(fields[1], 255) {
                Some(m) => if m >= 1 {
                    KeyModifiers {
                        shift: (m - 1) % 2 == 1,
                        alt: (m - 1) / 2 % 2 == 1,
                        control: (m - 1) / 4 % 2 == 1,
                    }
                } else {
                    KeyModifiers::spec_none()
                },
                None => KeyModifiers::spec_none(),
            }
        }
    }
}

/// The key that a control sequence with this final byte is.
pub open spec fn arrow_of(b: u8) -> Option<KeyCode> {
    if b == 0x41 {
        Some(KeyCode::Up)
    } else if b == 0x42 {
        Some(KeyCode::Down)
    } else if b == 0x43 {
        Some(KeyCode::Right)
    } else if b == 0x44 {
        Some(KeyCode::Left)
    } else {
        None
    }
}

/// A key without modifiers.
pub open spec fn plain(code: KeyCode) -> KeyEvent {
    KeyEvent { code, modifiers: KeyModifiers::spec_none() }
}

/// What stands at the start of `s`: the keys it is (one or none) and how many
/// bytes it takes; `None` where `s` ends before it is complete.
pub open spec fn next_key(s: Seq<u8>) -> Option<(Seq<KeyEvent>, int)> {
    let b = s[0];
    if b == 0x1b && s.len() > 1 && s[1] == 0x5b {
        let j = final_index(s, 2);
        if j >= s.len() {
            None
        } else {
            match arrow_of(s[j]) {
                Some(code) => Some(
                    (seq![KeyEvent { code, modifiers: modifiers_of(s.subrange(2, j)) }], j + 1),
                ),
                None => Some((Seq::empty(), j + 1)),
            }
        }
    } else if b == 0x1b {
        Some((seq![plain(KeyCode::Esc)], 1))
    } else if b == 0x0d || b == 0x0a {
        Some((seq![plain(KeyCode::Enter)], 1))
    } else if b == 0x7f || b == 0x08 {
        Some((seq![plain(KeyCode::Backspace)], 1))
    } else if b < 0x80 {
        Some((seq![plain(KeyCode::Char(b as char))], 1))
    } else {
        let n = char_len(b);
        if n > s.len() {
            None
        } else if valid_utf8(s.take(n)) {
            Some((seq![plain(KeyCode::Char(decode_utf8(s.take(n))[0]))], n))
        } else {
            Some((Seq::empty(), n))
        }
    }
}

proof fn final_index_bounds(s: Seq<u8>, from: int)
    requires
        0 <= from <= s.len(),
    ensures
        from <= final_index(s, from) <= s.len(),
    decreases s.len() - from,
{
    if from < s.len() && !is_final(s[from]) {
        final_index_bounds(s, from + 1);
    }
}

proof fn next_key_bounds(s: Seq<u8>)
    requires
        s.len() > 0,
    ensures
        next_key(s) matches Some((_, n)) ==> 1 <= n <= s.len(),
{
    if s.len() > 1 {
        final_index_bounds(s, 2);
    }
}

/// The keys of `s`, and the bytes at its end that are not complete yet.
pub open spec fn keys(s: Seq<u8>) -> (Seq<KeyEvent>, Seq<u8>)
    decreases s.len(),
{
    if s.len() == 0 {
        (Seq::empty(), s)
    } else {
        match next_key(s) {
            None => (Seq::empty(), s),
            Some((first, n)) => {
                if 1 <= n <= s.len() {
                    let (more, rest) = keys(s.skip(n));
                    (first + more, rest)
                } else {
                    (Seq::empty(), s)
                }
            },
        }
    }
}

fn utf8_len(lead: u8) -> (n: usize)
    ensures
        n == char_len(lead),
{
    if lead < 0x80 {
        1
    } else if lead < 0xe0 {
        2
    } else if lead < 0xf0 {
        3
    } else {
        4
    }
}

/// The modifiers that the parameters of an arrow name.
fn csi_modifiers(params: &[u8]) -> (m: KeyModifiers)
    ensures
        m == modifiers_of(params@),
{
    match text::from_utf8(params) {
        None => KeyModifiers::none(),
        Some(s) => {
            let fields = text::split(s.as_str(), ';');
            if fields.len() < 2 {
                return KeyModifiers::none();
            }
            proof {
                assert(text::texts(fields@)[1] == fields@[1]@);
            }
            match number::parse_unsigned(text::chars_of(fields[1].as_str()).as_slice(), 255) {
                Some(m) => if m >= 1 {
                    let bits: u64 = m - 1;
                    KeyModifiers {
                        shift: bits % 2 == 1,
                        alt: bits / 2 % 2 == 1,
                        control: bits / 4 % 2 == 1,
                    }
                } else {
                    KeyModifiers::none()
                },
                None => KeyModifiers::none(),
            }
        },
    }
}

/// A decoder, with the bytes it holds of an incomplete sequence.
pub struct KeyDecoder {
    buf: Vec<u8>,
}

impl View for KeyDecoder {
    type V = Seq<u8>;

    /// The bytes held.
    closed spec fn view(&self) -> Seq<u8> {
        self.buf@
    }
}

impl Default for KeyDecoder {
    fn default() -> (d: KeyDecoder)
        ensures
            d@ == Seq::<u8>::empty(),
    {
        KeyDecoder::new()
    }
}

impl KeyDecoder {
    /// A decoder that holds nothing.
    pub fn new() -> (d: KeyDecoder)
        ensures
            d@ == Seq::<u8>::empty(),
    {
        let d = KeyDecoder { buf: Vec::new() };
        proof {
            assert(d@ =~= Seq::<u8>::empty());
        }
        d
    }

    /// The keys that `bytes` complete; what is not complete is held for the next
    /// call.
    pub fn feed(&mut self, bytes: &[u8]) -> (out: Vec<KeyEvent>)
        ensures
            out@ == keys(old(self)@ + bytes@).0,
            final(self)@ == keys(old(self)@ + bytes@).1,
    {
        bytes::extend(&mut self.buf, bytes);
        let ghost all = old(self)@ + bytes@;
        let mut out: Vec<KeyEvent> = Vec::new();
        let mut i: usize = 0;
        proof {
            assert(all.skip(0) =~= all);
            assert(out@ + keys(all).0 =~= keys(all).0);
        }
        while i < self.buf.len()
            invariant_except_break
                self.buf@ == all,
                i <= all.len(),
                out@ + keys(all.skip(i as int)).0 == keys(all).0,
                keys(all.skip(i as int)).1 == keys(all).1,
            ensures
                self.buf@ == all,
                i <= all.len(),
                out@ == keys(all).0,
                all.skip(i as int) == keys(all).1,
            decreases self.buf.len() - i,
        {
            let ghost rest = all.skip(i as int);
            let ghost before = out@;
            let b = self.buf[i];
            let n: usize = self.buf.len() - i;
            proof {
                assert(rest[0] == b);
                next_key_bounds(rest);
            }
            if b == 0x1b && n > 1 && self.buf[i + 1] == 0x5b {
                let mut j: usize = i + 2;
                while j < self.buf.len() && !(0x40 <= self.buf[j] && self.buf[j] <= 0x7e)
                    invariant
                        self.buf@ == all,
                        i + 2 <= j <= all.len(),
                        rest == all.skip(i as int),
                        final_index(rest, 2) == final_index(rest, j - i),
                    decreases self.buf.len() - j,
                {
                    proof {
                        assert(rest[j - i] == all[j as int]);
                    }
                    j += 1;
                }
                proof {
                    if j < all.len() {
                        assert(rest[j - i] == all[j as int]);
                    }
                    assert(final_index(rest, 2) == j - i);
                }
                if j >= self.buf.len() {
                    // No final byte yet: the whole tail is held.
                    proof {
                        assert(out@ + Seq::<KeyEvent>::empty() =~= out@);
                    }
                    break;
                }
                let params = slice_subrange(self.buf.as_slice(), i + 2, j);
                proof {
                    assert(params@ =~= rest.subrange(2, j - i));
                }
                let modifiers = csi_modifiers(params);
                let last = self.buf[j];
                if last == 0x41 {
                    out.push(KeyEvent::new(KeyCode::Up, modifiers));
                } else if last == 0x42 {
                    out.push(KeyEvent::new(KeyCode::Down, modifiers));
                } else if last == 0x43 {
                    out.push(KeyEvent::new(KeyCode::Right, modifiers));
                } else if last == 0x44 {
                    out.push(KeyEvent::new(KeyCode::Left, modifiers));
                }
                proof {
                    took(all, i as int, j + 1 - i, before, out@);
                }
                i = j + 1;
            } else if b == 0x1b {
                out.push(KeyEvent::new(KeyCode::Esc, KeyModifiers::none()));
                proof {
                    took(all, i as int, 1, before, out@);
                }
                i += 1;
            } else if b == 0x0d || b == 0x0a {
                out.push(KeyEvent::new(KeyCode::Enter, KeyModifiers::none()));
                proof {
                    took(all, i as int, 1, before, out@);
                }
                i += 1;
            } else if b == 0x7f || b == 0x08 {
                out.push(KeyEvent::new(KeyCode::Backspace, KeyModifiers::none()));
                proof {
                    took(all, i as int, 1, before, out@);
                }
                i += 1;
            } else if b < 0x80 {
                out.push(KeyEvent::new(KeyCode::Char(b as char), KeyModifiers::none()));
                proof {
                    took(all, i as int, 1, before, out@);
                }
                i += 1;
            } else {
                let len = utf8_len(b);
                if len > n {
                    // Incomplete: held.
                    proof {
                        assert(out@ + Seq::<KeyEvent>::empty() =~= out@);
                    }
                    break;
                }
                let piece = slice_subrange(self.buf.as_slice(), i, i + len);
                proof {
                    assert(piece@ =~= rest.take(len as int));
                }
                if let Some(s) = text::from_utf8(piece) {
                    let cs = text::chars_of(s.as_str());
                    proof {
                        assert(cs@.len() > 0) by {
                            reveal_with_fuel(decode_utf8, 2);
                        }
                    }
                    out.push(KeyEvent::new(KeyCode::Char(cs[0]), KeyModifiers::none()));
                }
                proof {
                    took(all, i as int, len as int, before, out@);
                }
                i += len;
            }
        }
        self.buf = bytes::tail(self.buf.as_slice(), i);
        out
    }
}

/// One more piece taken.
proof fn took(all: Seq<u8>, i: int, n: int, before: Seq<KeyEvent>, after: Seq<KeyEvent>)
    requires
        0 <= i < all.len(),
        next_key(all.skip(i)) matches Some((first, taken)) && taken == n && after =~= before + first,
    ensures
        1 <= n <= all.len() - i,
        before + keys(all.skip(i)).0 == after + keys(all.skip(i + n)).0,
        keys(all.skip(i)).1 == keys(all.skip(i + n)).1,
{
    let rest = all.skip(i);
    next_key_bounds(rest);
    assert(rest.skip(n) =~= all.skip(i + n));
    assert(before + keys(rest).0 =~= after + keys(all.skip(i + n)).0);
}

// ---------------------------------------------------------------------------
// Laws of decoding
// ---------------------------------------------------------------------------

/// Whether `s` ends in an escape byte that was read as the Esc key.
pub open spec fn ends_in_esc(s: Seq<u8>) -> bool
    decreases s.len(),
{
    if s.len() == 0 {
        false
    } else if s.len() == 1 {
        s[0] == 0x1b
    } else {
        match next_key(s) {
            None => false,
            Some((_, n)) => 1 <= n <= s.len() && ends_in_esc(s.skip(n)),
        }
    }
}

proof fn final_index_local(a: Seq<u8>, b: Seq<u8>, from: int)
    requires
        0 <= from <= a.len(),
        final_index(a, from) < a.len(),
    ensures
        final_index(a + b, from) == final_index(a, from),
    decreases a.len() - from,
{
    assert((a + b)[from] == a[from]);
    if !is_final(a[from]) {
        final_index_local(a, b, from + 1);
    }
}

proof fn next_key_local(a: Seq<u8>, b: Seq<u8>)
    requires
        a.len() > 0,
        next_key(a) is Some,
        !(a.len() == 1 && a[0] == 0x1b && b.len() > 0 && b[0] == 0x5b),
    ensures
        next_key(a + b) == next_key(a),
{
    let ab = a + b;
    assert(ab[0] == a[0]);
    if a.len() > 1 {
        assert(ab[1] == a[1]);
    } else if b.len() > 0 {
        assert(ab[1] == b[0]);
    }
    if a[0] == 0x1b && a.len() > 1 && a[1] == 0x5b {
        let j = final_index(a, 2);
        final_index_bounds(a, 2);
        final_index_local(a, b, 2);
        assert(ab[j] == a[j]);
        assert(ab.subrange(2, j) =~= a.subrange(2, j));
    } else if a[0] >= 0x80 {
        assert(ab.take(char_len(a[0])) =~= a.take(char_len(a[0])));
    }
}

/// Keys do not depend on how bytes are cut into reads: decoding `a` and then `b`
/// gives the keys of decoding them at once, and holds the same bytes. The one
/// exception is a cut behind an escape byte that the next read turns into the
/// start of a control sequence.
pub proof fn keys_may_be_cut(a: Seq<u8>, b: Seq<u8>)
    requires
        !(ends_in_esc(a) && b.len() > 0 && b[0] == 0x5b),
    ensures
        keys(a + b).0 == keys(a).0 + keys(keys(a).1 + b).0,
        keys(a + b).1 == keys(keys(a).1 + b).1,
    decreases a.len(),
{
    if a.len() == 0 {
        assert(a + b =~= b);
        assert(keys(a).1 + b =~= b);
        assert(keys(a).0 + keys(b).0 =~= keys(b).0);
    } else {
        match next_key(a) {
            None => {
                assert(keys(a).0 + keys(a + b).0 =~= keys(a + b).0);
            },
            Some((first, n)) => {
                next_key_bounds(a);
                next_key_local(a, b);
                let more = a.skip(n);
                assert((a + b).skip(n) =~= more + b);
                if a.len() == 1 {
                    assert(more =~= Seq::empty());
                    assert(!ends_in_esc(more));
                }
                keys_may_be_cut(more, b);
                assert(keys(a + b).0 =~= keys(a).0 + keys(keys(a).1 + b).0);
            },
        }
    }
}

/// A decoder holds only what is not complete: decoding what it holds gives no
/// key.
pub proof fn held_bytes_are_incomplete(s: Seq<u8>)
    ensures
        keys(keys(s).1) == (Seq::<KeyEvent>::empty(), keys(s).1),
    decreases s.len(),
{
    if s.len() > 0 {
        if let Some((_, n)) = next_key(s) {
            next_key_bounds(s);
            held_bytes_are_incomplete(s.skip(n));
        }
    }
}

// ---------------------------------------------------------------------------
// Laws of the keys
// ---------------------------------------------------------------------------

/// A character that is typed is read as that character, however many bytes it takes, and
/// what follows it is read next.
pub proof fn typed_character_is_its_key(c: char, rest: Seq<u8>)
    requires
        c as u32 >= 0x20,
        c as u32 != 0x7f,
    ensures
        keys(encode_utf8(seq![c]) + rest).0 == seq![
            KeyEvent {
                code: KeyCode::Char(c),
                modifiers: KeyModifiers { shift: false, alt: false, control: false },
            },
        ] + keys(rest).0,
        keys(encode_utf8(seq![c]) + rest).1 == keys(rest).1,
{
    let one = encode_utf8(seq![c]);
    let s = one + rest;
    let n = one.len() as int;
    encode_utf8_first_scalar(seq![c]);
    encode_utf8_valid_utf8(seq![c]);
    encode_utf8_decode_utf8(seq![c]);
    assert(seq![c].drop_first() =~= Seq::empty());
    reveal_with_fuel(encode_utf8, 2);
    assert(one =~= encode_scalar(c as u32));
    assert(s[0] == one[0]);
    assert(s.take(n) =~= one);
    assert(s.skip(n) =~= rest);
    if (c as u32) < 0x80 {
        is_ascii_chars_encode_utf8(seq![c]);
        assert(one.len() == 1);
        assert(one[0] == c as u8);
        assert(next_key(s) == Some((seq![plain(KeyCode::Char(c))], 1int)));
    } else {
        assert(char_len(s[0]) == n);
        assert(s[0] >= 0x80);
        assert(next_key(s) == Some((seq![plain(KeyCode::Char(c))], n)));
    }
}

/// The keys that are one control byte, with what follows them read next: Return and Newline
/// are Enter, both bytes that terminals send for it are Backspace, and an escape byte that
/// begins no control sequence is Esc.
pub proof fn control_bytes_are_their_keys(b: u8, rest: Seq<u8>)
    requires
        b == 0x0d || b == 0x0a || b == 0x7f || b == 0x08 || (b == 0x1b && (rest.len() == 0 || rest[0]
            != 0x5b)),
    ensures
        ({
            let none = KeyModifiers { shift: false, alt: false, control: false };
            let code = if b == 0x0d || b == 0x0a {
                KeyCode::Enter
            } else if b == 0x1b {
                KeyCode::Esc
            } else {
                KeyCode::Backspace
            };
            &&& keys(seq![b] + rest).0 == seq![KeyEvent { code, modifiers: none }] + keys(rest).0
            &&& keys(seq![b] + rest).1 == keys(rest).1
        }),
{
    let s = seq![b] + rest;
    assert(s[0] == b);
    assert(s.skip(1) =~= rest);
    if s.len() > 1 {
        assert(s[1] == rest[0]);
    }
}

/// The arrow of a final byte, by its letter.
pub open spec fn letter_arrow(b: u8) -> KeyCode {
    if b == 0x41 {
        KeyCode::Up
    } else if b == 0x42 {
        KeyCode::Down
    } else if b == 0x43 {
        KeyCode::Right
    } else {
        KeyCode::Left
    }
}

/// A control sequence that ends in `A` to `D` is an arrow, with the modifiers in its
/// parameters; one that ends otherwise is no key. It is taken whole, and what follows it is
/// read next.
pub proof fn control_sequences_are_taken_whole(params: Seq<u8>, last: u8, rest: Seq<u8>)
    requires
        forall|i: int| 0 <= i < params.len() ==> !(0x40 <= #[trigger] params[i] <= 0x7e),
        0x40 <= last <= 0x7e,
    ensures
        ({
            let s = seq![0x1bu8, 0x5bu8] + params + seq![last] + rest;
            &&& keys(s).1 == keys(rest).1
            &&& 0x41 <= last <= 0x44 ==> keys(s).0 == seq![
                KeyEvent { code: letter_arrow(last), modifiers: modifiers_of(params) },
            ] + keys(rest).0
            &&& !(0x41 <= last <= 0x44) ==> keys(s).0 == keys(rest).0
        }),
{
    let s = seq![0x1bu8, 0x5bu8] + params + seq![last] + rest;
    let n = params.len() as int;
    assert forall|i: int| 2 <= i < n + 2 implies !is_final(#[trigger] s[i]) by {
        assert(s[i] == params[i - 2]);
    }
    assert(s[n + 2] == last);
    final_is(s, 2, n + 2);
    assert(s.subrange(2, n + 2) =~= params);
    assert(s.skip(n + 3) =~= rest);
    assert(Seq::<KeyEvent>::empty() + keys(rest).0 =~= keys(rest).0);
}

proof fn final_is(s: Seq<u8>, from: int, at: int)
    requires
        0 <= from <= at < s.len(),
        is_final(s[at]),
        forall|i: int| from <= i < at ==> !is_final(#[trigger] s[i]),
    ensures
        final_index(s, from) == at,
    decreases at - from,
{
    if from < at {
        assert(!is_final(s[from]));
        final_is(s, from + 1, at);
    }
}

/// A control sequence that has not ended yet is held, and is no key.
pub proof fn unfinished_sequence_is_held(params: Seq<u8>)
    requires
        forall|i: int| 0 <= i < params.len() ==> !(0x40 <= #[trigger] params[i] <= 0x7e),
    ensures
        keys(seq![0x1bu8, 0x5bu8] + params).0.len() == 0,
        keys(seq![0x1bu8, 0x5bu8] + params).1 == seq![0x1bu8, 0x5bu8] + params,
{
    let s = seq![0x1bu8, 0x5bu8] + params;
    final_index_bounds(s, 2);
    let j = final_index(s, 2);
    if j < s.len() {
        final_stands(s, 2);
        assert(s[j] == params[j - 2]);
    }
}

proof fn final_stands(s: Seq<u8>, from: int)
    requires
        0 <= from,
        final_index(s, from) < s.len(),
    ensures
        from <= final_index(s, from),
        is_final(s[final_index(s, from)]),
    decreases s.len() - from,
{
    if from < s.len() && !is_final(s[from]) {
        final_stands(s, from + 1);
    }
}

/// The modifiers of an arrow stand in its second parameter, counted from one: one is Shift,
/// two Alt and four Control. An arrow without that parameter has none.
pub proof fn second_parameter_tells_the_modifiers(
    first: Seq<char>,
    shift: bool,
    alt: bool,
    control: bool,
)
    requires
        !first.contains(';'),
    ensures
        ({
            let m: nat = 1 + (if shift {
                1nat
            } else {
                0
            }) + (if alt {
                2nat
            } else {
                0
            }) + (if control {
                4nat
            } else {
                0
            });
            modifiers_of(encode_utf8(first + ";"@ + number::decimal(m))) == (KeyModifiers {
                shift,
                alt,
                control,
            })
        }),
        modifiers_of(encode_utf8(first)) == (KeyModifiers {
            shift: false,
            alt: false,
            control: false,
        }),
{
    let m: nat = 1 + (if shift {
        1nat
    } else {
        0
    }) + (if alt {
        2nat
    } else {
        0
    }) + (if control {
        4nat
    } else {
        0
    });
    let n = number::decimal(m);
    let s = first + ";"@ + n;
    reveal_strlit(";");
    assert(";"@ =~= seq![';']);
    encode_utf8_valid_utf8(s);
    encode_utf8_decode_utf8(s);
    encode_utf8_valid_utf8(first);
    encode_utf8_decode_utf8(first);
    number::decimal_reads_back(m);
    number::decimal_holds_digits(m, ';');
    assert(number::read_unsigned(n, 255) == Some(m as int));
    text::pieces_of_sum(first, ';', n);
    text::pieces_without(n, ';');
    text::pieces_without(first, ';');
    let f = text::pieces(s, ';');
    assert(f =~= seq![first, n]);
}

} // verus!
