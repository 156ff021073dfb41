//! The prefix key.
use crate::text;
use vstd::prelude::*;

verus! {

/// The control byte of a letter: `a` is 1, and case does not count.
pub open spec fn control_byte(c: char) -> Option<u8> {
    if 'a' <= c <= 'z' {
        Some((c as int - 'a' as int + 1) as u8)
    } else if 'A' <= c <= 'Z' {
        Some((c as int - 'A' as int + 1) as u8)
    } else {
        None
    }
}

/// The byte that a prefix spec names. `C-<letter>` and `c-<letter>` are 1 to 26,
/// `C-Space` and `C-space` are 0, and everything else is the default, `C-g`.
pub open spec fn prefix_byte(spec: Option<Seq<char>>) -> u8 {
    match spec {
        None => 0x07,
        Some(s) => {
            let t = text::trimmed(s);
            if text::begins(t, "C-"@) || text::begins(t, "c-"@) {
                let key = t.skip(2);
                if key == "Space"@ || key == "space"@ {
                    0x00
                } else if key.len() == 1 {
                    match control_byte(key[0]) {
                        Some(b) => b,
                        None => 0x07,
                    }
                } else {
                    0x07
                }
            } else {
                0x07
            }
        },
    }
}

/// Parses a prefix spec into a control byte.
pub fn parse_prefix(spec: Option<&str>) -> (b: u8)
    ensures
        b == prefix_byte(text::opt_str(spec)),
{
    let s = match spec {
        Some(s) => text::trim_str(s),
        None => return 0x07,
    };
    proof {
        reveal_strlit("C-");
        reveal_strlit("c-");
    }
    let key = match text::after_str(s, "C-") {
        Some(key) => key,
        None => match text::after_str(s, "c-") {
            Some(key) => key,
            None => return 0x07,
        },
    };
    if text::same(key, "Space") || text::same(key, "space") {
        return 0x00;
    }
    let cs = text::chars_of(key);
    if cs.len() == 1 {
        let c = cs[0];
        if 'a' <= c && c <= 'z' {
            return (c as u32 - 'a' as u32 + 1) as u8;
        }
        if 'A' <= c && c <= 'Z' {
            return (c as u32 - 'A' as u32 + 1) as u8;
        }
    }
    0x07
}

/// Every prefix is a C0 control byte, so it can be neither a printable key nor
/// part of a longer character.
pub proof fn prefix_is_control(spec: Option<Seq<char>>)
    ensures
        prefix_byte(spec) <= 0x1a,
{
}

/// A prefix is `C-` or `c-` and a letter of either case, which is the place of the letter in
/// the alphabet, or `Space`, which is zero; anything else is the seventh letter.
pub proof fn prefix_is_told_by_its_letter(c: char, spec: Seq<char>)
    ensures
        'a' <= c <= 'z' ==> prefix_byte(Some("C-"@ + seq![c])) as int == c as int - 'a' as int + 1,
        'A' <= c <= 'Z' ==> prefix_byte(Some("C-"@ + seq![c])) as int == c as int - 'A' as int + 1,
        'a' <= c <= 'z' ==> prefix_byte(Some("c-"@ + seq![c])) as int == c as int - 'a' as int + 1,
        'A' <= c <= 'Z' ==> prefix_byte(Some("c-"@ + seq![c])) as int == c as int - 'A' as int + 1,
        prefix_byte(Some("C-Space"@)) == 0,
        prefix_byte(Some("C-space"@)) == 0,
        prefix_byte(None) == 7,
        !(text::trimmed(spec).len() >= 3 && text::trimmed(spec)[1] == '-' && (text::trimmed(spec)[0]
            == 'C' || text::trimmed(spec)[0] == 'c')) ==> prefix_byte(Some(spec)) == 7,
        prefix_byte(Some(spec)) == prefix_byte(Some(text::trimmed(spec))),
{
    reveal_strlit("C-");
    reveal_strlit("c-");
    reveal_strlit("Space");
    reveal_strlit("space");
    reveal_strlit("C-Space");
    reveal_strlit("C-space");
    let up = "C-"@ + seq![c];
    let low = "c-"@ + seq![c];
    let is_letter = 'a' <= c <= 'z' || 'A' <= c <= 'Z';
    if is_letter {
        assert(text::trimmed(up) =~= up);
        assert(text::trimmed(low) =~= low);
        assert(up.take(2) =~= "C-"@);
        assert(low.take(2) =~= "c-"@);
        assert(low.take(2)[0] != "C-"@[0]);
        assert(up.skip(2) =~= seq![c]);
        assert(low.skip(2) =~= seq![c]);
        assert("Space"@.len() == 5 && "space"@.len() == 5);
    }
    let a = "C-Space"@;
    let b = "C-space"@;
    assert(text::trimmed(a) =~= a);
    assert(text::trimmed(b) =~= b);
    assert(a.take(2) =~= "C-"@);
    assert(b.take(2) =~= "C-"@);
    assert(a.skip(2) =~= "Space"@);
    assert(b.skip(2) =~= "space"@);
    let t = text::trimmed(spec);
    let (front, end) = text::trimming_takes_the_ends(spec);
    assert(text::trimmed(t) == t);
    if text::begins(t, "C-"@) {
        assert(t.take(2)[0] == t[0] && t.take(2)[1] == t[1]);
    }
    if text::begins(t, "c-"@) {
        assert(t.take(2)[0] == t[0] && t.take(2)[1] == t[1]);
    }
    if (text::begins(t, "C-"@) || text::begins(t, "c-"@)) && t.len() == 2 {
        assert(t.skip(2).len() == 0);
        assert("Space"@.len() == 5 && "space"@.len() == 5);
    }
}

} // verus!
