//! UTF-16 text, as Windows takes and returns it.

use vstd::prelude::*;

use crate::text::{chars_of, from_chars};

verus! {

/// `char::from_u32`: the character with a code point, `None` where the number is
/// above `0x10FFFF` or a surrogate.
pub assume_specification[ char::from_u32 ](i: u32) -> (r: Option<char>)
    ensures
        r == if i <= 0xD7FF || (0xE000 <= i && i <= 0x10FFFF) {
            Some(i as char)
        } else {
            None
        },
;

/// The one or two UTF-16 units of a character.
pub open spec fn units_of(c: char) -> Seq<u16> {
    let code = c as u32;
    if code <= 0xFFFF {
        seq![code as u16]
    } else {
        let x = code - 0x10000;
        seq![(0xD800 + x / 0x400) as u16, (0xDC00 + x % 0x400) as u16]
    }
}

/// The UTF-16 units of a text.
pub open spec fn encoded(s: Seq<char>) -> Seq<u16>
    decreases s.len(),
{
    if s.len() == 0 {
        Seq::empty()
    } else {
        units_of(s[0]) + encoded(s.skip(1))
    }
}

/// The first unit of a surrogate pair.
pub open spec fn is_high(u: u16) -> bool {
    0xD800 <= u && u <= 0xDBFF
}

/// The second unit of a surrogate pair.
pub open spec fn is_low(u: u16) -> bool {
    0xDC00 <= u && u <= 0xDFFF
}

/// The text that UTF-16 units stand for. A surrogate without its other half
/// becomes the replacement character.
pub open spec fn decoded(u: Seq<u16>) -> Seq<char>
    decreases u.len(),
{
    if u.len() == 0 {
        Seq::empty()
    } else if u.len() >= 2 && is_high(u[0]) && is_low(u[1]) {
        seq![(0x10000 + (u[0] - 0xD800) * 0x400 + (u[1] - 0xDC00)) as char] + decoded(u.skip(2))
    } else if is_high(u[0]) || is_low(u[0]) {
        seq!['\u{FFFD}'] + decoded(u.skip(1))
    } else {
        seq![u[0] as char] + decoded(u.skip(1))
    }
}

/// The units before the first zero unit.
pub open spec fn until_nul(u: Seq<u16>) -> Seq<u16>
    decreases u.len(),
{
    if u.len() == 0 || u[0] == 0 {
        Seq::empty()
    } else {
        seq![u[0]] + until_nul(u.skip(1))
    }
}

/// The UTF-16 units of a text.
pub fn encode(s: &str) -> (r: Vec<u16>)
    ensures
        r@ == encoded(s@),
{
    let v = chars_of(s);
    let mut out: Vec<u16> = Vec::new();
    assert(v@.skip(0) =~= v@);
    for i in 0..v.len()
        invariant
            out@ + encoded(v@.skip(i as int)) == encoded(v@),
    {
        let ch: char = v[i];
        proof {
            vstd::utf8::char_is_scalar(ch);
        }
        let c: u32 = ch as u32;
        let ghost before = out@;
        let ghost rest = v@.skip(i as int);
        if c <= 0xFFFF {
            out.push(c as u16);
        } else {
            let x: u32 = c - 0x10000;
            out.push((0xD800 + x / 0x400) as u16);
            out.push((0xDC00 + x % 0x400) as u16);
        }
        assert(out@ =~= before + units_of(v@[i as int]));
        assert(rest.skip(1) =~= v@.skip(i + 1));
        assert(out@ + encoded(v@.skip(i + 1)) =~= before + encoded(rest));
    }
    assert(out@ + encoded(v@.skip(v@.len() as int)) =~= out@);
    out
}

/// The UTF-16 units of a text with a zero unit behind them.
pub fn wide_path(s: &str) -> (r: Vec<u16>)
    ensures
        r@ == encoded(s@).push(0),
{
    let mut out = encode(s);
    out.push(0);
    out
}

/// The text that UTF-16 units stand for.
pub fn decode(u: &[u16]) -> (r: String)
    ensures
        r@ == decoded(u@),
{
    let mut out: Vec<char> = Vec::new();
    let mut i: usize = 0;
    assert(u@.skip(0) =~= u@);
    while i < u.len()
        invariant
            i <= u@.len(),
            out@ + decoded(u@.skip(i as int)) == decoded(u@),
        decreases u@.len() - i,
    {
        let ghost before = out@;
        let ghost rest = u@.skip(i as int);
        let a: u16 = u[i];
        if u.len() - i >= 2 && 0xD800 <= a && a <= 0xDBFF && 0xDC00 <= u[i + 1] && u[i + 1]
            <= 0xDFFF {
            let b: u16 = u[i + 1];
            let code: u32 = 0x10000 + (a as u32 - 0xD800) * 0x400 + (b as u32 - 0xDC00);
            match char::from_u32(code) {
                Some(c) => out.push(c),
                None => {
                    assert(false);
                },
            }
            assert(rest.skip(2) =~= u@.skip(i + 2));
            assert(out@ + decoded(u@.skip(i + 2)) =~= before + decoded(rest));
            i = i + 2;
        } else {
            match char::from_u32(a as u32) {
                Some(c) => out.push(c),
                None => out.push('\u{FFFD}'),
            }
            assert(rest.skip(1) =~= u@.skip(i + 1));
            assert(out@ + decoded(u@.skip(i + 1)) =~= before + decoded(rest));
            i = i + 1;
        }
    }
    assert(out@ + decoded(u@.skip(i as int)) =~= out@);
    from_chars(&out)
}

/// The text in a buffer that a zero unit ends.
pub fn decode_until_nul(u: &[u16]) -> (r: String)
    ensures
        r@ == decoded(until_nul(u@)),
{
    let mut head: Vec<u16> = Vec::new();
    let mut i: usize = 0;
    assert(u@.skip(0) =~= u@);
    while i < u.len() && u[i] != 0
        invariant
            i <= u@.len(),
            head@ + until_nul(u@.skip(i as int)) == until_nul(u@),
        decreases u@.len() - i,
    {
        let ghost before = head@;
        let ghost rest = u@.skip(i as int);
        head.push(u[i]);
        assert(rest.skip(1) =~= u@.skip(i + 1));
        assert(head@ + until_nul(u@.skip(i + 1)) =~= before + until_nul(rest));
        i = i + 1;
    }
    assert(head@ + until_nul(u@.skip(i as int)) =~= head@);
    decode(&head)
}

/// Decoding gives back the text that was encoded.
pub proof fn law_decode_undoes_encode(s: Seq<char>)
    ensures
        decoded(encoded(s)) == s,
    decreases s.len(),
{
    if s.len() > 0 {
        let c: char = s[0];
        vstd::utf8::char_is_scalar(c);
        vstd::utf8::char_u32_cast(c, c as u32);
        let u = encoded(s);
        let tail = encoded(s.skip(1));
        law_decode_undoes_encode(s.skip(1));
        if c as u32 <= 0xFFFF {
            assert(u.skip(1) =~= tail);
        } else {
            assert(u.skip(2) =~= tail);
        }
        assert(decoded(u) =~= seq![c] + decoded(tail));
        assert(seq![c] + s.skip(1) =~= s);
    }
}

/// What is read of a buffer ends at its first zero unit: it is the beginning of the
/// buffer, holds no zero, and stops only at one or at the end.
pub proof fn law_text_ends_at_zero(u: Seq<u16>)
    ensures
        ({
            let t = until_nul(u);
            &&& t.len() <= u.len()
            &&& t == u.take(t.len() as int)
            &&& !t.contains(0)
            &&& t.len() < u.len() ==> u[t.len() as int] == 0
        }),
    decreases u.len(),
{
    let t = until_nul(u);
    if u.len() > 0 && u[0] != 0 {
        let rest = until_nul(u.skip(1));
        law_text_ends_at_zero(u.skip(1));
        assert(t =~= u.take(t.len() as int)) by {
            assert forall|i: int| 0 <= i < t.len() implies t[i] == u[i] by {
                if i > 0 {
                    assert(t[i] == rest[i - 1]);
                    assert(u.skip(1).take(rest.len() as int)[i - 1] == u[i]);
                }
            }
        }
        assert forall|i: int| 0 <= i < t.len() implies t[i] != 0 by {
            if i > 0 {
                assert(t[i] == rest[i - 1]);
                assert(rest.contains(rest[i - 1]));
            }
        }
        if t.len() < u.len() {
            assert(u.skip(1)[rest.len() as int] == u[t.len() as int]);
        }
    } else {
        assert(t =~= u.take(0));
    }
}

/// Texts are encoded one after the other, and a character takes one unit, or two where
/// its code point is above 0xFFFF.
pub proof fn law_encoding_is_piecewise(a: Seq<char>, b: Seq<char>)
    ensures
        encoded(a + b) == encoded(a) + encoded(b),
        a.len() <= encoded(a).len() <= 2 * a.len(),
        a.len() == 1 ==> (encoded(a).len() == 2 <==> a[0] as u32 > 0xFFFF),
        a.len() == 1 && a[0] as u32 <= 0xFFFF ==> encoded(a)[0] == a[0] as u32,
    decreases a.len(),
{
    if a.len() == 0 {
        assert(a + b =~= b);
        assert(encoded(a) + encoded(b) =~= encoded(b));
    } else {
        law_encoding_is_piecewise(a.skip(1), b);
        assert((a + b).skip(1) =~= a.skip(1) + b);
        assert((a + b)[0] == a[0]);
        assert(encoded(a + b) =~= units_of(a[0]) + (encoded(a.skip(1)) + encoded(b)));
        assert(encoded(a) + encoded(b) =~= units_of(a[0]) + (encoded(a.skip(1)) + encoded(b)));
        if a.len() == 1 {
            assert(a.skip(1).len() == 0);
            vstd::utf8::char_is_scalar(a[0]);
        }
    }
}

/// Half a surrogate pair is replaced, and what follows it is read all the same.
pub proof fn law_lone_surrogates_are_replaced(u: Seq<u16>)
    requires
        u.len() > 0,
        0xD800 <= u[0] <= 0xDFFF,
        u.len() == 1 || u[0] >= 0xDC00 || !(0xDC00 <= u[1] <= 0xDFFF),
    ensures
        decoded(u) == seq!['\u{FFFD}'] + decoded(u.skip(1)),
{
}

} // verus!
