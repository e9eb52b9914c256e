//! UTF-16, the encoding in which the system takes typed text and gives
//! back translated keys.
use vstd::prelude::*;
use crate::text::{char_from_u32, is_scalar};

verus! {

/// The UTF-16 code units of one character: itself below U+10000, a
/// surrogate pair above.
pub open spec fn utf16_units(c: char) -> Seq<u16> {
    let v = c as int;
    if v < 0x10000 {
        seq![v as u16]
    } else {
        let w = v - 0x10000;
        seq![(0xD800 + w / 0x400) as u16, (0xDC00 + w % 0x400) as u16]
    }
}

/// The UTF-16 encoding of a text.
pub open spec fn utf16_encode(s: Seq<char>) -> Seq<u16>
    decreases s.len(),
{
    if s.len() == 0 {
        Seq::empty()
    } else {
        utf16_units(s[0]) + utf16_encode(s.drop_first())
    }
}

/// A high (leading) surrogate.
pub open spec fn is_high_surrogate(u: u16) -> bool {
    0xD800 <= u < 0xDC00
}

/// A low (trailing) surrogate.
pub open spec fn is_low_surrogate(u: u16) -> bool {
    0xDC00 <= u < 0xE000
}

/// The code point of a surrogate pair.
pub open spec fn pair_value(hi: u16, lo: u16) -> int {
    0x10000 + (hi - 0xD800) * 0x400 + (lo - 0xDC00)
}

/// `c` in front of a decoded text, if there is one.
pub open spec fn prepend(c: char, r: Option<Seq<char>>) -> Option<Seq<char>> {
    match r {
        Some(t) => Some(seq![c] + t),
        None => None,
    }
}

/// The text that UTF-16 code units encode, or `None` where a surrogate is
/// unpaired (what `String::from_utf16` accepts and gives).
pub open spec fn utf16_decode(u: Seq<u16>) -> Option<Seq<char>>
    decreases u.len(),
{
    if u.len() == 0 {
        Some(Seq::empty())
    } else if !is_high_surrogate(u[0]) && !is_low_surrogate(u[0]) {
        prepend((u[0] as int) as char, utf16_decode(u.drop_first()))
    } else if is_high_surrogate(u[0]) && u.len() >= 2 && is_low_surrogate(u[1]) {
        prepend(pair_value(u[0], u[1]) as char, utf16_decode(u.subrange(2, u.len() as int)))
    } else {
        None
    }
}

proof fn lemma_units_decode(c: char, rest: Seq<u16>)
    ensures
        utf16_decode(utf16_units(c) + rest) == prepend(c, utf16_decode(rest)),
{
    let v = c as int;
    let s = utf16_units(c) + rest;
    assert(0 <= v <= 0x10FFFF);
    assert(v < 0xD800 || v > 0xDFFF);
    if v < 0x10000 {
        assert(s[0] == v as u16);
        assert(s.drop_first() =~= rest);
        assert((s[0] as int) as char == c);
    } else {
        let w = v - 0x10000;
        assert(0 <= w < 0x100000);
        assert(0 <= w / 0x400 < 0x400 && 0 <= w % 0x400 < 0x400 && w == (w / 0x400) * 0x400 + w
            % 0x400) by (nonlinear_arith)
            requires
                0 <= w < 0x100000,
        ;
        assert(s[0] == (0xD800 + w / 0x400) as u16);
        assert(s[1] == (0xDC00 + w % 0x400) as u16);
        assert(s.subrange(2, s.len() as int) =~= rest);
        assert(pair_value(s[0], s[1]) == v);
        assert((v as char) == c);
    }
}

/// Decoding the UTF-16 encoding of a text gives the text back.
pub proof fn lemma_utf16_round_trip(s: Seq<char>)
    ensures
        utf16_decode(utf16_encode(s)) == Some(s),
    decreases s.len(),
{
    if s.len() > 0 {
        lemma_utf16_round_trip(s.drop_first());
        lemma_units_decode(s[0], utf16_encode(s.drop_first()));
        assert(seq![s[0]] + s.drop_first() =~= s);
    }
}

/// The number of a character, a Unicode scalar value.
pub fn scalar_value(c: char) -> (r: u32)
    ensures
        r as int == c as int,
        r <= 0x10FFFF,
        !(0xD800 <= r <= 0xDFFF),
{
    c as u32
}

/// The UTF-16 code units of a text (`str::encode_utf16`).
pub fn encode_utf16(s: &str) -> (r: Vec<u16>)
    ensures
        r@ == utf16_encode(s@),
{
    let chars = crate::text::str_chars(s);
    let mut r: Vec<u16> = Vec::new();
    let mut i: usize = 0;
    assert(chars@.subrange(0, chars@.len() as int) =~= chars@);
    while i < chars.len()
        invariant
            chars@ == s@,
            i <= chars@.len(),
            r@ + utf16_encode(chars@.subrange(i as int, chars@.len() as int)) == utf16_encode(s@),
        decreases chars@.len() - i,
    {
        let ghost rest = chars@.subrange(i as int, chars@.len() as int);
        assert(rest[0] == chars@[i as int]);
        assert(rest.drop_first() =~= chars@.subrange(i + 1, chars@.len() as int));
        let c = chars[i];
        let v = scalar_value(c);
        let ghost before = r@;
        if v < 0x10000 {
            r.push(v as u16);
            assert(r@ =~= before + utf16_units(c));
        } else {
            let w = v - 0x10000;
            assert(w / 0x400 < 0x400) by (nonlinear_arith)
                requires
                    w < 0x100000,
            ;
            r.push((0xD800 + w / 0x400) as u16);
            r.push((0xDC00 + w % 0x400) as u16);
            assert(r@ =~= before + utf16_units(c));
        }
        assert(before + utf16_encode(rest) =~= r@ + utf16_encode(
            chars@.subrange(i + 1, chars@.len() as int),
        ));
        i += 1;
    }
    assert(utf16_encode(chars@.subrange(i as int, chars@.len() as int)) =~= Seq::<u16>::empty());
    assert(r@ + Seq::<u16>::empty() =~= r@);
    r
}

/// The text that UTF-16 code units encode (`String::from_utf16`), `None`
/// where a surrogate is unpaired.
pub fn decode_utf16(u: &[u16]) -> (r: Option<String>)
    ensures
        match r {
            Some(t) => utf16_decode(u@) == Some(t@),
            None => utf16_decode(u@) is None,
        },
{
    let mut acc: Vec<char> = Vec::new();
    let mut i: usize = 0;
    assert(u@.subrange(0, u@.len() as int) =~= u@);
    assert(Seq::<char>::empty() + Seq::<char>::empty() =~= Seq::<char>::empty());
    while i < u.len()
        invariant
            i <= u@.len(),
            utf16_decode(u@) == (match utf16_decode(u@.subrange(i as int, u@.len() as int)) {
                Some(t) => Some(acc@ + t),
                None => None,
            }),
        decreases u@.len() - i,
    {
        let ghost rest = u@.subrange(i as int, u@.len() as int);
        assert(rest[0] == u[i as int]);
        let x = u[i];
        if x < 0xD800 || x >= 0xE000 {
            assert(rest.drop_first() =~= u@.subrange(i + 1, u@.len() as int));
            let c = match char_from_u32(x as u32) {
                Some(c) => c,
                None => {
                    assert(false);
                    return None;
                },
            };
            let ghost before = acc@;
            acc.push(c);
            proof {
                match utf16_decode(u@.subrange(i + 1, u@.len() as int)) {
                    Some(t) => {
                        assert(before + (seq![c] + t) =~= acc@ + t);
                    },
                    None => {},
                }
            }
            i += 1;
        } else if x < 0xDC00 && i + 1 < u.len() && u[i + 1] >= 0xDC00 && u[i + 1] < 0xE000 {
            let y = u[i + 1];
            assert(rest[1] == y);
            assert(rest.subrange(2, rest.len() as int) =~= u@.subrange(i + 2, u@.len() as int));
            let v: u32 = 0x10000 + ((x - 0xD800) as u32) * 0x400 + ((y - 0xDC00) as u32);
            assert(v == pair_value(x, y));
            let c = match char_from_u32(v) {
                Some(c) => c,
                None => {
                    assert(false);
                    return None;
                },
            };
            let ghost before = acc@;
            acc.push(c);
            proof {
                match utf16_decode(u@.subrange(i + 2, u@.len() as int)) {
                    Some(t) => {
                        assert(before + (seq![c] + t) =~= acc@ + t);
                    },
                    None => {},
                }
            }
            i += 2;
        } else {
            return None;
        }
    }
    assert(u@.subrange(i as int, u@.len() as int) =~= Seq::<u16>::empty());
    assert(acc@ + Seq::<char>::empty() =~= acc@);
    Some(crate::text::chars_to_string(&acc))
}

} // verus!
