//! UTF-16 text and its little-endian bytes.

use vstd::prelude::*;

verus! {

/// Whether `u` is a Unicode scalar value.
pub open spec fn is_scalar(u: u32) -> bool {
    u <= 0xd7ff || 0xe000 <= u <= 0x10ffff
}

/// Converts a number to the character of that scalar value: `char::from_u32` gives
/// the character for every Unicode scalar value, and nothing for any other number.
pub assume_specification[ char::from_u32 ](u: u32) -> (r: Option<char>)
    ensures
        r == (if is_scalar(u) {
            Some(u as char)
        } else {
            None
        }),
;

/// Whether `u` is the first half of a surrogate pair.
pub open spec fn is_high(u: u16) -> bool {
    0xd800 <= u <= 0xdbff
}

/// Whether `u` is the second half of a surrogate pair.
pub open spec fn is_low(u: u16) -> bool {
    0xdc00 <= u <= 0xdfff
}

/// The code point that a surrogate pair stands for.
pub open spec fn pair_value(high: u16, low: u16) -> u32 {
    (0x10000 + (high - 0xd800) * 0x400 + (low - 0xdc00)) as u32
}

/// The UTF-16 code units of one character.
pub open spec fn encode_char(c: char) -> Seq<u16> {
    let u = c as u32;
    if u < 0x10000 {
        seq![u as u16]
    } else {
        seq![
            (0xd800 + (u - 0x10000) / 0x400) as u16,
            (0xdc00 + (u - 0x10000) % 0x400) as u16,
        ]
    }
}

/// The UTF-16 code units of `s`.
pub open spec fn encode16(s: Seq<char>) -> Seq<u16>
    decreases s.len(),
{
    if s.len() == 0 {
        seq![]
    } else {
        encode_char(s[0]) + encode16(s.drop_first())
    }
}

/// The text of UTF-16 code units; each surrogate without a partner becomes U+FFFD.
pub open spec fn decode16(units: Seq<u16>) -> Seq<char>
    decreases units.len(),
{
    if units.len() == 0 {
        seq![]
    } else if is_high(units[0]) && units.len() >= 2 && is_low(units[1]) {
        seq![pair_value(units[0], units[1]) as char] + decode16(units.skip(2))
    } else if is_high(units[0]) || is_low(units[0]) {
        seq!['\u{fffd}'] + decode16(units.skip(1))
    } else {
        seq![units[0] as u32 as char] + decode16(units.skip(1))
    }
}

/// The little-endian code units in `bytes`; an odd byte at the end is left out.
pub open spec fn units_le(bytes: Seq<u8>) -> Seq<u16> {
    Seq::new(bytes.len() / 2, |i: int| (bytes[2 * i] + 256 * bytes[2 * i + 1]) as u16)
}

/// The bytes of `units`, low byte first.
pub open spec fn bytes_le(units: Seq<u16>) -> Seq<u8> {
    Seq::new(
        2 * units.len(),
        |i: int|
            if i % 2 == 0 {
                (units[i / 2] % 256) as u8
            } else {
                (units[i / 2] / 256) as u8
            },
    )
}

/// The UTF-16 code units of `s`.
pub fn encode_utf16(s: &[char]) -> (r: Vec<u16>)
    ensures
        r@ == encode16(s@),
{
    let mut out: Vec<u16> = Vec::new();
    let mut i: usize = 0;
    assert(s@.skip(0) =~= s@);
    assert(out@ + encode16(s@) =~= encode16(s@));
    while i < s.len()
        invariant
            i <= s@.len(),
            out@ + encode16(s@.skip(i as int)) == encode16(s@),
        decreases s@.len() - i,
    {
        let ghost before = out@;
        let u: u32 = s[i] as u32;
        if u < 0x10000 {
            out.push(u as u16);
        } else {
            let v: u32 = u - 0x10000;
            out.push((0xd800 + v / 0x400) as u16);
            out.push((0xdc00 + v % 0x400) as u16);
        }
        proof {
            assert(out@ =~= before + encode_char(s@[i as int]));
            assert(s@.skip(i as int).drop_first() =~= s@.skip(i + 1));
            assert(out@ + encode16(s@.skip(i + 1)) =~= before + encode16(s@.skip(i as int)));
        }
        i += 1;
    }
    assert(s@.skip(i as int) =~= Seq::<char>::empty());
    assert(out@ =~= encode16(s@));
    out
}

/// Appends the text of UTF-16 code units to `out`, each surrogate without a partner
/// as U+FFFD.
pub fn push_utf16(out: &mut Vec<char>, units: &[u16])
    ensures
        final(out)@ == old(out)@ + decode16(units@),
{
    let mut i: usize = 0;
    assert(units@.skip(0) =~= units@);
    while i < units.len()
        invariant
            i <= units@.len(),
            out@ + decode16(units@.skip(i as int)) == old(out)@ + decode16(units@),
        decreases units@.len() - i,
    {
        let u: u16 = units[i];
        let ghost before = out@;
        let ghost rest = units@.skip(i as int);
        if 0xd800 <= u && u <= 0xdbff && i + 1 < units.len() && 0xdc00 <= units[i + 1]
            && units[i + 1] <= 0xdfff {
            let v: u32 = 0x10000 + (u as u32 - 0xd800) * 0x400 + (units[i + 1] as u32 - 0xdc00);
            match char::from_u32(v) {
                Some(c) => out.push(c),
                None => {},
            }
            i += 2;
            proof {
                assert(rest.skip(2) =~= units@.skip(i as int));
                assert(out@ + decode16(rest.skip(2)) =~= before + decode16(rest));
            }
        } else {
            match char::from_u32(u as u32) {
                Some(c) => out.push(c),
                None => out.push('\u{fffd}'),
            }
            i += 1;
            proof {
                assert(rest.skip(1) =~= units@.skip(i as int));
                assert(out@ + decode16(rest.skip(1)) =~= before + decode16(rest));
            }
        }
    }
    assert(units@.skip(i as int) =~= Seq::<u16>::empty());
    assert(out@ + decode16(Seq::<u16>::empty()) =~= out@);
}

/// The little-endian code units in `bytes`; an odd byte at the end is left out.
pub fn read_units(bytes: &[u8]) -> (r: Vec<u16>)
    ensures
        r@ == units_le(bytes@),
{
    let mut out: Vec<u16> = Vec::new();
    let n: usize = bytes.len() / 2;
    let mut i: usize = 0;
    while i < n
        invariant
            i <= n,
            n == bytes@.len() / 2,
            bytes@.len() <= usize::MAX,
            out@ =~= units_le(bytes@).take(i as int),
        decreases n - i,
    {
        out.push(bytes[2 * i] as u16 + 256 * (bytes[2 * i + 1] as u16));
        i += 1;
    }
    out
}

/// Decoding what encoding gave is the text itself, with whatever comes after it.
pub proof fn lemma_decode_encode(s: Seq<char>, tail: Seq<u16>)
    ensures
        decode16(encode16(s) + tail) == s + decode16(tail),
    decreases s.len(),
{
    if s.len() == 0 {
        assert(encode16(s) + tail =~= tail);
        assert(s + decode16(tail) =~= decode16(tail));
    } else {
        let c = s[0];
        let rest = encode16(s.drop_first()) + tail;
        let all = encode16(s) + tail;
        lemma_decode_encode(s.drop_first(), tail);
        assert(all =~= encode_char(c) + rest);
        let u = c as u32;
        vstd::utf8::char_is_scalar(c);
        vstd::utf8::char_u32_cast(c, u);
        if u < 0x10000 {
            assert(all[0] == u);
            assert(all.skip(1) =~= rest);
        } else {
            assert(all.skip(2) =~= rest);
            let v = u - 0x10000;
            assert(all[0] == 0xd800 + v / 0x400 && all[1] == 0xdc00 + v % 0x400);
            assert(pair_value(all[0], all[1]) == u);
        }
        assert(decode16(all) =~= seq![c] + decode16(rest));
        assert(s =~= seq![c] + s.drop_first());
        assert(decode16(all) =~= s + decode16(tail));
    }
}

/// Decoding the UTF-16 form of a text gives the text back.
pub proof fn law_utf16_round_trip(s: Seq<char>)
    ensures
        decode16(encode16(s)) == s,
{
    lemma_decode_encode(s, seq![]);
    assert(encode16(s) + Seq::<u16>::empty() =~= encode16(s));
    assert(s + decode16(seq![]) =~= s);
}

/// Reading code units back from their bytes gives those units.
pub proof fn law_units_round_trip(units: Seq<u16>)
    ensures
        units_le(bytes_le(units)) == units,
{
    let b = bytes_le(units);
    assert forall|i: int| 0 <= i < units.len() implies units_le(b)[i] == units[i] by {
        assert(b[2 * i] == units[i] % 256);
        assert((2 * i + 1) / 2 == i);
        assert(b[2 * i + 1] == units[i] / 256);
    }
    assert(units_le(b) =~= units);
}

} // verus!
