//! Bytes written as hexadecimal text.

use crate::text::{chars_of, is_hex_digit, CharClass};
use vstd::prelude::*;

verus! {

/// The lower-case hexadecimal digit for `n`.
pub open spec fn hex_char(n: nat) -> char {
    if n < 10 {
        (48 + n) as u8 as char
    } else {
        (87 + n) as u8 as char
    }
}

/// The value of a hexadecimal digit.
pub open spec fn hex_value(c: char) -> nat {
    if '0' <= c <= '9' {
        (c as u32 - 48) as nat
    } else if 'a' <= c <= 'f' {
        (c as u32 - 87) as nat
    } else {
        (c as u32 - 55) as nat
    }
}

/// `bytes` as lower-case hexadecimal text: two characters for each byte.
pub open spec fn to_hex(bytes: Seq<u8>) -> Seq<char>
    decreases bytes.len(),
{
    if bytes.len() == 0 {
        seq![]
    } else {
        to_hex(bytes.drop_last()) + seq![
            hex_char(bytes.last() as nat / 16),
            hex_char(bytes.last() as nat % 16),
        ]
    }
}

/// The bytes of hexadecimal text: whole pairs of digits, up to the first that is none.
pub open spec fn from_hex(s: Seq<char>) -> Seq<u8>
    decreases s.len(),
{
    if s.len() >= 2 && is_hex_digit(s[0]) && is_hex_digit(s[1]) {
        seq![(hex_value(s[0]) * 16 + hex_value(s[1])) as u8] + from_hex(s.skip(2))
    } else {
        seq![]
    }
}

/// The lower-case hexadecimal digit for `n`.
pub fn hex_digit(n: u8) -> (r: char)
    requires
        n < 16,
    ensures
        r == hex_char(n as nat),
{
    if n < 10 {
        (48 + n) as char
    } else {
        (87 + n) as char
    }
}

/// The value of a hexadecimal digit.
fn digit_of(c: char) -> (r: u8)
    requires
        is_hex_digit(c),
    ensures
        r == hex_value(c),
        r < 16,
{
    if '0' <= c && c <= '9' {
        c as u8 - 48
    } else if 'a' <= c && c <= 'f' {
        c as u8 - 87
    } else {
        c as u8 - 55
    }
}

/// Appends `bytes` to `out` as lower-case hexadecimal text (two characters for each
/// byte, no separators).
pub fn push_hex(out: &mut String, bytes: &[u8])
    ensures
        final(out)@ == old(out)@ + to_hex(bytes@),
{
    let mut i: usize = 0;
    assert(bytes@.take(0) =~= Seq::<u8>::empty());
    assert(out@ =~= old(out)@ + to_hex(bytes@.take(0)));
    while i < bytes.len()
        invariant
            i <= bytes@.len(),
            out@ == old(out)@ + to_hex(bytes@.take(i as int)),
        decreases bytes@.len() - i,
    {
        out.push(hex_digit(bytes[i] / 16));
        out.push(hex_digit(bytes[i] % 16));
        proof {
            assert(bytes@.take(i + 1).drop_last() =~= bytes@.take(i as int));
            assert(out@ =~= old(out)@ + to_hex(bytes@.take(i + 1)));
        }
        i += 1;
    }
    assert(bytes@.take(i as int) =~= bytes@);
}

/// Decodes hexadecimal text to bytes; a trailing half-byte is ignored.
pub fn decode_hex(hex: &str) -> (r: Vec<u8>)
    ensures
        r@ == from_hex(hex@),
{
    let c: Vec<char> = chars_of(hex);
    hex_bytes(&c)
}

/// Decodes hexadecimal characters to bytes; a trailing half-byte is ignored.
pub fn hex_bytes(c: &[char]) -> (r: Vec<u8>)
    ensures
        r@ == from_hex(c@),
{
    let mut out: Vec<u8> = Vec::new();
    let mut i: usize = 0;
    assert(c@.skip(0) =~= c@);
    assert(out@ + from_hex(c@) =~= from_hex(c@));
    while i < c.len() && c.len() - i >= 2 && CharClass::HexDigit.contains(c[i])
        && CharClass::HexDigit.contains(c[i + 1])
        invariant
            i <= c@.len(),
            out@ + from_hex(c@.skip(i as int)) == from_hex(c@),
        decreases c@.len() - i,
    {
        let ghost before = out@;
        let ghost rest = c@.skip(i as int);
        let h: u8 = digit_of(c[i]);
        let l: u8 = digit_of(c[i + 1]);
        out.push(h * 16 + l);
        i += 2;
        proof {
            assert(rest.skip(2) =~= c@.skip(i as int));
            assert(out@ + from_hex(rest.skip(2)) =~= before + from_hex(rest));
        }
    }
    assert(out@ + Seq::<u8>::empty() =~= out@);
    out
}

proof fn lemma_digits(n: nat)
    requires
        n < 16,
    ensures
        is_hex_digit(hex_char(n)),
        hex_value(hex_char(n)) == n,
{
}

/// Hexadecimal text holds two hexadecimal digits for each byte.
pub proof fn lemma_to_hex_digits(bytes: Seq<u8>)
    ensures
        to_hex(bytes).len() == 2 * bytes.len(),
        forall|i: int| 0 <= i < to_hex(bytes).len() ==> is_hex_digit(#[trigger] to_hex(bytes)[i]),
    decreases bytes.len(),
{
    if bytes.len() > 0 {
        lemma_to_hex_digits(bytes.drop_last());
        lemma_digits(bytes.last() as nat / 16);
        lemma_digits(bytes.last() as nat % 16);
    }
}

proof fn lemma_hex_front(bytes: Seq<u8>)
    requires
        bytes.len() > 0,
    ensures
        to_hex(bytes) == seq![hex_char(bytes[0] as nat / 16), hex_char(bytes[0] as nat % 16)]
            + to_hex(bytes.drop_first()),
    decreases bytes.len(),
{
    if bytes.len() == 1 {
        assert(bytes.drop_last() =~= Seq::<u8>::empty());
        assert(bytes.drop_first() =~= Seq::<u8>::empty());
        assert(to_hex(bytes) =~= seq![
            hex_char(bytes[0] as nat / 16),
            hex_char(bytes[0] as nat % 16),
        ] + to_hex(bytes.drop_first()));
    } else {
        lemma_hex_front(bytes.drop_last());
        assert(bytes.drop_last().drop_first() =~= bytes.drop_first().drop_last());
        assert(to_hex(bytes) =~= seq![
            hex_char(bytes[0] as nat / 16),
            hex_char(bytes[0] as nat % 16),
        ] + to_hex(bytes.drop_first()));
    }
}

/// Decoding the hexadecimal text of some bytes gives those bytes back.
pub proof fn law_hex_round_trip(bytes: Seq<u8>)
    ensures
        from_hex(to_hex(bytes)) == bytes,
    decreases bytes.len(),
{
    if bytes.len() > 0 {
        lemma_hex_front(bytes);
        law_hex_round_trip(bytes.drop_first());
        lemma_digits(bytes[0] as nat / 16);
        lemma_digits(bytes[0] as nat % 16);
        assert(to_hex(bytes).skip(2) =~= to_hex(bytes.drop_first()));
        assert(from_hex(to_hex(bytes)) =~= bytes);
    } else {
        assert(from_hex(to_hex(bytes)) =~= bytes);
    }
}

} // verus!
