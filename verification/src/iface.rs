//! Interface descriptors as the probe captures them and the filter keys them.

use crate::event::{MAX_IFACE_BYTES, IfaceKey};
use crate::text::{chars_of, find, find_from, lemma_find_is, lemma_find_none, occurs_at, push_chars};
use crate::utf16::{
    bytes_le, decode16, encode16, encode_utf16, law_units_round_trip, law_utf16_round_trip,
    lemma_decode_encode, push_utf16, read_units, units_le,
};
use vstd::prelude::*;
use vstd::slice::slice_subrange;

verus! {

/// Bytes cut or zero-padded to the size of an interface buffer.
pub open spec fn padded(b: Seq<u8>) -> Seq<u8> {
    Seq::new(
        MAX_IFACE_BYTES as nat,
        |i: int|
            if i < b.len() {
                b[i]
            } else {
                0u8
            },
    )
}

/// The filter key of an interface name: its UTF-16LE bytes, cut or zero-padded.
pub open spec fn key_bytes(name: Seq<char>) -> Seq<u8> {
    padded(bytes_le(encode16(name)))
}

/// `s` up to its first NUL.
pub open spec fn until_nul(s: Seq<char>) -> Seq<char> {
    match find_from(s, "\0"@, 0) {
        Some(i) => s.take(i),
        None => s,
    }
}

/// The descriptor in the first `byte_len` bytes of `iface`.
pub open spec fn iface_text(iface: Seq<u8>, byte_len: int) -> Seq<char> {
    if 0 < byte_len <= iface.len() {
        until_nul(decode16(units_le(iface.take(byte_len))))
    } else {
        seq![]
    }
}

/// Builds the in-kernel filter key for an interface name: its UTF-16LE bytes,
/// zero-padded, byte-identical to what the probe captures, so a direct map lookup
/// matches. Names longer than the buffer are truncated (the probe truncates the same
/// way).
pub fn iface_key(name: &str) -> (r: IfaceKey)
    ensures
        r.0@ == key_bytes(name@),
{
    let chars: Vec<char> = chars_of(name);
    let units: Vec<u16> = encode_utf16(&chars);
    let mut key: [u8; 256] = [0u8; 256];
    let n: usize = if units.len() < 128 {
        units.len()
    } else {
        128
    };
    let mut i: usize = 0;
    while i < n
        invariant
            i <= n <= 128,
            n <= units@.len(),
            forall|j: int| 0 <= j < 2 * i ==> key@[j] == bytes_le(units@)[j],
            forall|j: int| 2 * i <= j < 256 ==> key@[j] == 0,
        decreases n - i,
    {
        let unit: u16 = units[i];
        key[2 * i] = (unit % 256) as u8;
        key[2 * i + 1] = (unit / 256) as u8;
        proof {
            let b = bytes_le(units@);
            assert(b[2 * i] == unit % 256);
            assert((2 * i + 1) / 2 == i);
            assert(b[2 * i + 1] == unit / 256);
        }
        i += 1;
    }
    assert(key@ =~= key_bytes(name@));
    IfaceKey(key)
}

/// Decodes a captured UTF-16LE interface descriptor (`iface[..byte_len]`) and appends it
/// to `out`. Returns false (writing nothing) when there is no usable descriptor. Stops
/// at the first NUL, and substitutes U+FFFD for unpaired surrogates.
pub fn write_iface_bytes(out: &mut String, iface: &[u8], byte_len: usize) -> (r: bool)
    ensures
        final(out)@ == old(out)@ + iface_text(iface@, byte_len as int),
        r == (iface_text(iface@, byte_len as int).len() > 0),
{
    if byte_len == 0 || byte_len > iface.len() {
        assert(out@ =~= old(out)@ + iface_text(iface@, byte_len as int));
        return false;
    }
    let units: Vec<u16> = read_units(slice_subrange(iface, 0, byte_len));
    let mut chars: Vec<char> = Vec::new();
    push_utf16(&mut chars, &units);
    proof {
        assert(chars@ =~= decode16(units@));
        assert(iface@.subrange(0, byte_len as int) =~= iface@.take(byte_len as int));
    }
    let end: usize = match find(&chars, "\0", 0) {
        Some(i) => i,
        None => chars.len(),
    };
    push_chars(out, &chars, 0, end);
    assert(chars@.subrange(0, end as int) =~= iface_text(iface@, byte_len as int));
    end > 0
}

/// Text without a NUL is all before its first NUL.
pub proof fn lemma_no_nul(s: Seq<char>)
    requires
        !s.contains('\0'),
    ensures
        until_nul(s) == s,
{
    reveal_strlit("\0");
    assert forall|j: int| 0 <= j implies !occurs_at(s, "\0"@, j) by {
        if occurs_at(s, "\0"@, j) {
            assert(s.subrange(j, j + 1)[0] == s[j]);
            assert(s.contains('\0'));
        }
    }
    lemma_find_none(s, "\0"@, 0);
}

/// Zero units decode to NULs.
proof fn lemma_zeros(n: nat)
    ensures
        decode16(Seq::new(n, |i: int| 0u16)) == Seq::new(n, |i: int| '\0'),
    decreases n,
{
    let zeros = Seq::new(n, |i: int| 0u16);
    if n > 0 {
        lemma_zeros((n - 1) as nat);
        assert(zeros.skip(1) =~= Seq::new((n - 1) as nat, |i: int| 0u16));
        assert(decode16(zeros) =~= Seq::new(n, |i: int| '\0'));
    } else {
        assert(decode16(zeros) =~= Seq::new(n, |i: int| '\0'));
    }
}

/// The key of a name that fits the buffer decodes back to the name, from every number of
/// bytes that holds the name.
pub proof fn law_iface_key_round_trip(name: Seq<char>, len: int)
    requires
        !name.contains('\0'),
        2 * encode16(name).len() <= len <= MAX_IFACE_BYTES,
    ensures
        iface_text(key_bytes(name), len) == name,
{
    reveal_strlit("\0");
    let units = encode16(name);
    let key = key_bytes(name).take(len);
    let n = (len / 2 - units.len()) as nat;
    let zeros = Seq::new(n, |i: int| 0u16);
    law_utf16_round_trip(name);
    if len == 0 {
        assert(decode16(units) =~= Seq::<char>::empty());
    } else {
        assert(units_le(key) =~= units + zeros) by {
            law_units_round_trip(units);
            let b = bytes_le(units);
            assert forall|i: int| 0 <= i < len / 2 implies units_le(key)[i] == (units
                + zeros)[i] by {
                if i < units.len() {
                    assert(units_le(b)[i] == units[i]);
                    assert(key[2 * i] == b[2 * i] && key[2 * i + 1] == b[2 * i + 1]);
                } else {
                    assert(key[2 * i] == 0 && key[2 * i + 1] == 0);
                }
            }
        }
        lemma_decode_encode(name, zeros);
        lemma_zeros(n);
        let text = name + Seq::new(n, |i: int| '\0');
        assert(decode16(units_le(key)) == text);
        if n == 0 {
            assert(text =~= name);
            lemma_no_nul(name);
        } else {
            assert(text.subrange(name.len() as int, name.len() as int + 1) =~= "\0"@);
            assert forall|j: int| 0 <= j < name.len() implies !occurs_at(text, "\0"@, j) by {
                if occurs_at(text, "\0"@, j) {
                    assert(text.subrange(j, j + 1)[0] == name[j]);
                    assert(name.contains('\0'));
                }
            }
            lemma_find_is(text, "\0"@, 0, name.len() as int);
            assert(text.take(name.len() as int) =~= name);
        }
    }
}

/// Keys do not collide: two names that fit the buffer have the same key only where they
/// are the same name.
pub proof fn law_keys_do_not_collide(a: Seq<char>, b: Seq<char>)
    requires
        !a.contains('\0'),
        !b.contains('\0'),
        2 * encode16(a).len() <= MAX_IFACE_BYTES,
        2 * encode16(b).len() <= MAX_IFACE_BYTES,
        key_bytes(a) == key_bytes(b),
    ensures
        a == b,
{
    law_iface_key_round_trip(a, MAX_IFACE_BYTES as int);
    law_iface_key_round_trip(b, MAX_IFACE_BYTES as int);
}

} // verus!
