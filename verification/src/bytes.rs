//! Little-endian integers in byte sequences.

use vstd::prelude::*;

verus! {

/// The 16-bit number at offset `i`, low byte first.
pub open spec fn le16(b: Seq<u8>, i: int) -> nat {
    (b[i] + 0x100 * b[i + 1]) as nat
}

/// The 32-bit number at offset `i`, low byte first.
pub open spec fn le32(b: Seq<u8>, i: int) -> nat {
    le16(b, i) + 0x1_0000 * le16(b, i + 2)
}

/// The 64-bit number at offset `i`, low byte first.
pub open spec fn le64(b: Seq<u8>, i: int) -> nat {
    le32(b, i) + 0x1_0000_0000 * le32(b, i + 4)
}

/// The signed number that a 32-bit pattern stands for in two's complement.
pub open spec fn signed32(n: nat) -> int {
    if n < 0x8000_0000 {
        n as int
    } else {
        n - 0x1_0000_0000
    }
}

/// The signed number that a 64-bit pattern stands for in two's complement.
pub open spec fn signed64(n: nat) -> int {
    if n < 0x8000_0000_0000_0000 {
        n as int
    } else {
        n - 0x1_0000_0000_0000_0000
    }
}

/// The 32-bit pattern of a signed number in two's complement.
pub open spec fn pattern32(n: int) -> nat {
    (n % 0x1_0000_0000) as nat
}

/// The 64-bit pattern of a signed number in two's complement.
pub open spec fn pattern64(n: int) -> nat {
    (n % 0x1_0000_0000_0000_0000) as nat
}

/// The 2 bytes of `n`, low byte first.
pub open spec fn to_le16(n: nat) -> Seq<u8> {
    seq![(n % 0x100) as u8, (n / 0x100) as u8]
}

/// The 4 bytes of `n`, low byte first.
pub open spec fn to_le32(n: nat) -> Seq<u8> {
    to_le16(n % 0x1_0000) + to_le16(n / 0x1_0000)
}

/// The 8 bytes of `n`, low byte first.
pub open spec fn to_le64(n: nat) -> Seq<u8> {
    to_le32(n % 0x1_0000_0000) + to_le32(n / 0x1_0000_0000)
}

/// The numbers read at an offset lie within the range of their width.
pub proof fn lemma_le_bounds(b: Seq<u8>, i: int)
    ensures
        le16(b, i) < 0x1_0000,
        le32(b, i) < 0x1_0000_0000,
        le64(b, i) < 0x1_0000_0000_0000_0000,
{
}

/// Where the 4 bytes of `n` stand, `n` is read.
pub proof fn lemma_le32_read(b: Seq<u8>, i: int, n: nat)
    requires
        0 <= i,
        i + 4 <= b.len(),
        n < 0x1_0000_0000,
        b.subrange(i, i + 4) == to_le32(n),
    ensures
        le32(b, i) == n,
{
    let s = b.subrange(i, i + 4);
    assert(s[0] == b[i] && s[1] == b[i + 1] && s[2] == b[i + 2] && s[3] == b[i + 3]);
}

/// Where the 8 bytes of `n` stand, `n` is read.
pub proof fn lemma_le64_read(b: Seq<u8>, i: int, n: nat)
    requires
        0 <= i,
        i + 8 <= b.len(),
        n < 0x1_0000_0000_0000_0000,
        b.subrange(i, i + 8) == to_le64(n),
    ensures
        le64(b, i) == n,
{
    let s = b.subrange(i, i + 8);
    assert(b.subrange(i, i + 4) =~= s.subrange(0, 4));
    assert(b.subrange(i + 4, i + 8) =~= s.subrange(4, 8));
    assert(s.subrange(0, 4) =~= to_le32(n % 0x1_0000_0000));
    assert(s.subrange(4, 8) =~= to_le32(n / 0x1_0000_0000));
    lemma_le32_read(b, i, n % 0x1_0000_0000);
    lemma_le32_read(b, i + 4, n / 0x1_0000_0000);
}

/// A signed number comes back from its bit pattern.
pub proof fn lemma_signed_patterns()
    ensures
        forall|n: i32| signed32(#[trigger] pattern32(n as int)) == n,
        forall|n: i64| signed64(#[trigger] pattern64(n as int)) == n,
{
}

/// Reads the 32-bit number at offset `i`.
pub fn read_u32(b: &[u8], i: usize) -> (r: u32)
    requires
        i + 4 <= b@.len(),
    ensures
        r == le32(b@, i as int),
{
    b[i] as u32 + 0x100 * (b[i + 1] as u32) + 0x1_0000 * (b[i + 2] as u32) + 0x100_0000 * (b[i
        + 3] as u32)
}

/// Reads the 64-bit number at offset `i`.
pub fn read_u64(b: &[u8], i: usize) -> (r: u64)
    requires
        i + 8 <= b@.len(),
    ensures
        r == le64(b@, i as int),
{
    assert(i + 8 <= b.len());
    read_u32(b, i) as u64 + 0x1_0000_0000 * (read_u32(b, i + 4) as u64)
}

/// The signed number of a 32-bit pattern.
pub fn as_signed32(n: u32) -> (r: i32)
    ensures
        r == signed32(n as nat),
{
    if n < 0x8000_0000 {
        n as i32
    } else {
        (n as i64 - 0x1_0000_0000) as i32
    }
}

/// The signed number of a 64-bit pattern.
pub fn as_signed64(n: u64) -> (r: i64)
    ensures
        r == signed64(n as nat),
{
    if n < 0x8000_0000_0000_0000 {
        n as i64
    } else {
        (n as i128 - 0x1_0000_0000_0000_0000) as i64
    }
}

/// The bit pattern of a signed 32-bit number.
pub fn as_pattern32(n: i32) -> (r: u32)
    ensures
        r == pattern32(n as int),
{
    if n >= 0 {
        n as u32
    } else {
        (n as i64 + 0x1_0000_0000) as u32
    }
}

/// Appends the 4 bytes of `n`.
pub fn push_u32(out: &mut Vec<u8>, n: u32)
    ensures
        final(out)@ == old(out)@ + to_le32(n as nat),
{
    let low: u32 = n % 0x1_0000;
    let high: u32 = n / 0x1_0000;
    out.push((low % 0x100) as u8);
    out.push((low / 0x100) as u8);
    out.push((high % 0x100) as u8);
    out.push((high / 0x100) as u8);
    assert(out@ =~= old(out)@ + to_le32(n as nat));
}

/// Appends the 8 bytes of `n`.
pub fn push_u64(out: &mut Vec<u8>, n: u64)
    ensures
        final(out)@ == old(out)@ + to_le64(n as nat),
{
    push_u32(out, (n % 0x1_0000_0000) as u32);
    push_u32(out, (n / 0x1_0000_0000) as u32);
    assert(out@ =~= old(out)@ + to_le64(n as nat));
}

} // verus!
