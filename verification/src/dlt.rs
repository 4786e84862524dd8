//! DLT (AUTOSAR / COVESA) verbose message encoding: the bytes that a DLT client reads
//! from a network connection.
//!
//! Network format: no storage header (the client stamps its own reception header). A
//! message is a standard header (with ECU id and timestamp), an extended header and a
//! single verbose UTF-8 string argument.

use vstd::prelude::*;
use vstd::utf8::{decode_utf8, encode_utf8, encode_utf8_decode_utf8};

verus! {

/// Standard header type: extended header present.
pub const HTYP_UEH: u8 = 0x01;

/// Standard header type: payload is big-endian.
pub const HTYP_MSBF: u8 = 0x02;

/// Standard header type: ECU id present.
pub const HTYP_WEID: u8 = 0x04;

/// Standard header type: timestamp present.
pub const HTYP_WTMS: u8 = 0x10;

/// Standard header type: protocol version 1 (bits 5 to 7).
pub const HTYP_VERS1: u8 = 0x20;

/// Message info: verbose mode.
pub const MSIN_VERBOSE: u8 = 0x01;

/// Message info: a log message.
pub const MSIN_TYPE_LOG: u8 = 0x00;

/// Message info: level INFO (4, in bits 4 to 7).
pub const MSIN_LEVEL_INFO: u8 = 0x40;

/// Verbose argument type info: a string (bit 9) in UTF-8 (bit 15).
pub const TYPE_INFO_STRG_UTF8: u32 = 0x8200;

/// Bytes of the standard header: type, counter, length, ECU id, timestamp.
pub const STD_HEADER_LEN: usize = 12;

/// Bytes of the extended header: message info, argument count, application, context.
pub const EXT_HEADER_LEN: usize = 10;

/// The 2 bytes of `n`, high byte first; of a larger number the lowest 16 bits.
pub open spec fn be16(n: nat) -> Seq<u8> {
    seq![(n / 0x100 % 0x100) as u8, (n % 0x100) as u8]
}

/// The 4 bytes of `n`, high byte first.
pub open spec fn be32(n: nat) -> Seq<u8> {
    be16(n / 0x1_0000) + be16(n % 0x1_0000)
}

/// The 16-bit number at offset `i`, high byte first.
pub open spec fn be16_at(b: Seq<u8>, i: int) -> int {
    0x100 * b[i] + b[i + 1]
}

/// The message that carries `text`: both headers, and an argument of type info (4 bytes),
/// length (2), text and terminator. Length fields hold the lowest 16 bits of the length.
pub open spec fn message(
    counter: u8,
    ts_tenths_ms: u32,
    ecu: Seq<u8>,
    apid: Seq<u8>,
    ctid: Seq<u8>,
    text: Seq<char>,
) -> Seq<u8> {
    let body = encode_utf8(text);
    // Extended header, big-endian payload, ECU id, timestamp, version 1.
    seq![0x37u8, counter] + be16(
        (STD_HEADER_LEN + EXT_HEADER_LEN + 7) as nat + body.len(),
    ) + ecu + be32(
        ts_tenths_ms as nat,
    )
    // Verbose log message of level INFO with one argument.
     + seq![0x41u8, 1u8] + apid + ctid + be32(TYPE_INFO_STRG_UTF8 as nat) + be16(1 + body.len())
        + body + seq![0u8]
}

/// Appends the 2 bytes of `n`, high byte first.
fn push_be16(out: &mut Vec<u8>, n: u32)
    ensures
        final(out)@ == old(out)@ + be16(n as nat),
{
    out.push((n / 0x100 % 0x100) as u8);
    out.push((n % 0x100) as u8);
    assert(out@ =~= old(out)@ + be16(n as nat));
}

/// Appends the 4 bytes of `n`, high byte first.
fn push_be32(out: &mut Vec<u8>, n: u32)
    ensures
        final(out)@ == old(out)@ + be32(n as nat),
{
    push_be16(out, n / 0x1_0000);
    push_be16(out, n % 0x1_0000);
    assert(out@ =~= old(out)@ + be32(n as nat));
}

/// The low 16 bits of a length are those of its remainder.
proof fn lemma_low_bits(n: nat, k: nat)
    ensures
        be16(n % 0x1_0000 + k) == be16(n + k),
{
    let m = n % 0x1_0000 + k;
    let q = n / 0x1_0000;
    assert(n + k == m + 0x1_0000 * q);
    assert((m + 0x1_0000 * q) % 0x100 == m % 0x100) by {
        assert(0x1_0000 * q == 0x100 * (0x100 * q));
    }
    assert((m + 0x1_0000 * q) / 0x100 == m / 0x100 + 0x100 * q) by {
        assert(0x1_0000 * q == 0x100 * (0x100 * q));
    }
    assert((m / 0x100 + 0x100 * q) % 0x100 == (m / 0x100) % 0x100);
    assert(be16(m) =~= be16(n + k));
}

/// Encodes one verbose DLT log message carrying `text` (a single UTF-8 string argument)
/// into `out`, in place of what it held. `ts_tenths_ms` is the DLT timestamp in units of
/// 0.1 ms.
pub fn encode(
    out: &mut Vec<u8>,
    counter: u8,
    ts_tenths_ms: u32,
    ecu: &[u8; 4],
    apid: &[u8; 4],
    ctid: &[u8; 4],
    text: &str,
)
    ensures
        final(out)@ == message(counter, ts_tenths_ms, ecu@, apid@, ctid@, text@),
{
    let bytes: &[u8] = text.as_bytes();
    let low: u32 = (bytes.len() % 0x1_0000) as u32;
    proof {
        assert(HTYP_UEH | HTYP_MSBF | HTYP_WEID | HTYP_WTMS | HTYP_VERS1 == 0x37u8)
            by (bit_vector);
        assert(MSIN_VERBOSE | MSIN_TYPE_LOG | MSIN_LEVEL_INFO == 0x41u8) by (bit_vector);
        lemma_low_bits(bytes@.len(), 29);
        lemma_low_bits(bytes@.len(), 1);
    }
    out.clear();
    out.push(HTYP_UEH | HTYP_MSBF | HTYP_WEID | HTYP_WTMS | HTYP_VERS1);
    out.push(counter);
    push_be16(out, low + (STD_HEADER_LEN + EXT_HEADER_LEN + 7) as u32);
    out.extend_from_slice(ecu);
    push_be32(out, ts_tenths_ms);
    out.push(MSIN_VERBOSE | MSIN_TYPE_LOG | MSIN_LEVEL_INFO);
    out.push(1);
    out.extend_from_slice(apid);
    out.extend_from_slice(ctid);
    push_be32(out, TYPE_INFO_STRG_UTF8);
    push_be16(out, low + 1);
    out.extend_from_slice(bytes);
    out.push(0);
    assert(out@ =~= message(counter, ts_tenths_ms, ecu@, apid@, ctid@, text@));
}

/// The 4 bytes of a DLT id: the first bytes of `s`, zeros where it is shorter.
pub open spec fn id_bytes(s: Seq<char>) -> Seq<u8> {
    Seq::new(
        4,
        |i: int|
            if i < encode_utf8(s).len() {
                encode_utf8(s)[i]
            } else {
                0u8
            },
    )
}

/// Right-pads or truncates `s` to a 4-byte DLT id (ECU, application or context).
pub fn id4(s: &str) -> (r: [u8; 4])
    ensures
        r@ == id_bytes(s@),
{
    let mut id: [u8; 4] = [0u8; 4];
    let b: &[u8] = s.as_bytes();
    let mut i: usize = 0;
    while i < 4 && i < b.len()
        invariant
            i <= 4,
            i <= b@.len(),
            b@ == encode_utf8(s@),
            forall|j: int| 0 <= j < i ==> id@[j] == b@[j],
            forall|j: int| i <= j < 4 ==> id@[j] == 0,
        decreases 4 - i,
    {
        id[i] = b[i];
        i += 1;
    }
    assert(id@ =~= id_bytes(s@));
    id
}

/// Where a message fits its length field, that field is the length of the message, the
/// argument's length field counts the text and its terminator, and a client that takes
/// that many bytes gets the text back.
pub proof fn law_message_is_readable(
    counter: u8,
    ts_tenths_ms: u32,
    ecu: Seq<u8>,
    apid: Seq<u8>,
    ctid: Seq<u8>,
    text: Seq<char>,
)
    requires
        ecu.len() == 4,
        apid.len() == 4,
        ctid.len() == 4,
        29 + encode_utf8(text).len() <= u16::MAX,
    ensures
        ({
            let m = message(counter, ts_tenths_ms, ecu, apid, ctid, text);
            let n = be16_at(m, 26);
            &&& be16_at(m, 2) == m.len()
            &&& 28 + n == m.len()
            &&& m.last() == 0
            &&& decode_utf8(m.subrange(28, 28 + n - 1)) == text
        }),
{
    let body = encode_utf8(text);
    let m = message(counter, ts_tenths_ms, ecu, apid, ctid, text);
    let total = 29 + body.len();
    assert(total / 0x100 % 0x100 == total / 0x100);
    assert((1 + body.len()) / 0x100 % 0x100 == (1 + body.len()) / 0x100);
    assert(m.subrange(2, 4) =~= be16(total));
    assert(m[2] == m.subrange(2, 4)[0] && m[3] == m.subrange(2, 4)[1]);
    assert(m.subrange(26, 28) =~= be16(1 + body.len()));
    assert(m[26] == m.subrange(26, 28)[0] && m[27] == m.subrange(26, 28)[1]);
    assert(m.subrange(28, 28 + body.len() as int) =~= body);
    encode_utf8_decode_utf8(text);
}

/// The encoder of a DLT stream: its ids, and the counter of the next message.
pub struct DltState {
    pub counter: u8,
    pub ecu: [u8; 4],
    pub apid: [u8; 4],
    pub ctid: [u8; 4],
}

/// The counter that follows `c`.
pub open spec fn next_counter(c: u8) -> u8 {
    if c == u8::MAX {
        0
    } else {
        (c + 1) as u8
    }
}

/// A kernel timestamp in units of 0.1 ms, its lowest 32 bits.
pub open spec fn tenths_ms(ts_ns: u64) -> u32 {
    (ts_ns as nat / 100_000 % 0x1_0000_0000) as u32
}

impl DltState {
    /// The message that carries `text`, logged at `ts_ns`.
    pub open spec fn message_for(self, ts_ns: u64, text: Seq<char>) -> Seq<u8> {
        message(self.counter, tenths_ms(ts_ns), self.ecu@, self.apid@, self.ctid@, text)
    }

    /// The stream at its first message.
    pub fn new() -> (r: Self)
        ensures
            r.counter == 0,
            r.ecu@ == id_bytes("BFTO"@),
            r.apid@ == id_bytes("BFTO"@),
            r.ctid@ == id_bytes("BIND"@),
    {
        DltState { counter: 0, ecu: id4("BFTO"), apid: id4("BFTO"), ctid: id4("BIND") }
    }

    /// Encodes the next message of the stream.
    pub fn next(&mut self, ts_ns: u64, text: &str) -> (r: Vec<u8>)
        ensures
            r@ == old(self).message_for(ts_ns, text@),
            *final(self) == (DltState { counter: next_counter(old(self).counter), ..*old(self) }),
    {
        let mut out: Vec<u8> = Vec::new();
        let ts: u32 = (ts_ns / 100_000 % 0x1_0000_0000) as u32;
        encode(&mut out, self.counter, ts, &self.ecu, &self.apid, &self.ctid, text);
        self.counter = if self.counter == u8::MAX {
            0
        } else {
            self.counter + 1
        };
        out
    }
}

} // verus!
