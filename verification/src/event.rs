//! The data contract between the kernel probe and the consumer: what crosses the ring
//! buffer, byte for byte.

use crate::bytes::{
    as_pattern32, as_signed32, le32, le64, lemma_le32_read, lemma_le64_read, lemma_le_bounds,
    pattern32, push_u32, push_u64, read_u32, read_u64, signed32, to_le32, to_le64,
};
use vstd::prelude::*;
use vstd::slice::slice_subrange;

verus! {

/// `TF_ONE_WAY`: set in [`TxEvent::flags`] for async (oneway) transactions.
pub const TF_ONE_WAY: u32 = 0x01;

/// Max bytes of UTF-16LE interface descriptor captured; longer names truncate.
pub const MAX_IFACE_BYTES: usize = 256;

/// Bytes of a kernel task name, with the zeros behind it.
pub const COMM_LEN: usize = 16;

/// Default cap on raw parcel bytes captured per transaction.
pub const PARCEL_CAP_DEFAULT: u32 = 256;

/// Hard ceiling on the parcel cap. The probe stages the payload in a per-CPU map, whose
/// values the kernel caps at 32 KiB; 30 KiB leaves room for the record's header.
pub const PARCEL_CEILING: usize = 30720;

/// Magic that an interface token holds at parcel offset 8, as a little-endian number.
pub const IFACE_HEADER_MAGIC: u32 = 0x5359_5354;

/// `BR_DEAD_REPLY`: the target of a transaction died before it could reply.
pub const BR_DEAD_REPLY: u32 = 0x7205;

/// `BR_FAILED_REPLY`: the transaction failed (security denial, bad handle, oversized).
pub const BR_FAILED_REPLY: u32 = 0x7211;

/// `BR_FROZEN_REPLY`: the target process was frozen, so the reply failed.
pub const BR_FROZEN_REPLY: u32 = 0x7212;

/// Whether `cmd` is a binder return that is reported as a transaction error.
pub open spec fn is_error_cmd(cmd: u32) -> bool {
    cmd == BR_DEAD_REPLY || cmd == BR_FAILED_REPLY || cmd == BR_FROZEN_REPLY
}

/// True for the binder return `cmd` values reported as transaction errors.
pub fn is_error_return(cmd: u32) -> (r: bool)
    ensures
        r == is_error_cmd(cmd),
{
    cmd == BR_DEAD_REPLY || cmd == BR_FAILED_REPLY || cmd == BR_FROZEN_REPLY
}

/// Key for the in-kernel interface filter map: a zero-padded UTF-16LE interface
/// descriptor, byte-identical to the bytes that the probe captures into
/// [`TxEvent::iface`].
#[derive(Clone, Copy)]
pub struct IfaceKey(pub [u8; MAX_IFACE_BYTES]);

/// One captured Binder transaction.
#[derive(Clone, Copy)]
pub struct TxEvent {
    /// Kernel monotonic timestamp (ns) when the transaction was observed.
    pub ts_ns: u64,
    /// Sender process id (tgid).
    pub src_pid: u32,
    /// Sender thread id.
    pub src_tid: u32,
    /// Target process id.
    pub dst_pid: u32,
    /// Raw transaction code (method selector; decoded offline via the catalog).
    pub code: u32,
    /// Transaction flags; test against [`TF_ONE_WAY`] for async.
    pub flags: u32,
    /// Non-zero if this is a reply (replies carry no interface descriptor).
    pub reply: u32,
    /// Parcel payload size in bytes.
    pub data_size: u32,
    /// 0 for a normal transaction; otherwise the binder return `cmd` of a captured
    /// error. For an error event the target, code and interface describe the failing
    /// transaction.
    pub err_code: u32,
    /// The kernel's id of the transaction, which it also records in its
    /// `failed_transaction_log`.
    pub debug_id: i32,
    /// Valid bytes in `iface` (UTF-16LE); 0 when the transaction carries no interface
    /// descriptor (replies, special transactions, unreadable buffer).
    pub iface_byte_len: u32,
    /// Interface descriptor as raw UTF-16LE bytes.
    pub iface: [u8; MAX_IFACE_BYTES],
    /// The sender's task name as the kernel has it, zero-padded; all zeros when none
    /// was captured.
    pub src_comm: [u8; COMM_LEN],
}

impl TxEvent {
    /// Whether this is an async (oneway) transaction: the lowest flag bit.
    pub open spec fn oneway(self) -> bool {
        self.flags % 2 == 1
    }

    /// Whether this is a captured transaction error rather than a transaction.
    pub open spec fn failed(self) -> bool {
        self.err_code != 0
    }

    /// True if this is an async (oneway) transaction.
    pub fn is_oneway(&self) -> (r: bool)
        ensures
            r == self.oneway(),
    {
        let flags: u32 = self.flags;
        assert((flags & 0x01 != 0) == (flags % 2 == 1)) by (bit_vector);
        self.flags & TF_ONE_WAY != 0
    }

    /// True if this event is a captured transaction error rather than a transaction.
    pub fn is_error(&self) -> (r: bool)
        ensures
            r == self.failed(),
    {
        self.err_code != 0
    }
}

/// A [`TxEvent`] and a captured slice of the raw parcel. It crosses the ring as the
/// event, `parcel_len` and exactly `parcel_len` payload bytes.
#[derive(Clone, Copy)]
pub struct TxRecord {
    /// The transaction header, as it would stand alone.
    pub ev: TxEvent,
    /// Valid bytes in `parcel`; at most [`PARCEL_CEILING`]. Captured from parcel offset 0.
    pub parcel_len: u32,
    /// Raw parcel bytes, decoded offline against the catalog's argument types.
    pub parcel: [u8; PARCEL_CEILING],
}

/// Bytes of an event on the ring.
pub const EVENT_LEN: usize = 320;

/// Offset of the payload in a record on the ring.
pub const PAYLOAD_OFFSET: usize = 324;

/// An event as it stands on the ring: its fields in order, little-endian, without gaps.
pub open spec fn event_bytes(ev: TxEvent) -> Seq<u8> {
    to_le64(ev.ts_ns as nat) + to_le32(ev.src_pid as nat) + to_le32(ev.src_tid as nat) + to_le32(
        ev.dst_pid as nat,
    ) + to_le32(ev.code as nat) + to_le32(ev.flags as nat) + to_le32(ev.reply as nat) + to_le32(
        ev.data_size as nat,
    ) + to_le32(ev.err_code as nat) + to_le32(pattern32(ev.debug_id as int)) + to_le32(
        ev.iface_byte_len as nat,
    ) + ev.iface@ + ev.src_comm@
}

/// A record as it stands on the ring: the event, the length of the payload, the payload.
pub open spec fn record_bytes(ev: TxEvent, payload: Seq<u8>) -> Seq<u8> {
    event_bytes(ev) + to_le32(payload.len()) + payload
}

/// The payload in a ring item that is longer than an event: as many bytes as its length
/// field says and the item holds.
pub open spec fn payload_of(item: Seq<u8>) -> Seq<u8> {
    if item.len() < PAYLOAD_OFFSET {
        seq![]
    } else {
        let held = item.len() - PAYLOAD_OFFSET;
        let said = le32(item, EVENT_LEN as int) as int;
        item.subrange(
            PAYLOAD_OFFSET as int,
            PAYLOAD_OFFSET + if said <= held {
                said
            } else {
                held
            },
        )
    }
}

proof fn lemma_word(b: Seq<u8>, i: int)
    requires
        0 <= i,
        i + 4 <= b.len(),
    ensures
        to_le32(le32(b, i)) == b.subrange(i, i + 4),
{
    let n = le32(b, i);
    assert(n % 0x1_0000 == b[i] + 0x100 * b[i + 1]);
    assert(n / 0x1_0000 == b[i + 2] + 0x100 * b[i + 3]);
    assert(to_le32(n) =~= b.subrange(i, i + 4));
}

proof fn lemma_halves(low: int, high: int)
    requires
        0 <= low < 0x1_0000_0000,
    ensures
        (low + 0x1_0000_0000 * high) % 0x1_0000_0000 == low,
        (low + 0x1_0000_0000 * high) / 0x1_0000_0000 == high,
{
}

/// Bytes that continue a prefix of `b` make a longer prefix of it.
proof fn lemma_extend(b: Seq<u8>, at: int, end: int, prefix: Seq<u8>, part: Seq<u8>)
    requires
        0 <= at <= end <= b.len(),
        prefix == b.take(at),
        part == b.subrange(at, end),
    ensures
        prefix + part == b.take(end),
{
    assert(prefix + part =~= b.take(end));
}

proof fn lemma_long(b: Seq<u8>, i: int)
    requires
        0 <= i,
        i + 8 <= b.len(),
    ensures
        to_le64(le64(b, i)) == b.subrange(i, i + 8),
{
    let low = le32(b, i);
    let high = le32(b, i + 4);
    lemma_word(b, i);
    lemma_word(b, i + 4);
    lemma_le_bounds(b, i);
    lemma_halves(low as int, high as int);
    assert(le64(b, i) == low + 0x1_0000_0000 * high);
    assert(to_le64(le64(b, i)) == to_le32(low) + to_le32(high));
    assert(b.subrange(i, i + 4) + b.subrange(i + 4, i + 8) =~= b.subrange(i, i + 8));
}

/// Fields that each stand in their place in `b` are the event that `b` starts with.
proof fn lemma_fields(b: Seq<u8>, ev: TxEvent)
    requires
        b.len() >= EVENT_LEN,
        to_le64(ev.ts_ns as nat) == b.subrange(0, 8),
        to_le32(ev.src_pid as nat) == b.subrange(8, 12),
        to_le32(ev.src_tid as nat) == b.subrange(12, 16),
        to_le32(ev.dst_pid as nat) == b.subrange(16, 20),
        to_le32(ev.code as nat) == b.subrange(20, 24),
        to_le32(ev.flags as nat) == b.subrange(24, 28),
        to_le32(ev.reply as nat) == b.subrange(28, 32),
        to_le32(ev.data_size as nat) == b.subrange(32, 36),
        to_le32(ev.err_code as nat) == b.subrange(36, 40),
        to_le32(pattern32(ev.debug_id as int)) == b.subrange(40, 44),
        to_le32(ev.iface_byte_len as nat) == b.subrange(44, 48),
        ev.iface@ == b.subrange(48, 304),
        ev.src_comm@ == b.subrange(304, 320),
    ensures
        event_bytes(ev) == b.take(EVENT_LEN as int),
{
    let p0 = to_le64(ev.ts_ns as nat);
    assert(p0 == b.take(8));
    let p1 = p0 + to_le32(ev.src_pid as nat);
    lemma_extend(b, 8, 12, p0, to_le32(ev.src_pid as nat));
    let p2 = p1 + to_le32(ev.src_tid as nat);
    lemma_extend(b, 12, 16, p1, to_le32(ev.src_tid as nat));
    let p3 = p2 + to_le32(ev.dst_pid as nat);
    lemma_extend(b, 16, 20, p2, to_le32(ev.dst_pid as nat));
    let p4 = p3 + to_le32(ev.code as nat);
    lemma_extend(b, 20, 24, p3, to_le32(ev.code as nat));
    let p5 = p4 + to_le32(ev.flags as nat);
    lemma_extend(b, 24, 28, p4, to_le32(ev.flags as nat));
    let p6 = p5 + to_le32(ev.reply as nat);
    lemma_extend(b, 28, 32, p5, to_le32(ev.reply as nat));
    let p7 = p6 + to_le32(ev.data_size as nat);
    lemma_extend(b, 32, 36, p6, to_le32(ev.data_size as nat));
    let p8 = p7 + to_le32(ev.err_code as nat);
    lemma_extend(b, 36, 40, p7, to_le32(ev.err_code as nat));
    let p9 = p8 + to_le32(pattern32(ev.debug_id as int));
    lemma_extend(b, 40, 44, p8, to_le32(pattern32(ev.debug_id as int)));
    let p10 = p9 + to_le32(ev.iface_byte_len as nat);
    lemma_extend(b, 44, 48, p9, to_le32(ev.iface_byte_len as nat));
    let p11 = p10 + ev.iface@;
    lemma_extend(b, 48, 304, p10, ev.iface@);
    lemma_extend(b, 304, 320, p11, ev.src_comm@);
}

/// A prefix of `s` in two parts: each part stands in its place.
proof fn lemma_peel(s: Seq<u8>, at: int, end: int, prefix: Seq<u8>, part: Seq<u8>)
    requires
        prefix.len() == at,
        at + part.len() == end,
        end <= s.len(),
        prefix + part == s.take(end),
    ensures
        prefix == s.take(at),
        part == s.subrange(at, end),
{
    assert(prefix =~= (prefix + part).take(at));
    assert(s.take(end).take(at) =~= s.take(at));
    assert(part =~= (prefix + part).subrange(at, end));
    assert(s.take(end).subrange(at, end) =~= s.subrange(at, end));
}

/// Every field of an event stands in its place.
pub proof fn lemma_places(ev: TxEvent)
    ensures
        event_bytes(ev).len() == EVENT_LEN,
        to_le64(ev.ts_ns as nat) == event_bytes(ev).subrange(0, 8),
        to_le32(ev.src_pid as nat) == event_bytes(ev).subrange(8, 12),
        to_le32(ev.src_tid as nat) == event_bytes(ev).subrange(12, 16),
        to_le32(ev.dst_pid as nat) == event_bytes(ev).subrange(16, 20),
        to_le32(ev.code as nat) == event_bytes(ev).subrange(20, 24),
        to_le32(ev.flags as nat) == event_bytes(ev).subrange(24, 28),
        to_le32(ev.reply as nat) == event_bytes(ev).subrange(28, 32),
        to_le32(ev.data_size as nat) == event_bytes(ev).subrange(32, 36),
        to_le32(ev.err_code as nat) == event_bytes(ev).subrange(36, 40),
        to_le32(pattern32(ev.debug_id as int)) == event_bytes(ev).subrange(40, 44),
        to_le32(ev.iface_byte_len as nat) == event_bytes(ev).subrange(44, 48),
        ev.iface@ == event_bytes(ev).subrange(48, 304),
        ev.src_comm@ == event_bytes(ev).subrange(304, 320),
{
    let s = event_bytes(ev);
    let p0 = to_le64(ev.ts_ns as nat);
    let p1 = p0 + to_le32(ev.src_pid as nat);
    let p2 = p1 + to_le32(ev.src_tid as nat);
    let p3 = p2 + to_le32(ev.dst_pid as nat);
    let p4 = p3 + to_le32(ev.code as nat);
    let p5 = p4 + to_le32(ev.flags as nat);
    let p6 = p5 + to_le32(ev.reply as nat);
    let p7 = p6 + to_le32(ev.data_size as nat);
    let p8 = p7 + to_le32(ev.err_code as nat);
    let p9 = p8 + to_le32(pattern32(ev.debug_id as int));
    let p10 = p9 + to_le32(ev.iface_byte_len as nat);
    let p11 = p10 + ev.iface@;
    let p12 = p11 + ev.src_comm@;
    assert(s == s.take(320));
    lemma_peel(s, 304, 320, p11, ev.src_comm@);
    lemma_peel(s, 48, 304, p10, ev.iface@);
    lemma_peel(s, 44, 48, p9, to_le32(ev.iface_byte_len as nat));
    lemma_peel(s, 40, 44, p8, to_le32(pattern32(ev.debug_id as int)));
    lemma_peel(s, 36, 40, p7, to_le32(ev.err_code as nat));
    lemma_peel(s, 32, 36, p6, to_le32(ev.data_size as nat));
    lemma_peel(s, 28, 32, p5, to_le32(ev.reply as nat));
    lemma_peel(s, 24, 28, p4, to_le32(ev.flags as nat));
    lemma_peel(s, 20, 24, p3, to_le32(ev.code as nat));
    lemma_peel(s, 16, 20, p2, to_le32(ev.dst_pid as nat));
    lemma_peel(s, 12, 16, p1, to_le32(ev.src_tid as nat));
    lemma_peel(s, 8, 12, p0, to_le32(ev.src_pid as nat));
    assert(s.take(8) =~= s.subrange(0, 8));
}

/// The bit pattern of what a bit pattern stands for is that bit pattern.
proof fn lemma_pattern(n: nat)
    requires
        n < 0x1_0000_0000,
    ensures
        pattern32(signed32(n)) == n,
{
}

/// Copies bytes from `at` on into an interface buffer.
fn copy_iface(b: &[u8], at: usize) -> (r: [u8; MAX_IFACE_BYTES])
    requires
        at + MAX_IFACE_BYTES <= b@.len(),
    ensures
        r@ == b@.subrange(at as int, at + MAX_IFACE_BYTES),
{
    let mut out: [u8; 256] = [0u8; 256];
    let mut i: usize = 0;
    assert(at + MAX_IFACE_BYTES <= b.len());
    while i < 256
        invariant
            i <= 256,
            at + 256 <= b@.len(),
            at + 256 <= b.len(),
            forall|j: int| 0 <= j < i ==> out@[j] == b@[at + j],
        decreases 256 - i,
    {
        out[i] = b[at + i];
        i += 1;
    }
    assert(out@ =~= b@.subrange(at as int, at + 256));
    out
}

/// Copies bytes from `at` on into a task name buffer.
fn copy_comm(b: &[u8], at: usize) -> (r: [u8; COMM_LEN])
    requires
        at + COMM_LEN <= b@.len(),
    ensures
        r@ == b@.subrange(at as int, at + COMM_LEN),
{
    let mut out: [u8; 16] = [0u8; 16];
    let mut i: usize = 0;
    assert(at + COMM_LEN <= b.len());
    while i < 16
        invariant
            i <= 16,
            at + 16 <= b@.len(),
            at + 16 <= b.len(),
            forall|j: int| 0 <= j < i ==> out@[j] == b@[at + j],
        decreases 16 - i,
    {
        out[i] = b[at + i];
        i += 1;
    }
    assert(out@ =~= b@.subrange(at as int, at + 16));
    out
}

/// Reads the event at the start of a ring item.
pub fn read_event(b: &[u8]) -> (r: TxEvent)
    requires
        b@.len() >= EVENT_LEN,
    ensures
        event_bytes(r) == b@.take(EVENT_LEN as int),
{
    let ev = TxEvent {
        ts_ns: read_u64(b, 0),
        src_pid: read_u32(b, 8),
        src_tid: read_u32(b, 12),
        dst_pid: read_u32(b, 16),
        code: read_u32(b, 20),
        flags: read_u32(b, 24),
        reply: read_u32(b, 28),
        data_size: read_u32(b, 32),
        err_code: read_u32(b, 36),
        debug_id: as_signed32(read_u32(b, 40)),
        iface_byte_len: read_u32(b, 44),
        iface: copy_iface(b, 48),
        src_comm: copy_comm(b, 304),
    };
    proof {
        lemma_long(b@, 0);
        lemma_word(b@, 8);
        lemma_word(b@, 12);
        lemma_word(b@, 16);
        lemma_word(b@, 20);
        lemma_word(b@, 24);
        lemma_word(b@, 28);
        lemma_word(b@, 32);
        lemma_word(b@, 36);
        lemma_word(b@, 40);
        lemma_word(b@, 44);
        lemma_le_bounds(b@, 40);
        lemma_pattern(le32(b@, 40));
        lemma_fields(b@, ev);
    }
    ev
}

/// Reads a ring item: a bare event, or an event with a captured payload, told apart by
/// the item's length. Gives nothing for an item shorter than an event.
pub fn read_item(item: &[u8]) -> (r: Option<(TxEvent, Option<&[u8]>)>)
    ensures
        match r {
            Some((ev, payload)) => {
                &&& item@.len() >= EVENT_LEN
                &&& event_bytes(ev) == item@.take(EVENT_LEN as int)
                &&& match payload {
                    Some(p) => item@.len() > EVENT_LEN && p@ == payload_of(item@),
                    None => item@.len() == EVENT_LEN,
                }
            },
            None => item@.len() < EVENT_LEN,
        },
{
    let len: usize = item.len();
    if len < EVENT_LEN {
        return None;
    }
    let ev: TxEvent = read_event(item);
    if len == EVENT_LEN {
        return Some((ev, None));
    }
    if len < PAYLOAD_OFFSET {
        let none: &[u8] = slice_subrange(item, len, len);
        assert(none@ =~= payload_of(item@));
        return Some((ev, Some(none)));
    }
    let said: u32 = read_u32(item, EVENT_LEN);
    let held: usize = len - PAYLOAD_OFFSET;
    let n: usize = if said as u64 <= held as u64 {
        said as usize
    } else {
        held
    };
    Some((ev, Some(slice_subrange(item, PAYLOAD_OFFSET, PAYLOAD_OFFSET + n))))
}

/// An event as it stands on the ring.
pub fn write_event(ev: &TxEvent) -> (r: Vec<u8>)
    ensures
        r@ == event_bytes(*ev),
{
    let mut out: Vec<u8> = Vec::new();
    push_u64(&mut out, ev.ts_ns);
    push_u32(&mut out, ev.src_pid);
    push_u32(&mut out, ev.src_tid);
    push_u32(&mut out, ev.dst_pid);
    push_u32(&mut out, ev.code);
    push_u32(&mut out, ev.flags);
    push_u32(&mut out, ev.reply);
    push_u32(&mut out, ev.data_size);
    push_u32(&mut out, ev.err_code);
    push_u32(&mut out, as_pattern32(ev.debug_id));
    push_u32(&mut out, ev.iface_byte_len);
    out.extend_from_slice(&ev.iface);
    out.extend_from_slice(&ev.src_comm);
    assert(out@ =~= event_bytes(*ev));
    out
}

/// A record as it stands on the ring.
pub fn write_record(ev: &TxEvent, payload: &[u8]) -> (r: Vec<u8>)
    requires
        payload@.len() <= PARCEL_CEILING,
    ensures
        r@ == record_bytes(*ev, payload@),
{
    let mut out: Vec<u8> = write_event(ev);
    push_u32(&mut out, payload.len() as u32);
    out.extend_from_slice(payload);
    assert(out@ =~= record_bytes(*ev, payload@));
    out
}

/// An event takes [`EVENT_LEN`] bytes.
pub proof fn lemma_event_len(ev: TxEvent)
    ensures
        event_bytes(ev).len() == EVENT_LEN,
{
}

/// The bytes of an event determine every field of it.
pub proof fn law_event_bytes_determine_event(a: TxEvent, b: TxEvent)
    requires
        event_bytes(a) == event_bytes(b),
    ensures
        a == b,
{
    let s = event_bytes(a);
    lemma_places(a);
    lemma_places(b);
    lemma_le64_read(s, 0, a.ts_ns as nat);
    lemma_le64_read(s, 0, b.ts_ns as nat);
    lemma_same_word(s, 8, a.src_pid as nat, b.src_pid as nat);
    lemma_same_word(s, 12, a.src_tid as nat, b.src_tid as nat);
    lemma_same_word(s, 16, a.dst_pid as nat, b.dst_pid as nat);
    lemma_same_word(s, 20, a.code as nat, b.code as nat);
    lemma_same_word(s, 24, a.flags as nat, b.flags as nat);
    lemma_same_word(s, 28, a.reply as nat, b.reply as nat);
    lemma_same_word(s, 32, a.data_size as nat, b.data_size as nat);
    lemma_same_word(s, 36, a.err_code as nat, b.err_code as nat);
    lemma_same_word(s, 40, pattern32(a.debug_id as int), pattern32(b.debug_id as int));
    lemma_same_word(s, 44, a.iface_byte_len as nat, b.iface_byte_len as nat);
    crate::bytes::lemma_signed_patterns();
    assert(signed32(pattern32(a.debug_id as int)) == a.debug_id);
    assert(signed32(pattern32(b.debug_id as int)) == b.debug_id);
    assert(a.iface =~= b.iface);
    assert(a.src_comm =~= b.src_comm);
}

proof fn lemma_same_word(s: Seq<u8>, i: int, a: nat, b: nat)
    requires
        0 <= i,
        i + 4 <= s.len(),
        a < 0x1_0000_0000,
        b < 0x1_0000_0000,
        to_le32(a) == s.subrange(i, i + 4),
        to_le32(b) == s.subrange(i, i + 4),
    ensures
        a == b,
{
    lemma_le32_read(s, i, a);
    lemma_le32_read(s, i, b);
}

/// What the probe writes the consumer reads: an event alone, and an event with its
/// payload, each come back as they were.
pub proof fn law_ring_round_trip(ev: TxEvent, payload: Seq<u8>)
    requires
        payload.len() <= PARCEL_CEILING,
    ensures
        event_bytes(ev).len() == EVENT_LEN,
        record_bytes(ev, payload).len() > EVENT_LEN,
        record_bytes(ev, payload).take(EVENT_LEN as int) == event_bytes(ev),
        payload_of(record_bytes(ev, payload)) == payload,
{
    let item = record_bytes(ev, payload);
    lemma_event_len(ev);
    assert(item.take(320) =~= event_bytes(ev));
    assert(item.subrange(320, 324) =~= to_le32(payload.len()));
    lemma_le32_read(item, 320, payload.len());
    assert(payload_of(item) =~= payload);
}

} // verus!
