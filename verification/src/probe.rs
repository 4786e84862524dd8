//! What the kernel probe decides at each of its attach points.
//!
//! Three attach points, correlated per thread:
//!
//! * entry of `binder_transaction()`: reads the parcel's size and the interface
//!   descriptor, applies the interface filter, and stashes what it kept for the thread
//!   (a filtered-out transaction stashes nothing: absence is the drop signal);
//! * tracepoint `binder:binder_transaction`: runs later inside the same call, takes the
//!   stash, and emits the event, with a payload where parcel capture is on;
//! * tracepoint `binder:binder_return`: the error path; reports a failed reply as an
//!   error of the thread's last captured transaction.
//!
//! The reads of kernel and user memory stand between these functions: each says what is
//! to be read next, and the next one takes what was read.

use crate::bytes::{le64, lemma_le32_read, lemma_le_bounds, to_le32};
use crate::event::{
    is_error_cmd, is_error_return, record_bytes, write_record, COMM_LEN, IFACE_HEADER_MAGIC,
    MAX_IFACE_BYTES, PARCEL_CEILING, TxEvent,
};
use crate::iface::{iface_text, key_bytes, law_iface_key_round_trip, padded};
use crate::marshal::interface_token;
use crate::parcel::{string16_size, HEADER_MAGIC};
use crate::utf16::{bytes_le, encode16, encode_char};
use vstd::prelude::*;

verus! {

/// Offset of the transaction's id in the `binder_transaction` tracepoint.
pub const OFF_DEBUG_ID: usize = 8;

/// Offset of the target process in the `binder_transaction` tracepoint.
pub const OFF_TO_PROC: usize = 16;

/// Offset of the reply mark in the `binder_transaction` tracepoint.
pub const OFF_REPLY: usize = 24;

/// Offset of the code in the `binder_transaction` tracepoint.
pub const OFF_CODE: usize = 28;

/// Offset of the flags in the `binder_transaction` tracepoint.
pub const OFF_FLAGS: usize = 32;

/// Offset of the command in the `binder_return` tracepoint.
pub const OFF_RETURN_CMD: usize = 8;

/// Offset of `data_size` in `binder_transaction_data`; the buffer pointer is two words on.
pub const TR_DATA_SIZE: usize = 32;

/// Offset of the magic in a parcel that starts with an interface token; the descriptor's
/// length follows it.
pub const P_MAGIC: u64 = 8;

/// Offset of the descriptor in a parcel that starts with an interface token.
pub const P_STR: u32 = 16;

/// What a thread hands from the entry of a transaction to its tracepoint. Its presence is
/// the keep signal.
#[derive(Clone, Copy)]
pub struct Stash {
    /// Sender-side (untagged) pointer to the parcel buffer.
    pub buf_ptr: u64,
    /// Parcel size in bytes.
    pub data_size: u32,
    /// Valid bytes in `iface`.
    pub iface_byte_len: u32,
    /// Interface descriptor as raw UTF-16LE bytes.
    pub iface: [u8; MAX_IFACE_BYTES],
}

/// What the consumer has switched in the probe.
#[derive(Clone, Copy)]
pub struct ProbeFlags {
    pub include_replies: bool,
    pub filter_on: bool,
    pub errors_on: bool,
    pub parcel_on: bool,
    /// Cap (bytes) on captured payload; 0 captures nothing.
    pub parcel_max: u32,
}

/// Whether a transaction is looked at: replies are only where they are asked for.
pub open spec fn is_of_interest(reply: u32, include_replies: bool) -> bool {
    reply == 0 || include_replies
}

/// Tells whether a transaction is looked at: replies are about half of all traffic, and
/// are dropped unless they are asked for.
pub fn wants_transaction(reply: u32, include_replies: bool) -> (r: bool)
    ensures
        r == is_of_interest(reply, include_replies),
{
    reply == 0 || include_replies
}

/// A user pointer without the tag that it may carry in its top byte.
pub open spec fn untagged(ptr: u64) -> u64 {
    ptr % 0x100_0000_0000_0000
}

/// Strips the tag that a user pointer may carry in its top byte.
pub fn untag(ptr: u64) -> (r: u64)
    ensures
        r == untagged(ptr),
{
    assert(ptr & 0x00ff_ffff_ffff_ffff == ptr % 0x100_0000_0000_0000) by (bit_vector);
    ptr & 0x00ff_ffff_ffff_ffff
}

/// The low half of a word.
pub open spec fn low32(word: u64) -> u32 {
    (word % 0x1_0000_0000) as u32
}

/// The high half of a word.
pub open spec fn high32(word: u64) -> u32 {
    (word / 0x1_0000_0000) as u32
}

/// The parcel's size and its buffer, by the three words of `binder_transaction_data` from
/// [`TR_DATA_SIZE`] on.
pub fn transaction_buffer(words: &[u64; 3]) -> (r: (u32, u64))
    ensures
        r.0 == low32(words@[0]),
        r.1 == untagged(words@[2]),
{
    ((words[0] % 0x1_0000_0000) as u32, untag(words[2]))
}

/// Where the word with the magic and the descriptor's length is to be read: a parcel
/// smaller than the token's header cannot carry one, and a reply never does.
pub fn head_address(reply: u32, data_size: u32, buf_ptr: u64) -> (r: Option<u64>)
    requires
        buf_ptr < 0x100_0000_0000_0000,
    ensures
        r == (if reply == 0 && data_size >= P_STR {
            Some((buf_ptr + P_MAGIC) as u64)
        } else {
            None
        }),
{
    if reply == 0 && data_size >= P_STR {
        Some(buf_ptr + P_MAGIC)
    } else {
        None
    }
}

/// How many bytes of the descriptor are captured, by the word that starts with the
/// magic: the descriptor's own bytes, as far as the parcel and the buffer go.
pub open spec fn descriptor_bytes(head: u64, data_size: u32) -> int {
    let want = 2 * high32(head) as int;
    let avail = data_size - P_STR;
    let n = if want <= avail {
        want
    } else {
        avail
    };
    if low32(head) != IFACE_HEADER_MAGIC || n <= 0 {
        0
    } else if n <= MAX_IFACE_BYTES {
        n
    } else {
        MAX_IFACE_BYTES as int
    }
}

/// How many bytes of the descriptor are to be read from offset [`P_STR`] of the parcel.
/// Only the descriptor's own bytes are: a longer read could cross into an unmapped page
/// behind a short parcel and fail.
pub fn descriptor_len(head: u64, data_size: u32) -> (r: usize)
    ensures
        r == descriptor_bytes(head, data_size),
        r <= MAX_IFACE_BYTES,
{
    if (head % 0x1_0000_0000) as u32 != IFACE_HEADER_MAGIC || data_size < P_STR {
        return 0;
    }
    let units: u32 = (head / 0x1_0000_0000) as u32;
    let want: u64 = 2 * (units as u64);
    let avail: u64 = (data_size - P_STR) as u64;
    let n: u64 = if want <= avail {
        want
    } else {
        avail
    };
    if n <= MAX_IFACE_BYTES as u64 {
        n as usize
    } else {
        MAX_IFACE_BYTES
    }
}

/// What is stashed of a transaction whose descriptor bytes were read.
pub fn make_stash(buf_ptr: u64, data_size: u32, descriptor: &[u8]) -> (r: Stash)
    requires
        descriptor@.len() <= MAX_IFACE_BYTES,
    ensures
        is_stash_of(r, buf_ptr, data_size, descriptor@),
{
    let mut iface: [u8; 256] = [0u8; 256];
    let mut i: usize = 0;
    while i < descriptor.len()
        invariant
            i <= descriptor@.len() <= 256,
            forall|j: int| 0 <= j < i ==> iface@[j] == descriptor@[j],
            forall|j: int| i <= j < 256 ==> iface@[j] == 0,
        decreases descriptor@.len() - i,
    {
        iface[i] = descriptor[i];
        i += 1;
    }
    assert(iface@ =~= padded(descriptor@));
    Stash { buf_ptr, data_size, iface_byte_len: descriptor.len() as u32, iface }
}

/// What is stashed of a transaction without a descriptor.
fn bare_stash(buf_ptr: u64, data_size: u32) -> (r: Stash)
    ensures
        is_stash_of(r, buf_ptr, data_size, seq![]),
{
    let none: [u8; 0] = [];
    assert(none@ =~= Seq::<u8>::empty());
    make_stash(buf_ptr, data_size, none.as_slice())
}

/// What is to be done next at the entry of a transaction.
pub enum EntryStep {
    /// Nothing more: the transaction is not looked at.
    Done,
    /// Read the three words of `binder_transaction_data` from [`TR_DATA_SIZE`] on.
    ReadWords,
    /// Read the word at `at`, of a parcel of `data_size` bytes at `buf_ptr`.
    ReadHead { at: u64, data_size: u32, buf_ptr: u64 },
    /// Read `len` bytes at `at`, of a parcel of `data_size` bytes at `buf_ptr`.
    ReadDescriptor { at: u64, len: usize, data_size: u32, buf_ptr: u64 },
    /// Look the captured descriptor up in the filter.
    LookUp(Stash),
    /// Stash this for the thread.
    Keep(Stash),
    /// Remove what the thread has stashed.
    Drop,
}

/// Whether `s` is what is stashed of a parcel whose descriptor bytes were captured.
pub open spec fn is_stash_of(
    s: Stash,
    buf_ptr: u64,
    data_size: u32,
    descriptor: Seq<u8>,
) -> bool {
    &&& s.buf_ptr == buf_ptr
    &&& s.data_size == data_size
    &&& s.iface_byte_len == descriptor.len()
    &&& s.iface@ == padded(descriptor)
}

/// Starts the entry of a transaction.
pub fn entry_start(reply: u32, include_replies: bool) -> (r: EntryStep)
    ensures
        r == (if is_of_interest(reply, include_replies) {
            EntryStep::ReadWords
        } else {
            EntryStep::Done
        }),
{
    if wants_transaction(reply, include_replies) {
        EntryStep::ReadWords
    } else {
        EntryStep::Done
    }
}

/// Goes on with the words that were read: a parcel that may start with an interface token
/// has its head read next, any other is stashed without a descriptor.
pub fn entry_words(reply: u32, words: &[u64; 3]) -> (r: EntryStep)
    ensures
        ({
            let size = low32(words@[0]);
            let ptr = untagged(words@[2]);
            match r {
                EntryStep::ReadHead { at, data_size, buf_ptr } => {
                    &&& reply == 0 && size >= P_STR
                    &&& at == ptr + P_MAGIC
                    &&& data_size == size && buf_ptr == ptr
                },
                EntryStep::LookUp(s) => {
                    &&& reply != 0 || size < P_STR
                    &&& is_stash_of(s, ptr, size, seq![])
                },
                _ => false,
            }
        }),
{
    let (data_size, buf_ptr): (u32, u64) = transaction_buffer(words);
    match head_address(reply, data_size, buf_ptr) {
        Some(at) => EntryStep::ReadHead { at, data_size, buf_ptr },
        None => EntryStep::LookUp(bare_stash(buf_ptr, data_size)),
    }
}

/// Goes on with the parcel's head, where it could be read: a descriptor is read next,
/// where there is one.
pub fn entry_head(head: Option<u64>, data_size: u32, buf_ptr: u64) -> (r: EntryStep)
    requires
        buf_ptr < 0x100_0000_0000_0000,
    ensures
        ({
            let n = match head {
                Some(h) => descriptor_bytes(h, data_size),
                None => 0,
            };
            match r {
                EntryStep::ReadDescriptor { at, len, data_size: size, buf_ptr: ptr } => {
                    &&& len == n && n > 0
                    &&& at == buf_ptr + P_STR
                    &&& size == data_size && ptr == buf_ptr
                },
                EntryStep::LookUp(s) => n == 0 && is_stash_of(s, buf_ptr, data_size, seq![]),
                _ => false,
            }
        }),
{
    let len: usize = match head {
        Some(h) => descriptor_len(h, data_size),
        None => 0,
    };
    if len > 0 {
        EntryStep::ReadDescriptor { at: buf_ptr + P_STR as u64, len, data_size, buf_ptr }
    } else {
        EntryStep::LookUp(bare_stash(buf_ptr, data_size))
    }
}

/// Goes on with the descriptor's bytes, where they could be read.
pub fn entry_descriptor(descriptor: Option<&[u8]>, data_size: u32, buf_ptr: u64) -> (r: EntryStep)
    requires
        descriptor matches Some(d) ==> d@.len() <= MAX_IFACE_BYTES,
    ensures
        r matches EntryStep::LookUp(s) && is_stash_of(
            s,
            buf_ptr,
            data_size,
            match descriptor {
                Some(d) => d@,
                None => seq![],
            },
        ),
{
    match descriptor {
        Some(d) => EntryStep::LookUp(make_stash(buf_ptr, data_size, d)),
        None => EntryStep::LookUp(bare_stash(buf_ptr, data_size)),
    }
}

/// Ends the entry of a transaction, where `wanted` says whether its captured descriptor is
/// a key of the filter. A dropped transaction stashes nothing, and what an earlier call
/// left behind is removed.
pub fn entry_end(stash: Stash, filter_on: bool, wanted: bool) -> (r: EntryStep)
    ensures
        r == (if filter_on && !wanted {
            EntryStep::Drop
        } else {
            EntryStep::Keep(stash)
        }),
{
    if filter_on && !wanted {
        EntryStep::Drop
    } else {
        EntryStep::Keep(stash)
    }
}

/// What the `binder_transaction` tracepoint shows.
#[derive(Clone, Copy)]
pub struct Transaction {
    pub debug_id: i32,
    pub to_proc: u32,
    pub reply: u32,
    pub code: u32,
    pub flags: u32,
}

/// A payload to be captured.
#[derive(Clone, Copy, PartialEq, Eq, Structural, Debug)]
pub struct Capture {
    /// Where it is to be read, from parcel offset 0.
    pub ptr: u64,
    /// How many bytes; where they cannot be read, none is captured.
    pub len: usize,
}

/// What is to be done at the transaction's tracepoint.
pub struct TxStep {
    /// Whether the thread's stash is to be removed.
    pub clear_stash: bool,
    /// The event to emit.
    pub event: Option<TxEvent>,
    /// Whether the event is to be remembered as the thread's last transaction.
    pub remember: bool,
    /// The payload to emit with the event.
    pub capture: Option<Capture>,
}

/// The smaller of two numbers.
pub open spec fn least(a: int, b: int) -> int {
    if a <= b {
        a
    } else {
        b
    }
}

/// Whether an event is emitted: the transaction is looked at, and it was stashed or
/// nothing is filtered.
pub open spec fn emits(tx: Transaction, flags: ProbeFlags, stash: Option<Stash>) -> bool {
    is_of_interest(tx.reply, flags.include_replies) && (stash is Some || !flags.filter_on)
}

/// The payload to capture: of real transactions with a known buffer, while capture is on.
pub open spec fn capture_of(tx: Transaction, flags: ProbeFlags, stash: Option<Stash>) -> Option<
    Capture,
> {
    match stash {
        Some(s) if tx.reply == 0 && s.buf_ptr != 0 && flags.parcel_on && flags.parcel_max
            > 0 => Some(
            Capture {
                ptr: s.buf_ptr,
                len: least(
                    least(s.data_size as int, flags.parcel_max as int),
                    PARCEL_CEILING as int,
                ) as usize,
            },
        ),
        _ => None,
    }
}

/// Whether `ev` is the event of a transaction by thread `pid_tgid` at `ts_ns`.
pub open spec fn is_event_of(
    ev: TxEvent,
    tx: Transaction,
    stash: Option<Stash>,
    pid_tgid: u64,
    ts_ns: u64,
    comm: Seq<u8>,
) -> bool {
    &&& ev.ts_ns == ts_ns
    &&& ev.src_pid == high32(pid_tgid)
    &&& ev.src_tid == low32(pid_tgid)
    &&& ev.dst_pid == tx.to_proc
    &&& ev.code == tx.code
    &&& ev.flags == tx.flags
    &&& ev.reply == tx.reply
    &&& ev.err_code == 0
    &&& ev.debug_id == tx.debug_id
    &&& ev.src_comm@ == comm
    &&& match stash {
        Some(s) => ev.data_size == s.data_size && ev.iface_byte_len == s.iface_byte_len
            && ev.iface@ == s.iface@,
        None => ev.data_size == 0 && ev.iface_byte_len == 0 && ev.iface@ == padded(seq![]),
    }
}

/// Decides at the transaction's tracepoint.
pub fn on_transaction(
    tx: &Transaction,
    flags: &ProbeFlags,
    stash: Option<&Stash>,
    pid_tgid: u64,
    ts_ns: u64,
    comm: &[u8; COMM_LEN],
) -> (r: TxStep)
    ensures
        ({
            let s = match stash {
                Some(s) => Some(*s),
                None => None,
            };
            if emits(*tx, *flags, s) {
                &&& r.event matches Some(ev) && is_event_of(ev, *tx, s, pid_tgid, ts_ns, comm@)
                &&& r.clear_stash == (stash is Some)
                &&& r.remember == (tx.reply == 0 && flags.errors_on)
                &&& r.capture == capture_of(*tx, *flags, s)
            } else {
                &&& r.event is None
                &&& r.clear_stash == !is_of_interest(tx.reply, flags.include_replies)
                &&& !r.remember
                &&& r.capture is None
            }
        }),
{
    if !wants_transaction(tx.reply, flags.include_replies) {
        return TxStep { clear_stash: true, event: None, remember: false, capture: None };
    }
    let none: [u8; 256] = [0u8; 256];
    assert(none@ =~= padded(seq![]));
    let mut ev = TxEvent {
        ts_ns,
        src_pid: (pid_tgid / 0x1_0000_0000) as u32,
        src_tid: (pid_tgid % 0x1_0000_0000) as u32,
        dst_pid: tx.to_proc,
        code: tx.code,
        flags: tx.flags,
        reply: tx.reply,
        data_size: 0,
        err_code: 0,
        debug_id: tx.debug_id,
        iface_byte_len: 0,
        iface: none,
        src_comm: *comm,
    };
    let remember: bool = tx.reply == 0 && flags.errors_on;
    match stash {
        Some(s) => {
            ev.data_size = s.data_size;
            ev.iface_byte_len = s.iface_byte_len;
            ev.iface = s.iface;
            let capture: Option<Capture> = if tx.reply == 0 && s.buf_ptr != 0 && flags.parcel_on
                && flags.parcel_max > 0 {
                Some(Capture { ptr: s.buf_ptr, len: payload_len(s.data_size, flags.parcel_max) })
            } else {
                None
            };
            TxStep { clear_stash: true, event: Some(ev), remember, capture }
        },
        None => {
            if flags.filter_on {
                return TxStep {
                    clear_stash: false,
                    event: None,
                    remember: false,
                    capture: None,
                };
            }
            TxStep { clear_stash: false, event: Some(ev), remember, capture: None }
        },
    }
}

/// How many payload bytes are captured of a parcel: all of it, as far as the cap and the
/// ceiling go.
pub fn payload_len(data_size: u32, cap: u32) -> (r: usize)
    ensures
        r == least(least(data_size as int, cap as int), PARCEL_CEILING as int),
{
    let n: u32 = if data_size <= cap {
        data_size
    } else {
        cap
    };
    if n as u64 <= PARCEL_CEILING as u64 {
        n as usize
    } else {
        PARCEL_CEILING
    }
}

/// The ring item of an event with its payload, where `payload` is what was read of it;
/// none is captured where it could not be read.
pub fn emit_with_parcel(ev: &TxEvent, payload: Option<&[u8]>) -> (r: Vec<u8>)
    requires
        payload matches Some(p) ==> p@.len() <= PARCEL_CEILING,
    ensures
        r@ == record_bytes(
            *ev,
            match payload {
                Some(p) => p@,
                None => seq![],
            },
        ),
{
    match payload {
        Some(p) => write_record(ev, p),
        None => {
            let none: [u8; 0] = [];
            assert(none@ =~= Seq::<u8>::empty());
            write_record(ev, none.as_slice())
        },
    }
}

/// Whether `ev` reports `cmd` as the failure of the transaction `last` of thread
/// `pid_tgid`.
pub open spec fn is_failure_of(
    ev: TxEvent,
    cmd: u32,
    last: TxEvent,
    pid_tgid: u64,
    ts_ns: u64,
) -> bool {
    &&& ev.ts_ns == ts_ns
    &&& ev.src_pid == high32(pid_tgid)
    &&& ev.src_tid == low32(pid_tgid)
    &&& ev.dst_pid == last.dst_pid
    &&& ev.code == last.code
    &&& ev.flags == 0
    &&& ev.reply == 0
    &&& ev.data_size == 0
    &&& ev.err_code == cmd
    &&& ev.debug_id == last.debug_id
    &&& ev.iface_byte_len == last.iface_byte_len
    &&& ev.iface == last.iface
    &&& ev.src_comm == last.src_comm
}

/// Whether a return is reported as the failure of the thread's last transaction.
pub open spec fn reports(errors_on: bool, cmd: u32, last: Option<TxEvent>) -> bool {
    errors_on && is_error_cmd(cmd) && last is Some
}

/// The thread's last transaction after a return: it is forgotten where it was reported.
pub open spec fn last_after(errors_on: bool, cmd: u32, last: Option<TxEvent>) -> Option<TxEvent> {
    if reports(errors_on, cmd, last) {
        None
    } else {
        last
    }
}

/// What an optional event holds.
pub open spec fn event_of(ev: Option<&TxEvent>) -> Option<TxEvent> {
    match ev {
        Some(ev) => Some(*ev),
        None => None,
    }
}

/// Decides at the return's tracepoint: the error event to emit. `last` is the thread's
/// last captured transaction, which is to be forgotten where there is an event, so that
/// each transaction fails at most once. Without it nothing is reported: the transaction
/// was not being captured.
pub fn on_return(
    errors_on: bool,
    cmd: u32,
    last: Option<&TxEvent>,
    pid_tgid: u64,
    ts_ns: u64,
) -> (r: Option<TxEvent>)
    ensures
        r is Some <==> reports(errors_on, cmd, event_of(last)),
        r matches Some(ev) ==> is_failure_of(ev, cmd, *last->0, pid_tgid, ts_ns),
{
    if !errors_on || !is_error_return(cmd) {
        return None;
    }
    match last {
        Some(l) => Some(
            TxEvent {
                ts_ns,
                src_pid: (pid_tgid / 0x1_0000_0000) as u32,
                src_tid: (pid_tgid % 0x1_0000_0000) as u32,
                dst_pid: l.dst_pid,
                code: l.code,
                flags: 0,
                reply: 0,
                data_size: 0,
                err_code: cmd,
                debug_id: l.debug_id,
                iface_byte_len: l.iface_byte_len,
                iface: l.iface,
                src_comm: l.src_comm,
            },
        ),
        None => None,
    }
}

/// The probe and the consumer agree on keys: of a parcel that starts with the interface
/// token of `name`, the probe captures the filter key of `name`, and as many bytes of it
/// as the name has, up to the size of the buffer.
pub proof fn law_probe_captures_key(
    policy: u32,
    source: u32,
    name: Seq<char>,
    rest: Seq<u8>,
)
    requires
        (interface_token(policy, source, name) + rest).len() <= u32::MAX,
    ensures
        ({
            let parcel = interface_token(policy, source, name) + rest;
            let n = descriptor_bytes(le64(parcel, 8) as u64, parcel.len() as u32);
            &&& n == least(2 * encode16(name).len() as int, MAX_IFACE_BYTES as int)
            &&& padded(parcel.subrange(P_STR as int, P_STR + n)) == key_bytes(name)
        }),
{
    let token = interface_token(policy, source, name);
    let parcel = token + rest;
    let units = encode16(name);
    let len = 2 * units.len() as int;
    assert(token.len() == 16 + string16_size(units.len() as int));
    assert(parcel.subrange(8, 12) =~= to_le32(HEADER_MAGIC as nat));
    lemma_le32_read(parcel, 8, HEADER_MAGIC as nat);
    assert(parcel.subrange(12, 16) =~= to_le32(units.len()));
    lemma_le32_read(parcel, 12, units.len());
    lemma_le_bounds(parcel, 8);
    let head = le64(parcel, 8) as u64;
    assert(low32(head) == HEADER_MAGIC);
    assert(high32(head) == units.len());
    let n = descriptor_bytes(head, parcel.len() as u32);
    assert(parcel.subrange(16, 16 + len) =~= bytes_le(units));
    assert(n == least(len, MAX_IFACE_BYTES as int));
    let got = parcel.subrange(16, 16 + n);
    assert forall|i: int| 0 <= i < n implies got[i] == bytes_le(units)[i] by {
        assert(got[i] == parcel[16 + i]);
        assert(parcel.subrange(16, 16 + len)[i] == parcel[16 + i]);
    }
    assert(padded(got) =~= key_bytes(name));
}

/// What the probe captures of an interface token decodes to the interface's name.
pub proof fn law_probe_captures_name(policy: u32, source: u32, name: Seq<char>, rest: Seq<u8>)
    requires
        (interface_token(policy, source, name) + rest).len() <= u32::MAX,
        !name.contains('\0'),
        2 * encode16(name).len() <= MAX_IFACE_BYTES,
    ensures
        ({
            let parcel = interface_token(policy, source, name) + rest;
            let n = descriptor_bytes(le64(parcel, 8) as u64, parcel.len() as u32);
            iface_text(padded(parcel.subrange(P_STR as int, P_STR + n)), n) == name
        }),
{
    law_probe_captures_key(policy, source, name, rest);
    law_iface_key_round_trip(name, 2 * encode16(name).len() as int);
}

/// A transaction without a descriptor is never a wanted one: its captured bytes are the
/// key of no interface name.
pub proof fn law_tokenless_is_never_wanted(name: Seq<char>)
    requires
        name.len() > 0,
        name[0] != '\0',
    ensures
        key_bytes(name) != padded(seq![]),
{
    let units = encode16(name);
    let b = bytes_le(units);
    let c = name[0];
    vstd::utf8::char_is_scalar(c);
    assert(units[0] == encode_char(c)[0]);
    if c as u32 == 0 {
        vstd::utf8::char_u32_cast(c, 0u32);
        vstd::utf8::char_u32_cast('\0', 0u32);
    }
    assert(units[0] != 0);
    assert(b[0] == units[0] % 256 && b[1] == units[0] / 256);
    assert(key_bytes(name)[0] != 0 || key_bytes(name)[1] != 0);
    assert(padded(seq![])[0] == 0 && padded(seq![])[1] == 0);
}

/// While filtering, nothing of a transaction that was not stashed is emitted, remembered
/// or captured.
pub proof fn law_filtered_is_dropped(tx: Transaction, flags: ProbeFlags)
    requires
        flags.filter_on,
    ensures
        !emits(tx, flags, None),
{
}

/// A captured payload is never longer than the parcel, the cap or the ceiling.
pub proof fn law_capture_is_bounded(tx: Transaction, flags: ProbeFlags, stash: Stash)
    ensures
        capture_of(tx, flags, Some(stash)) matches Some(c) ==> c.len <= stash.data_size && c.len
            <= flags.parcel_max && c.len <= PARCEL_CEILING,
{
}

/// A transaction fails at most once: of two returns without a transaction between them,
/// only one is reported.
pub proof fn law_transaction_fails_once(
    errors_on: bool,
    cmd: u32,
    last: Option<TxEvent>,
    errors_on_later: bool,
    cmd_later: u32,
)
    requires
        reports(errors_on, cmd, last),
    ensures
        !reports(errors_on_later, cmd_later, last_after(errors_on, cmd, last)),
{
}

} // verus!
