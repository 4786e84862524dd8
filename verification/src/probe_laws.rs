//! Laws of the probe: which transactions it never misses, and what its events tell.

use crate::bytes::{
    le32, le64, lemma_le32_read, lemma_le64_read, lemma_signed_patterns, pattern32, signed32,
    to_le32, to_le64,
};
use crate::event::{
    event_bytes, law_event_bytes_determine_event, law_ring_round_trip, lemma_event_len,
    lemma_places, read_item, record_bytes, write_event, COMM_LEN, MAX_IFACE_BYTES, PARCEL_CEILING,
    IfaceKey, TxEvent,
};
use crate::iface::{iface_key, law_iface_key_round_trip, lemma_no_nul, write_iface_bytes};
use crate::line::event_iface;
use crate::marshal::interface_token;
use crate::probe::{
    emit_with_parcel, entry_descriptor, entry_end, entry_head, entry_start, entry_words,
    law_probe_captures_key, on_return, on_transaction, EntryStep, ProbeFlags, Stash, Transaction,
    TxStep,
};
use crate::text::{lemma_find_behind, lemma_first_char_absent};
use crate::utf16::{
    bytes_le, decode16, encode16, law_units_round_trip, law_utf16_round_trip, lemma_decode_encode,
};
use vstd::prelude::*;

verus! {

/// No call is missed: every transaction that is no reply is emitted where it was stashed,
/// and where nothing is filtered even where it was not, whatever its flags, its code and
/// its target are. It is remembered where failures are asked for, and its stash is used up.
pub proof fn law_every_call_is_emitted(
    tx: &Transaction,
    flags: &ProbeFlags,
    stash: Option<&Stash>,
    pid_tgid: u64,
    ts_ns: u64,
    comm: &[u8; COMM_LEN],
    r: TxStep,
)
    requires
        call_ensures(on_transaction, (tx, flags, stash, pid_tgid, ts_ns, comm), r),
        tx.reply == 0,
        stash is Some || !flags.filter_on,
    ensures
        r.event is Some,
        r.remember == flags.errors_on,
        stash is Some ==> r.clear_stash,
{
}

/// A reply is emitted where replies are asked for, as a call would be, and nowhere else. It
/// is never remembered, and no payload of it is captured; where it is not asked for,
/// nothing stays stashed.
pub proof fn law_replies_are_emitted_where_asked_for(
    tx: &Transaction,
    flags: &ProbeFlags,
    stash: Option<&Stash>,
    pid_tgid: u64,
    ts_ns: u64,
    comm: &[u8; COMM_LEN],
    r: TxStep,
)
    requires
        call_ensures(on_transaction, (tx, flags, stash, pid_tgid, ts_ns, comm), r),
        tx.reply != 0,
    ensures
        r.event is Some <==> flags.include_replies && (stash is Some || !flags.filter_on),
        !r.remember,
        r.capture is None,
        !flags.include_replies ==> r.clear_stash,
{
}

/// While filtering, a transaction that was not stashed leaves no trace.
pub proof fn law_filtered_leaves_no_trace(
    tx: &Transaction,
    flags: &ProbeFlags,
    pid_tgid: u64,
    ts_ns: u64,
    comm: &[u8; COMM_LEN],
    r: TxStep,
)
    requires
        call_ensures(on_transaction, (tx, flags, None, pid_tgid, ts_ns, comm), r),
        flags.filter_on,
    ensures
        r.event is None,
        r.capture is None,
        !r.remember,
{
}

/// An event tells the transaction it stands for: who sent it and when, to whom, what it
/// calls, and what was stashed of its parcel. It is no failure.
pub proof fn law_event_tells_the_transaction(
    tx: &Transaction,
    flags: &ProbeFlags,
    stash: Option<&Stash>,
    pid_tgid: u64,
    ts_ns: u64,
    comm: &[u8; COMM_LEN],
    r: TxStep,
    ev: TxEvent,
)
    requires
        call_ensures(on_transaction, (tx, flags, stash, pid_tgid, ts_ns, comm), r),
        r.event == Some(ev),
    ensures
        ev.ts_ns == ts_ns,
        0x1_0000_0000 * ev.src_pid + ev.src_tid == pid_tgid,
        ev.dst_pid == tx.to_proc,
        ev.code == tx.code,
        ev.flags == tx.flags,
        ev.reply == tx.reply,
        ev.debug_id == tx.debug_id,
        ev.err_code == 0,
        ev.src_comm@ == comm@,
        stash matches Some(s) ==> ev.data_size == s.data_size && ev.iface_byte_len
            == s.iface_byte_len && ev.iface@ == s.iface@,
        stash is None ==> ev.data_size == 0 && event_iface(ev).len() == 0,
{
    assert(pid_tgid == 0x1_0000_0000 * (pid_tgid / 0x1_0000_0000) + pid_tgid % 0x1_0000_0000)
        by (nonlinear_arith);
    assert(pid_tgid / 0x1_0000_0000 < 0x1_0000_0000) by (nonlinear_arith);
    assert(pid_tgid % 0x1_0000_0000 < 0x1_0000_0000) by (nonlinear_arith);
}

/// The payload of a stashed call is captured while capture is on: from where its buffer
/// is, and all of it, unless the cap or the ceiling is smaller.
pub proof fn law_payload_is_captured(
    tx: &Transaction,
    flags: &ProbeFlags,
    stash: &Stash,
    pid_tgid: u64,
    ts_ns: u64,
    comm: &[u8; COMM_LEN],
    r: TxStep,
)
    requires
        call_ensures(on_transaction, (tx, flags, Some(stash), pid_tgid, ts_ns, comm), r),
        tx.reply == 0,
    ensures
        r.capture is Some <==> flags.parcel_on && flags.parcel_max > 0 && stash.buf_ptr != 0,
        r.capture matches Some(c) ==> {
            &&& c.ptr == stash.buf_ptr
            &&& c.len <= stash.data_size && c.len <= flags.parcel_max && c.len <= PARCEL_CEILING
            &&& c.len < stash.data_size ==> c.len == flags.parcel_max || c.len == PARCEL_CEILING
        },
{
}

/// At its entry, a transaction is looked at unless it is a reply that nobody asked for,
/// and what was captured of it is dropped only where it is filtered out.
pub proof fn law_entry_drops_only_the_filtered(
    reply: u32,
    include_replies: bool,
    first: EntryStep,
    stash: Stash,
    filter_on: bool,
    wanted: bool,
    last: EntryStep,
)
    requires
        call_ensures(entry_start, (reply, include_replies), first),
        call_ensures(entry_end, (stash, filter_on, wanted), last),
    ensures
        reply == 0 || include_replies ==> first is ReadWords,
        reply != 0 && !include_replies ==> first is Done,
        wanted || !filter_on ==> last == EntryStep::Keep(stash),
        filter_on && !wanted ==> last is Drop,
{
}

/// The parcel of a transaction is where its data says, whatever tag the pointer carries,
/// and its head is read wherever it can hold an interface token.
pub proof fn law_head_is_read(reply: u32, words: &[u64; 3], tag: u64, ptr: u64, r: EntryStep)
    requires
        call_ensures(entry_words, (reply, words), r),
        ptr < 0x100_0000_0000_0000,
        tag < 0x100,
        words@[2] == 0x100_0000_0000_0000 * tag + ptr,
    ensures
        ({
            let size = words@[0] % 0x1_0000_0000;
            &&& reply == 0 && size >= 16 ==> r == (EntryStep::ReadHead {
                at: (ptr + 8) as u64,
                data_size: size as u32,
                buf_ptr: ptr,
            })
            &&& reply != 0 || size < 16 ==> (r matches EntryStep::LookUp(s) && s.buf_ptr == ptr
                && s.data_size == size && s.iface_byte_len == 0)
        }),
{
    assert((0x100_0000_0000_0000 * tag + ptr) % 0x100_0000_0000_0000 == ptr) by (nonlinear_arith)
        requires
            ptr < 0x100_0000_0000_0000,
    ;
}

/// A call is logged by its interface: of a parcel that starts with the interface token of
/// `name`, the head and then the descriptor are read from their places, and the event that
/// comes of it carries `name` and the parcel's size. What is looked up in the filter on the
/// way is the key of `name`.
pub proof fn law_call_is_logged_by_name(
    policy: u32,
    source: u32,
    name: &str,
    rest: Seq<u8>,
    buf_ptr: u64,
    head: EntryStep,
    descriptor: &[u8],
    stashed: EntryStep,
    key: IfaceKey,
    tx: &Transaction,
    flags: &ProbeFlags,
    pid_tgid: u64,
    ts_ns: u64,
    comm: &[u8; COMM_LEN],
    r: TxStep,
)
    requires
        !name@.contains('\0'),
        0 < 2 * encode16(name@).len() <= MAX_IFACE_BYTES,
        (interface_token(policy, source, name@) + rest).len() <= u32::MAX,
        buf_ptr < 0x100_0000_0000_0000,
        ({
            let parcel = interface_token(policy, source, name@) + rest;
            let size = parcel.len() as u32;
            let len = descriptor@.len() as int;
            &&& call_ensures(entry_head, (Some(le64(parcel, 8) as u64), size, buf_ptr), head)
            &&& head matches EntryStep::ReadDescriptor { at, len, .. } ==> descriptor@
                == parcel.subrange(at - buf_ptr, at - buf_ptr + len)
            &&& call_ensures(entry_descriptor, (Some(descriptor), size, buf_ptr), stashed)
        }),
        call_ensures(iface_key, (name,), key),
        tx.reply == 0,
        stashed matches EntryStep::LookUp(s) ==> call_ensures(
            on_transaction,
            (tx, flags, Some(&s), pid_tgid, ts_ns, comm),
            r,
        ),
    ensures
        head is ReadDescriptor,
        stashed matches EntryStep::LookUp(s) && s.iface@ == key.0@ && s.buf_ptr == buf_ptr,
        r.event matches Some(ev) && event_iface(ev) == name@ && ev.data_size == (interface_token(
            policy,
            source,
            name@,
        ) + rest).len(),
{
    let parcel = interface_token(policy, source, name@) + rest;
    law_probe_captures_key(policy, source, name@, rest);
    law_iface_key_round_trip(name@, 2 * encode16(name@).len() as int);
}

/// A failed call is reported: where failures are asked for, each of the three error
/// returns gives an event of the call that failed, and nothing else does.
pub proof fn law_failures_are_reported(
    errors_on: bool,
    cmd: u32,
    last: Option<&TxEvent>,
    pid_tgid: u64,
    ts_ns: u64,
    r: Option<TxEvent>,
)
    requires
        call_ensures(on_return, (errors_on, cmd, last, pid_tgid, ts_ns), r),
    ensures
        r is Some <==> errors_on && last is Some && (cmd == 0x7205 || cmd == 0x7211 || cmd
            == 0x7212),
        r matches Some(ev) ==> {
            &&& ev.err_code == cmd
            &&& ev.ts_ns == ts_ns
            &&& 0x1_0000_0000 * ev.src_pid + ev.src_tid == pid_tgid
            &&& ev.dst_pid == last->0.dst_pid
            &&& ev.code == last->0.code
            &&& ev.debug_id == last->0.debug_id
            &&& event_iface(ev) == event_iface(*last->0)
            &&& ev.src_comm == last->0.src_comm
            &&& ev.flags == 0 && ev.reply == 0 && ev.data_size == 0
        },
{
    assert(pid_tgid == 0x1_0000_0000 * (pid_tgid / 0x1_0000_0000) + pid_tgid % 0x1_0000_0000)
        by (nonlinear_arith);
    assert(pid_tgid / 0x1_0000_0000 < 0x1_0000_0000) by (nonlinear_arith);
    assert(pid_tgid % 0x1_0000_0000 < 0x1_0000_0000) by (nonlinear_arith);
}

/// What the probe puts on the ring is what the consumer takes from it: the event alone,
/// and the event with its payload; none where the payload could not be read.
pub proof fn law_ring_carries_events(
    ev: &TxEvent,
    payload: Option<&[u8]>,
    with: Vec<u8>,
    bare: Vec<u8>,
    item: &[u8],
    r: Option<(TxEvent, Option<&[u8]>)>,
)
    requires
        payload matches Some(p) ==> p@.len() <= PARCEL_CEILING,
        call_ensures(emit_with_parcel, (ev, payload), with),
        call_ensures(write_event, (ev,), bare),
        item@ == with@ || item@ == bare@,
        call_ensures(read_item, (item,), r),
    ensures
        r matches Some((got, carried)) && {
            &&& got == *ev
            &&& item@ == bare@ ==> carried is None
            &&& item@ == with@ ==> (carried matches Some(c) && c@ == (match payload {
                Some(p) => p@,
                None => seq![],
            }))
        },
{
    let bytes = match payload {
        Some(p) => p@,
        None => seq![],
    };
    law_ring_round_trip(*ev, bytes);
    assert(bare@.take(bare@.len() as int) =~= bare@);
    let (got, carried) = r->0;
    law_event_bytes_determine_event(got, *ev);
}

/// As much of a descriptor is read as the head says, the parcel holds and the buffer takes;
/// none where the head has another magic, or could not be read.
pub proof fn law_descriptor_is_read_as_far_as_it_goes(
    magic: u32,
    units: u32,
    data_size: u32,
    buf_ptr: u64,
    r: EntryStep,
    unread: EntryStep,
)
    requires
        buf_ptr < 0x100_0000_0000_0000,
        call_ensures(
            entry_head,
            (Some((0x1_0000_0000 * units + magic) as u64), data_size, buf_ptr),
            r,
        ),
        call_ensures(entry_head, (None, data_size, buf_ptr), unread),
    ensures
        r is ReadDescriptor <==> magic == 0x5359_5354 && units > 0 && data_size > 16,
        r matches EntryStep::ReadDescriptor { at, len, data_size: size, buf_ptr: ptr } ==> {
            &&& at == buf_ptr + 16 && size == data_size && ptr == buf_ptr
            &&& len <= 2 * units && len <= data_size - 16 && len <= 256
            &&& len == 2 * units || len == data_size - 16 || len == 256
        },
        !(r is ReadDescriptor) ==> (r matches EntryStep::LookUp(s) && s.iface_byte_len == 0
            && s.data_size == data_size && s.buf_ptr == buf_ptr),
        unread matches EntryStep::LookUp(s) && s.iface_byte_len == 0 && s.data_size == data_size
            && s.buf_ptr == buf_ptr,
{
    let head = (0x1_0000_0000 * units + magic) as u64;
    assert(head == 0x1_0000_0000 * units + magic) by (nonlinear_arith)
        requires
            head == (0x1_0000_0000 * units + magic) as u64,
            units < 0x1_0000_0000,
            magic < 0x1_0000_0000,
    ;
    assert((0x1_0000_0000 * units + magic) % 0x1_0000_0000 == magic) by (nonlinear_arith)
        requires
            magic < 0x1_0000_0000,
    ;
    assert((0x1_0000_0000 * units + magic) / 0x1_0000_0000 == units) by (nonlinear_arith)
        requires
            magic < 0x1_0000_0000,
    ;
}

/// Each field of an event has its place on the ring: the time first, then the words in
/// order, the descriptor and the task name; the length of a payload and the payload follow.
pub proof fn law_fields_have_their_places(ev: &TxEvent, payload: &[u8], r: Vec<u8>)
    requires
        payload@.len() <= PARCEL_CEILING,
        call_ensures(emit_with_parcel, (ev, Some(payload)), r),
    ensures
        r@.len() == 324 + payload@.len(),
        le64(r@, 0) == ev.ts_ns,
        le32(r@, 8) == ev.src_pid,
        le32(r@, 12) == ev.src_tid,
        le32(r@, 16) == ev.dst_pid,
        le32(r@, 20) == ev.code,
        le32(r@, 24) == ev.flags,
        le32(r@, 28) == ev.reply,
        le32(r@, 32) == ev.data_size,
        le32(r@, 36) == ev.err_code,
        signed32(le32(r@, 40)) == ev.debug_id,
        le32(r@, 44) == ev.iface_byte_len,
        r@.subrange(48, 304) == ev.iface@,
        r@.subrange(304, 320) == ev.src_comm@,
        le32(r@, 320) == payload@.len(),
        r@.subrange(324, r@.len() as int) == payload@,
{
    let b = r@;
    let e = event_bytes(*ev);
    lemma_ring_parts(*ev, payload@, b);
    lemma_places(*ev);
    lemma_words(*ev, e, b);
}

/// A record is the event, the length of its payload and the payload.
proof fn lemma_ring_parts(ev: TxEvent, payload: Seq<u8>, b: Seq<u8>)
    requires
        payload.len() <= PARCEL_CEILING,
        b == record_bytes(ev, payload),
    ensures
        b.len() == 324 + payload.len(),
        b.take(320) == event_bytes(ev),
        le32(b, 320) == payload.len(),
        b.subrange(324, b.len() as int) == payload,
{
    lemma_event_len(ev);
    let e = event_bytes(ev);
    lemma_parts_joined(e, payload, b);
}

proof fn lemma_parts_joined(e: Seq<u8>, payload: Seq<u8>, b: Seq<u8>)
    requires
        payload.len() <= PARCEL_CEILING,
        e.len() == 320,
        b == e + to_le32(payload.len()) + payload,
    ensures
        b.len() == 324 + payload.len(),
        b.take(320) == e,
        le32(b, 320) == payload.len(),
        b.subrange(324, b.len() as int) == payload,
{
    assert(b.take(320) =~= e);
    assert(b.subrange(320, 324) =~= to_le32(payload.len()));
    lemma_le32_read(b, 320, payload.len());
    assert(b.subrange(324, b.len() as int) =~= payload);
}

proof fn lemma_word_at(e: Seq<u8>, b: Seq<u8>, i: int, n: nat)
    requires
        e.len() == 320,
        b.len() >= 320,
        b.take(320) == e,
        0 <= i <= 316,
        n < 0x1_0000_0000,
        to_le32(n) == e.subrange(i, i + 4),
    ensures
        le32(b, i) == n,
{
    assert(b.subrange(i, i + 4) =~= b.take(320).subrange(i, i + 4));
    lemma_le32_read(b, i, n);
}

/// Fields that stand in their places in `e` are read from whatever starts with `e`.
proof fn lemma_words(ev: TxEvent, e: Seq<u8>, b: Seq<u8>)
    requires
        e.len() == 320,
        b.len() >= 320,
        b.take(320) == e,
        to_le64(ev.ts_ns as nat) == e.subrange(0, 8),
        to_le32(ev.src_pid as nat) == e.subrange(8, 12),
        to_le32(ev.src_tid as nat) == e.subrange(12, 16),
        to_le32(ev.dst_pid as nat) == e.subrange(16, 20),
        to_le32(ev.code as nat) == e.subrange(20, 24),
        to_le32(ev.flags as nat) == e.subrange(24, 28),
        to_le32(ev.reply as nat) == e.subrange(28, 32),
        to_le32(ev.data_size as nat) == e.subrange(32, 36),
        to_le32(ev.err_code as nat) == e.subrange(36, 40),
        to_le32(pattern32(ev.debug_id as int)) == e.subrange(40, 44),
        to_le32(ev.iface_byte_len as nat) == e.subrange(44, 48),
        ev.iface@ == e.subrange(48, 304),
        ev.src_comm@ == e.subrange(304, 320),
    ensures
        le64(b, 0) == ev.ts_ns,
        le32(b, 8) == ev.src_pid,
        le32(b, 12) == ev.src_tid,
        le32(b, 16) == ev.dst_pid,
        le32(b, 20) == ev.code,
        le32(b, 24) == ev.flags,
        le32(b, 28) == ev.reply,
        le32(b, 32) == ev.data_size,
        le32(b, 36) == ev.err_code,
        signed32(le32(b, 40)) == ev.debug_id,
        le32(b, 44) == ev.iface_byte_len,
        b.subrange(48, 304) == ev.iface@,
        b.subrange(304, 320) == ev.src_comm@,
{
    lemma_signed_patterns();
    assert(b.subrange(0, 8) =~= b.take(320).subrange(0, 8));
    lemma_le64_read(b, 0, ev.ts_ns as nat);
    lemma_word_at(e, b, 8, ev.src_pid as nat);
    lemma_word_at(e, b, 12, ev.src_tid as nat);
    lemma_word_at(e, b, 16, ev.dst_pid as nat);
    lemma_word_at(e, b, 20, ev.code as nat);
    lemma_word_at(e, b, 24, ev.flags as nat);
    lemma_word_at(e, b, 28, ev.reply as nat);
    lemma_word_at(e, b, 32, ev.data_size as nat);
    lemma_word_at(e, b, 36, ev.err_code as nat);
    lemma_word_at(e, b, 40, pattern32(ev.debug_id as int));
    lemma_word_at(e, b, 44, ev.iface_byte_len as nat);
    assert(b.subrange(48, 304) =~= b.take(320).subrange(48, 304));
    assert(b.subrange(304, 320) =~= b.take(320).subrange(304, 320));
}

/// An event is one-way by the lowest bit of its flags, and a failure by its error.
pub proof fn law_kinds_of_events(ev: &TxEvent, oneway: bool, failed: bool)
    requires
        call_ensures(TxEvent::is_oneway, (ev,), oneway),
        call_ensures(TxEvent::is_error, (ev,), failed),
    ensures
        oneway == (ev.flags & 1 != 0),
        failed == (ev.err_code != 0),
{
    let flags = ev.flags;
    assert((flags & 1 != 0) == (flags % 2 == 1)) by (bit_vector);
}

/// A descriptor that was captured reads as its name, up to its first NUL or the end of what
/// was captured.
pub proof fn law_captured_name_is_read(
    out: &mut String,
    iface: &[u8],
    byte_len: usize,
    name: Seq<char>,
    rest: Seq<u16>,
    some: bool,
)
    requires
        call_ensures(write_iface_bytes, (out, iface, byte_len), some),
        !name.contains('\0'),
        0 < byte_len <= iface@.len(),
        byte_len % 2 == 0,
        ({
            ||| iface@.take(byte_len as int) == bytes_le(encode16(name))
            ||| iface@.take(byte_len as int) == bytes_le(encode16(name) + (seq![0u16] + rest))
        }),
    ensures
        final(out)@ == old(out)@ + name,
        some == (name.len() > 0),
{
    let bytes = iface@.take(byte_len as int);
    let tail = seq![0u16] + rest;
    if bytes == bytes_le(encode16(name)) {
        law_units_round_trip(encode16(name));
        law_utf16_round_trip(name);
        lemma_no_nul(name);
    } else {
        law_units_round_trip(encode16(name) + tail);
        lemma_decode_encode(name, tail);
        assert(tail.skip(1) =~= rest);
        vstd::utf8::char_u32_cast('\0', 0u32);
        assert(decode16(tail) == seq![0u16 as u32 as char] + decode16(rest));
        reveal_strlit("\0");
        let s = name + "\0"@ + decode16(rest);
        assert(seq![0u16 as u32 as char] =~= "\0"@);
        assert(name + (seq![0u16 as u32 as char] + decode16(rest)) =~= s);
        lemma_first_char_absent(name, "\0"@);
        lemma_find_behind(name, "\0"@, decode16(rest));
    }
}

/// What a ring item holds is told by its length: less than an event is nothing, an event
/// alone has no payload, and of a payload as many bytes count as its length says and the
/// item has.
pub proof fn law_items_are_told_by_their_length(
    item: &[u8],
    r: Option<(TxEvent, Option<&[u8]>)>,
)
    requires
        call_ensures(read_item, (item,), r),
    ensures
        r is None <==> item@.len() < 320,
        r matches Some((ev, payload)) ==> {
            &&& payload is None <==> item@.len() == 320
            &&& payload matches Some(p) ==> {
                &&& item@.len() < 324 ==> p@.len() == 0
                &&& item@.len() >= 324 ==> {
                    &&& p@.len() <= le32(item@, 320) && p@.len() <= item@.len() - 324
                    &&& p@.len() == le32(item@, 320) || p@.len() == item@.len() - 324
                    &&& p@ == item@.subrange(324, 324 + p@.len() as int)
                }
            }
        },
{
}

/// What is stashed of a descriptor is all of the bytes that were read, with zeros behind
/// them; nothing where they could not be read.
pub proof fn law_stash_holds_the_descriptor(
    descriptor: Option<&[u8]>,
    data_size: u32,
    buf_ptr: u64,
    i: int,
    r: EntryStep,
)
    requires
        descriptor matches Some(d) ==> d@.len() <= 256,
        call_ensures(entry_descriptor, (descriptor, data_size, buf_ptr), r),
        0 <= i < 256,
    ensures
        r matches EntryStep::LookUp(s) && {
            &&& s.buf_ptr == buf_ptr && s.data_size == data_size
            &&& descriptor is None ==> s.iface_byte_len == 0 && s.iface@[i] == 0
            &&& descriptor matches Some(d) ==> {
                &&& s.iface_byte_len == d@.len()
                &&& i < d@.len() ==> s.iface@[i] == d@[i]
                &&& i >= d@.len() ==> s.iface@[i] == 0
            }
        },
{
}

} // verus!
