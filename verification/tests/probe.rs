//! What the probe decides.

use bindfetto::event::{read_item, TxEvent, BR_DEAD_REPLY, BR_FROZEN_REPLY};
use bindfetto::iface::{iface_key, write_iface_bytes};
use bindfetto::probe::{
    descriptor_len, emit_with_parcel, entry_descriptor, entry_end, entry_head, entry_start,
    entry_words, head_address, on_return, on_transaction, payload_len, transaction_buffer, untag,
    wants_transaction, Capture, EntryStep, ProbeFlags, Stash, Transaction,
};

const COMM: [u8; 16] = *b"task\0\0\0\0\0\0\0\0\0\0\0\0";
const THREAD: u64 = (12 << 32) | 13;

fn token(name: &str, rest: &[u8]) -> Vec<u8> {
    let units: Vec<u16> = name.encode_utf16().collect();
    let mut p = vec![1, 2, 3, 4, 5, 6, 7, 8];
    p.extend_from_slice(&0x5359_5354u32.to_le_bytes());
    p.extend_from_slice(&(units.len() as u32).to_le_bytes());
    for u in units {
        p.extend_from_slice(&u.to_le_bytes());
    }
    p.extend_from_slice(&[0, 0]);
    while p.len() % 4 != 0 {
        p.push(0);
    }
    p.extend_from_slice(rest);
    p
}

/// Runs the entry of a transaction on a parcel in memory.
fn enter(parcel: &[u8]) -> Stash {
    let words = [parcel.len() as u64, 9, 0xb400_0000_0000_1000];
    let mut step = entry_start(0, false);
    loop {
        step = match step {
            EntryStep::ReadWords => entry_words(0, &words),
            EntryStep::ReadHead { at, data_size, buf_ptr } => {
                assert_eq!((at, data_size, buf_ptr), (0x1008, parcel.len() as u32, 0x1000));
                let mut head = [0; 8];
                head.copy_from_slice(&parcel[8..16]);
                entry_head(Some(u64::from_le_bytes(head)), data_size, buf_ptr)
            }
            EntryStep::ReadDescriptor { at, len, data_size, buf_ptr } => {
                assert_eq!(at, 0x1010);
                entry_descriptor(Some(&parcel[16..16 + len]), data_size, buf_ptr)
            }
            EntryStep::LookUp(stash) => entry_end(stash, false, false),
            EntryStep::Keep(stash) => return stash,
            _ => panic!(),
        };
    }
}

fn flags() -> ProbeFlags {
    ProbeFlags {
        include_replies: false,
        filter_on: false,
        errors_on: true,
        parcel_on: true,
        parcel_max: 10,
    }
}

fn transaction() -> Transaction {
    Transaction { debug_id: -4, to_proc: 34, reply: 0, code: 7, flags: 1 }
}

#[test]
fn the_captured_descriptor_is_the_filter_key() {
    for name in ["a", "android.app.IActivityManager", "é\u{1f600}", &"n".repeat(128)] {
        for rest in [&[][..], &[9; 40]] {
            let stash = enter(&token(name, rest));
            assert_eq!(stash.iface, iface_key(name).0);
            let mut out = String::new();
            assert!(write_iface_bytes(&mut out, &stash.iface, stash.iface_byte_len as usize));
            assert_eq!(out, name);
        }
    }
    // Longer names are cut as the key is.
    let long = "n".repeat(500);
    let stash = enter(&token(&long, &[]));
    assert_eq!(stash.iface, iface_key(&long).0);
    assert_eq!(stash.iface_byte_len, 256);
}

#[test]
fn parcels_without_a_token_have_no_descriptor() {
    for parcel in [vec![0u8; 15], vec![0; 16], vec![0; 100]] {
        let stash = enter(&parcel);
        assert_eq!(stash.iface_byte_len, 0);
        assert_eq!(stash.iface, [0u8; 256]);
        assert_eq!(stash.data_size as usize, parcel.len());
    }
    assert_ne!(iface_key("x").0, [0u8; 256]);
    assert_eq!(head_address(1, 100, 0), None);
    assert_eq!(head_address(0, 15, 0), None);
    let head = (5u64 << 32) | 0x5359_5354;
    assert_eq!(descriptor_len(head, 16), 0);
    assert_eq!(descriptor_len(head, 19), 3);
    assert_eq!(descriptor_len(head, 100), 10);
    assert_eq!(descriptor_len(head + 1, 100), 0);
    assert_eq!(descriptor_len(0xffff_ffff_5359_5354, u32::MAX), 256);
}

#[test]
fn an_entry_goes_on_without_what_cannot_be_read() {
    assert!(matches!(entry_start(1, false), EntryStep::Done));
    assert!(matches!(entry_start(1, true), EntryStep::ReadWords));
    // A reply is stashed without a descriptor.
    assert!(matches!(
        entry_words(1, &[100, 0, 7]),
        EntryStep::LookUp(s) if s.iface_byte_len == 0 && s.data_size == 100 && s.buf_ptr == 7
    ));
    assert!(matches!(entry_head(None, 100, 7), EntryStep::LookUp(s) if s.iface_byte_len == 0));
    let head = (5u64 << 32) | 0x5359_5354;
    assert!(matches!(
        entry_head(Some(head), 100, 7),
        EntryStep::ReadDescriptor { at: 23, len: 10, data_size: 100, buf_ptr: 7 }
    ));
    assert!(matches!(
        entry_descriptor(None, 100, 7),
        EntryStep::LookUp(s) if s.iface_byte_len == 0 && s.iface == [0u8; 256]
    ));
}

#[test]
fn pointers_lose_their_tag() {
    assert_eq!(untag(0xb4ff_ffff_ffff_ffff), 0x00ff_ffff_ffff_ffff);
    assert_eq!(untag(0x1234), 0x1234);
    assert_eq!(transaction_buffer(&[0x1_0000_0005, 0, 0]).0, 5);
}

#[test]
fn transactions_are_emitted_with_what_was_stashed() {
    let stash = enter(&token("a.IB", &[1; 100]));
    let step = on_transaction(&transaction(), &flags(), Some(&stash), THREAD, 55, &COMM);
    assert!(step.clear_stash && step.remember);
    assert_eq!(step.capture, Some(Capture { ptr: 0x1000, len: 10 }));
    let ev = step.event.unwrap();
    assert_eq!((ev.ts_ns, ev.src_pid, ev.src_tid, ev.dst_pid), (55, 12, 13, 34));
    assert_eq!((ev.code, ev.flags, ev.reply, ev.err_code, ev.debug_id), (7, 1, 0, 0, -4));
    assert_eq!(ev.data_size, stash.data_size);
    assert_eq!(ev.iface_byte_len, 8);
    assert_eq!(ev.iface, iface_key("a.IB").0);
    assert_eq!(ev.src_comm, COMM);
}

#[test]
fn what_was_not_stashed_is_dropped_while_filtering() {
    let mut f = flags();
    let step = on_transaction(&transaction(), &f, None, THREAD, 55, &COMM);
    let ev = step.event.unwrap();
    assert_eq!((ev.data_size, ev.iface_byte_len), (0, 0));
    assert!(!step.clear_stash && step.remember && step.capture.is_none());
    f.filter_on = true;
    let step = on_transaction(&transaction(), &f, None, THREAD, 55, &COMM);
    assert!(step.event.is_none() && !step.clear_stash && !step.remember && step.capture.is_none());
    let stash = enter(&[0; 4]);
    assert!(matches!(entry_end(stash, true, true), EntryStep::Keep(_)));
    assert!(matches!(entry_end(stash, true, false), EntryStep::Drop));
}

#[test]
fn replies_are_dropped_unless_they_are_asked_for() {
    let stash = enter(&[0; 4]);
    let mut tx = transaction();
    tx.reply = 1;
    let mut f = flags();
    let step = on_transaction(&tx, &f, Some(&stash), THREAD, 55, &COMM);
    assert!(step.event.is_none() && step.clear_stash && !step.remember);
    assert!(!wants_transaction(1, false) && wants_transaction(0, false));
    f.include_replies = true;
    assert!(wants_transaction(1, true));
    let step = on_transaction(&tx, &f, Some(&stash), THREAD, 55, &COMM);
    assert!(step.event.is_some() && step.clear_stash);
    assert!(!step.remember && step.capture.is_none());
}

#[test]
fn payloads_are_captured_only_where_they_can_be() {
    let stash = enter(&token("a.IB", &[]));
    let capture = |f: &ProbeFlags, s: &Stash| {
        on_transaction(&transaction(), f, Some(s), THREAD, 0, &COMM).capture
    };
    assert!(capture(&flags(), &stash).is_some());
    assert_eq!(capture(&ProbeFlags { parcel_on: false, ..flags() }, &stash), None);
    assert_eq!(capture(&ProbeFlags { parcel_max: 0, ..flags() }, &stash), None);
    assert_eq!(capture(&flags(), &Stash { buf_ptr: 0, ..stash }), None);
    assert_eq!(payload_len(100, 10), 10);
    assert_eq!(payload_len(5, 10), 5);
    assert_eq!(payload_len(u32::MAX, u32::MAX), 30720);
}

#[test]
fn records_carry_what_could_be_read() {
    let stash = enter(&token("a.IB", &[]));
    let ev = on_transaction(&transaction(), &flags(), Some(&stash), THREAD, 55, &COMM).event.unwrap();
    let item = emit_with_parcel(&ev, Some(&[5, 6]));
    assert_eq!(read_item(&item).unwrap().1, Some(&[5u8, 6][..]));
    let item = emit_with_parcel(&ev, None);
    assert_eq!(read_item(&item).unwrap().1, Some(&[][..]));
}

#[test]
fn failures_name_the_last_transaction() {
    let stash = enter(&token("a.IB", &[]));
    let last = on_transaction(&transaction(), &flags(), Some(&stash), THREAD, 55, &COMM).event;
    let last: Option<&TxEvent> = last.as_ref();
    let ev = on_return(true, BR_DEAD_REPLY, last, THREAD, 99).unwrap();
    assert_eq!((ev.ts_ns, ev.src_pid, ev.src_tid, ev.dst_pid), (99, 12, 13, 34));
    assert_eq!((ev.code, ev.flags, ev.reply, ev.data_size), (7, 0, 0, 0));
    assert_eq!((ev.err_code, ev.debug_id), (BR_DEAD_REPLY, -4));
    assert_eq!(ev.iface, iface_key("a.IB").0);
    assert_eq!(ev.src_comm, COMM);
    assert!(on_return(true, BR_FROZEN_REPLY, last, THREAD, 99).is_some());
    assert!(on_return(true, 0x7206, last, THREAD, 99).is_none());
    assert!(on_return(false, BR_DEAD_REPLY, last, THREAD, 99).is_none());
    assert!(on_return(true, BR_DEAD_REPLY, None, THREAD, 99).is_none());
}
