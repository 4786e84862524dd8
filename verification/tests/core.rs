//! Interface keys, hexadecimal and JSON text, error causes and the failure log.

use bindfetto::errors::{br_error_name, errno_reason, parse_failed_tx_entry, FailedTxLog};
use bindfetto::event::{
    is_error_return, BR_DEAD_REPLY, BR_FAILED_REPLY, BR_FROZEN_REPLY, MAX_IFACE_BYTES,
};
use bindfetto::hex::{decode_hex, push_hex};
use bindfetto::iface::{iface_key, write_iface_bytes};
use bindfetto::json::{json_escape, JsonObject};

fn utf16le(s: &str) -> Vec<u8> {
    s.encode_utf16().flat_map(|u| u.to_le_bytes()).collect()
}

#[test]
fn iface_key_is_zero_padded_utf16le() {
    let key = iface_key("android.os.IServiceManager");
    let want = utf16le("android.os.IServiceManager");
    assert_eq!(&key.0[..want.len()], &want[..]);
    assert!(key.0[want.len()..].iter().all(|&b| b == 0));
    assert_eq!(key.0.len(), MAX_IFACE_BYTES);
}

#[test]
fn iface_key_round_trips_through_write_iface_bytes() {
    let name = "android.hardware.automotive.vehicle.IVehicleCallback";
    let key = iface_key(name);
    let byte_len = utf16le(name).len();
    let mut out = String::new();
    assert!(write_iface_bytes(&mut out, &key.0, byte_len));
    assert_eq!(out, name);
}

#[test]
fn a_key_decodes_from_every_length_that_holds_the_name() {
    for name in ["a.IB", "é\u{1f600}", &"n".repeat(128)] {
        let key = iface_key(name);
        for len in utf16le(name).len()..=256 {
            let mut out = String::new();
            assert!(write_iface_bytes(&mut out, &key.0, len));
            assert_eq!(out, name);
        }
    }
}

#[test]
fn iface_key_truncates_overlong_names_on_a_unit_boundary() {
    let long = "a".repeat(MAX_IFACE_BYTES);
    let key = iface_key(&long);
    assert!(key.0.iter().all(|&b| b == b'a' as u8 || b == 0));
    assert_eq!(key.0[MAX_IFACE_BYTES - 2], b'a');
}

#[test]
fn write_iface_bytes_stops_at_nul_and_handles_empty() {
    let mut bytes = utf16le("IFoo");
    bytes.extend_from_slice(&utf16le("junk"));
    let mut framed = utf16le("IFoo");
    framed.extend_from_slice(&[0, 0]);
    framed.extend_from_slice(&utf16le("junk"));
    let mut out = String::new();
    assert!(write_iface_bytes(&mut out, &framed, framed.len()));
    assert_eq!(out, "IFoo");

    let mut empty = String::new();
    assert!(!write_iface_bytes(&mut empty, &bytes, 0));
    assert!(!write_iface_bytes(&mut empty, &bytes, bytes.len() + 2));
    assert!(empty.is_empty());
}

#[test]
fn write_iface_bytes_replaces_unpaired_surrogate() {
    let bytes = [0x00, 0xD8];
    let mut out = String::new();
    assert!(write_iface_bytes(&mut out, &bytes, 2));
    assert_eq!(out, "\u{FFFD}");
}

#[test]
fn push_hex_is_lowercase_two_per_byte() {
    let mut out = String::new();
    push_hex(&mut out, &[0x00, 0x0f, 0xa5, 0xff]);
    assert_eq!(out, "000fa5ff");
}

#[test]
fn json_escape_covers_rfc8259_controls() {
    let mut out = String::new();
    json_escape(&mut out, "a\"b\\c\n\t\u{01}");
    assert_eq!(out, "a\\\"b\\\\c\\n\\t\\u0001");
}

#[test]
fn br_error_names() {
    assert_eq!(br_error_name(BR_DEAD_REPLY), "BR_DEAD_REPLY");
    assert_eq!(br_error_name(BR_FAILED_REPLY), "BR_FAILED_REPLY");
    assert_eq!(br_error_name(BR_FROZEN_REPLY), "BR_FROZEN_REPLY");
    assert_eq!(br_error_name(0x1234), "BR_ERROR");
}

#[test]
fn errno_reasons() {
    assert_eq!(errno_reason(-28), Some("target buffer full"));
    assert_eq!(errno_reason(-3), Some("dead node"));
    assert_eq!(errno_reason(0), None);
    assert_eq!(errno_reason(-999), None);
}

#[test]
fn parses_failed_tx_line() {
    let line = "12345: call from 648:700 to 895:0 context binder node 4 handle 3 \
                size 216:8 ret 29201/-28 l=42";
    assert_eq!(parse_failed_tx_entry(line), Some((12345, -28)));
}

#[test]
fn parses_async_and_positive_ids() {
    let line = "7: async from 1:1 to 2:0 context binder ret 29189/-3 l=9";
    assert_eq!(parse_failed_tx_entry(line), Some((7, -3)));
}

#[test]
fn rejects_lines_without_ret_field() {
    assert!(parse_failed_tx_entry("garbage without a colon").is_none());
    assert!(parse_failed_tx_entry("12: call from 1:2 to 3:4 no ret here").is_none());
    assert!(parse_failed_tx_entry("12: x ret 29201 l=1").is_none());
}

// Further edges.

#[test]
fn failed_entries_in_odd_forms() {
    assert_eq!(parse_failed_tx_entry(" -5 : x ret   1/+2"), Some((-5, 2)));
    assert_eq!(parse_failed_tx_entry("5: x ret 1/2 ret 3/4"), Some((5, 2)));
    assert_eq!(parse_failed_tx_entry("5: x ret  ret 3/4"), None);
    assert_eq!(parse_failed_tx_entry("x: y ret 1/2"), None);
    assert_eq!(parse_failed_tx_entry("5: ret 1/2/3 "), None);
    assert_eq!(parse_failed_tx_entry("5: y ret 1/2147483648"), None);
    assert_eq!(parse_failed_tx_entry("5: y ret 1/-2147483648"), Some((5, i32::MIN)));
    assert_eq!(parse_failed_tx_entry(": y ret 1/2"), None);
}

#[test]
fn every_known_errno_has_its_reason() {
    for (errno, reason) in [
        (-28, "target buffer full"),
        (-3, "dead node"),
        (-22, "invalid transaction"),
        (-1, "operation not permitted"),
        (-13, "permission denied"),
        (-9, "bad file descriptor"),
        (-14, "fault copying data"),
        (-12, "out of memory"),
        (-11, "would block"),
        (-110, "timed out"),
    ] {
        assert_eq!(errno_reason(errno), Some(reason));
    }
}

#[test]
fn error_returns_are_told() {
    for cmd in [0x7205, 0x7211, 0x7212] {
        assert!(is_error_return(cmd));
    }
    for cmd in [0, 0x7204, 0x7206, 0x7210, 0x7213] {
        assert!(!is_error_return(cmd));
    }
}

#[test]
fn the_failure_log_is_merged_and_answered_from_the_cache() {
    let mut log = FailedTxLog::new();
    assert_eq!(log.errno_for(7, None), None);
    let first = "header\r\n7: x ret 1/-28 l=1\n8: x ret 1/-3 l=1\n7: x ret 1/-22";
    assert_eq!(log.errno_for(7, Some(first)), Some(-22));
    assert_eq!(log.cached(8), Some(-3));
    // A known id is answered without the new content.
    assert_eq!(log.errno_for(8, Some("8: x ret 1/-1\n9: x ret 1/-1")), Some(-3));
    assert_eq!(log.cached(9), None);
    assert_eq!(log.errno_for(9, Some("9: x ret 1/-1\r\n")), Some(-1));
    assert_eq!(log.cached(7), Some(-22));
    assert_eq!(log.errno_for(10, Some("")), None);
}

#[test]
fn a_grown_failure_log_is_emptied_before_the_next_read() {
    let mut log = FailedTxLog::new();
    let full: String = (0..=FailedTxLog::CACHE_CAP).map(|i| format!("{i}: x ret 1/-1\n")).collect();
    log.absorb(&full);
    assert_eq!(log.cached(0), Some(-1));
    assert_eq!(log.errno_for(1_000_000, Some("1000000: x ret 1/-9")), Some(-9));
    assert_eq!(log.cached(0), None);
}

#[test]
fn the_failure_log_is_where_the_kernel_keeps_it() {
    let binderfs = Some("/dev/binderfs/binder_logs/failed_transaction_log");
    assert_eq!(FailedTxLog::resolve(true, true), binderfs);
    assert_eq!(FailedTxLog::resolve(true, false), binderfs);
    assert_eq!(
        FailedTxLog::resolve(false, true),
        Some("/sys/kernel/debug/binder/failed_transaction_log")
    );
    assert_eq!(FailedTxLog::resolve(false, false), None);
}

#[test]
fn hex_is_decoded_in_whole_bytes() {
    assert_eq!(decode_hex("00ffAb9"), vec![0x00, 0xff, 0xab]);
    assert_eq!(decode_hex("0gff"), Vec::<u8>::new());
    assert_eq!(decode_hex("00 ff"), vec![0]);
    assert_eq!(decode_hex(""), Vec::<u8>::new());
    let all: Vec<u8> = (0..=255).collect();
    let mut text = String::new();
    push_hex(&mut text, &all);
    assert_eq!(decode_hex(&text), all);
}

#[test]
fn json_text_reads_back() {
    let mut s: String = (0..0x30u8).map(|b| b as char).collect();
    s.push_str("\\\"é\u{1f600}\u{7f}");
    let mut out = String::from("\"");
    json_escape(&mut out, &s);
    out.push('"');
    assert_eq!(serde_json::from_str::<String>(&out).unwrap(), s);
    let mut short = String::new();
    json_escape(&mut short, "\u{8}\u{c}\r\u{1f}");
    assert_eq!(short, "\\b\\f\\r\\u001f");
}

#[test]
fn objects_read_back() {
    assert_eq!(JsonObject::new().finish(), "{}");
    let mut j = JsonObject::new();
    j.text_field("a\"", "x\n");
    j.number_field("b", i64::MIN);
    j.count_field("c", 10);
    j.bool_field("d", false);
    j.bool_field("e", true);
    let text = j.finish();
    assert_eq!(
        text,
        "{\"a\\\"\":\"x\\n\",\"b\":-9223372036854775808,\"c\":10,\"d\":false,\"e\":true}"
    );
    let v: serde_json::Value = serde_json::from_str(&text).unwrap();
    assert_eq!(v["a\""], "x\n");
    assert_eq!(v["b"], i64::MIN);
    assert_eq!(v["e"], true);
}

#[test]
fn keys_of_long_and_wide_names() {
    // A name of 128 units fills the key; the 129th is cut.
    let exact = iface_key(&"b".repeat(128));
    assert_eq!(exact.0[..], utf16le(&"b".repeat(128))[..]);
    assert_eq!(iface_key(&"b".repeat(129)).0, exact.0);
    // A surrogate pair at the edge is cut in two.
    let cut = iface_key(&format!("{}\u{1f600}", "b".repeat(127)));
    assert_eq!(&cut.0[254..], &0xd83du16.to_le_bytes());
    let mut out = String::new();
    assert!(write_iface_bytes(&mut out, &cut.0, 256));
    assert_eq!(out, format!("{}\u{fffd}", "b".repeat(127)));
    assert_eq!(iface_key("").0, [0u8; 256]);
}

#[test]
fn descriptors_with_surrogates_decode_like_std() {
    let units: [u16; 8] = [0xd83d, 0xde00, 0xde00, 0x41, 0xd800, 0xd83d, 0xde00, 0xd800];
    let bytes: Vec<u8> = units.iter().flat_map(|u| u.to_le_bytes()).collect();
    let mut out = String::from("x");
    assert!(write_iface_bytes(&mut out, &bytes, bytes.len()));
    assert_eq!(out, format!("x{}", String::from_utf16_lossy(&units)));
    // An odd byte at the end is left out; a leading NUL leaves nothing.
    let mut odd = String::new();
    assert!(write_iface_bytes(&mut odd, &[0x41, 0, 0x42], 3));
    assert_eq!(odd, "A");
    let mut none = String::new();
    assert!(!write_iface_bytes(&mut none, &[0, 0, 0x41, 0], 4));
    assert!(!write_iface_bytes(&mut none, &[0x41], 1));
    assert_eq!(none, "");
}
