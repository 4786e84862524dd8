//! The DLT encoding.

use bindfetto::dlt::{
    encode, id4, DltState, MSIN_LEVEL_INFO, MSIN_TYPE_LOG, MSIN_VERBOSE, TYPE_INFO_STRG_UTF8,
};

#[test]
fn id4_pads_and_truncates() {
    assert_eq!(id4("BFTO"), *b"BFTO");
    assert_eq!(id4("AB"), [b'A', b'B', 0, 0]);
    assert_eq!(id4("TOOLONG"), *b"TOOL");
    assert_eq!(id4(""), [0, 0, 0, 0]);
}

#[test]
fn encode_round_trips_header_and_payload() {
    let mut out = Vec::new();
    encode(&mut out, 0x2a, 0x0001_0000, b"BFTO", b"BIND", b"BIND", "hi");

    assert_eq!(out[0], 0x37);
    assert_eq!(out[1], 0x2a);

    let len = u16::from_be_bytes([out[2], out[3]]) as usize;
    assert_eq!(len, out.len());
    assert_eq!(len, 31);

    assert_eq!(&out[4..8], b"BFTO");
    assert_eq!(u32::from_be_bytes([out[8], out[9], out[10], out[11]]), 0x0001_0000);

    assert_eq!(out[12], MSIN_VERBOSE | MSIN_TYPE_LOG | MSIN_LEVEL_INFO);
    assert_eq!(out[13], 1);
    assert_eq!(&out[14..18], b"BIND");
    assert_eq!(&out[18..22], b"BIND");

    assert_eq!(u32::from_be_bytes([out[22], out[23], out[24], out[25]]), TYPE_INFO_STRG_UTF8);
    assert_eq!(u16::from_be_bytes([out[26], out[27]]), 3);
    assert_eq!(&out[28..], b"hi\0");
}

#[test]
fn encode_clears_prior_contents() {
    let mut out = vec![0xff; 100];
    encode(&mut out, 0, 0, b"ECU1", b"AP01", b"CT01", "x");
    assert_eq!(u16::from_be_bytes([out[2], out[3]]) as usize, out.len());
}

#[test]
fn text_is_carried_as_utf8() {
    let mut out = Vec::new();
    encode(&mut out, 0, 0, b"ECU1", b"AP01", b"CT01", "é\u{1f600}");
    assert_eq!(&out[28..], "é\u{1f600}\0".as_bytes());
    assert_eq!(u16::from_be_bytes([out[26], out[27]]), 7);
}

#[test]
fn length_fields_hold_the_low_bits_of_a_long_message() {
    let mut out = Vec::new();
    let text = "x".repeat(70_000);
    encode(&mut out, 0, 0, b"ECU1", b"AP01", b"CT01", &text);
    assert_eq!(out.len(), 70_029);
    assert_eq!(u16::from_be_bytes([out[2], out[3]]), 70_029usize as u16);
    assert_eq!(u16::from_be_bytes([out[26], out[27]]), 70_001usize as u16);
}

#[test]
fn a_stream_counts_its_messages() {
    let mut s = DltState::new();
    assert_eq!(s.ecu, *b"BFTO");
    assert_eq!(s.apid, *b"BFTO");
    assert_eq!(s.ctid, *b"BIND");
    for i in 0..300u32 {
        let m = s.next(250_000, "t");
        assert_eq!(m[1], (i % 256) as u8);
        assert_eq!(&m[8..12], &2u32.to_be_bytes());
    }
    let late = s.next(u64::MAX, "t");
    assert_eq!(&late[8..12], &((u64::MAX / 100_000) as u32).to_be_bytes());
}
