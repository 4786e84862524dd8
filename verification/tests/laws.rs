//! What holds across the modules, on concrete values.

use bindfetto::emit::{Emission, Emitter, Look, ProcLook};
use bindfetto::event::{TxEvent, BR_FAILED_REPLY};
use bindfetto::filter::FilterCtl;
use bindfetto::iface::iface_key;
use bindfetto::line::{format_event, write_jsonl};
use bindfetto::names::NameCache;
use bindfetto::options::Options;
use bindfetto::parcel::render_args;
use bindfetto::probe::on_return;
use bindfetto::rendering::{Piece, Rendering};
use bindfetto::{Arg, Decoded, Decoder};

fn event(iface: &str) -> TxEvent {
    TxEvent {
        ts_ns: 5_000_000_000,
        src_pid: 12,
        src_tid: 13,
        dst_pid: 34,
        code: 1,
        flags: 1,
        reply: 0,
        data_size: 64,
        err_code: 0,
        debug_id: 77,
        iface_byte_len: (iface.encode_utf16().count() * 2) as u32,
        iface: iface_key(iface).0,
        src_comm: [0; 16],
    }
}

fn names() -> NameCache {
    let mut n = NameCache::new();
    n.ensure(12, Some(b"com.example.app"), None);
    n.ensure(34, Some(b"system_server"), None);
    n
}

fn parcel(iface: &str) -> Vec<u8> {
    let mut p = vec![0u8; 8];
    p.extend_from_slice(&0x5359_5354u32.to_le_bytes());
    put_string16(&mut p, iface);
    p.extend_from_slice(&(-3i32).to_le_bytes());
    put_string16(&mut p, "scr");
    p.extend_from_slice(&1i32.to_le_bytes());
    p
}

fn put_string16(out: &mut Vec<u8>, s: &str) {
    let units: Vec<u16> = s.encode_utf16().collect();
    out.extend_from_slice(&(units.len() as u32).to_le_bytes());
    for u in units {
        out.extend_from_slice(&u.to_le_bytes());
    }
    out.extend_from_slice(&[0, 0]);
    while out.len() % 4 != 0 {
        out.push(0);
    }
}

fn typed_args() -> Vec<Arg> {
    vec![
        Arg { name: "flags".into(), ty: "int".into() },
        Arg { name: "tag".into(), ty: "@nullable String".into() },
        Arg { name: "on".into(), ty: "boolean".into() },
    ]
}

fn decoder() -> Decoder {
    Decoder::from_catalog_json(
        r#"{"x.IPower": {"1": {"name": "acquire", "args": [
            {"name": "flags", "type": "int"}, {"name": "tag", "type": "@nullable String"},
            {"name": "on", "type": "boolean"}]}}}"#,
    )
    .unwrap()
}

fn pieces_text(pieces: Vec<Piece>) -> String {
    pieces
        .into_iter()
        .map(|p| match p {
            Piece::Text(s) => s,
            other => panic!("{other:?}"),
        })
        .collect()
}

fn text(d: Decoded<'_>) -> String {
    match d {
        Decoded::Borrowed(s) => s.to_string(),
        Decoded::Owned(r) => pieces_text(r.into_pieces()),
    }
}

#[test]
fn a_logged_call_decodes_into_its_method_and_arguments() {
    let bytes = parcel("x.IPower");
    let line = format_event(&event("x.IPower"), Some(&bytes), &names(), None);
    assert_eq!(
        text(decoder().decode_line(&line)),
        "com.example.app (12) -> system_server (34): \
         x.IPower.acquire(flags=-3, tag=\"scr\", on=true), 64B oneway"
    );
    let bare = format_event(&event("x.IPower"), None, &names(), None);
    assert_eq!(
        text(decoder().decode_line(&bare)),
        "com.example.app (12) -> system_server (34): x.IPower.acquire, 64B oneway"
    );
}

#[test]
fn every_sink_decodes_alike() {
    let args: Vec<String> = ["bindfetto", "--sink", "both"].iter().map(|s| s.to_string()).collect();
    let mut state = Options::parse(&args).initial_state(FilterCtl::new());
    let mut emitter = Emitter { dlt: None, jsonl: false };
    let bytes = parcel("x.IPower");
    let ev = event("x.IPower");
    let none = || ProcLook { cmdline: None, task: None };
    let look = Look { src: none(), dst: none() };
    let out: Emission = emitter.emit(
        &mut state, &mut names(), &ev, Some(&bytes), None, &look, &look, 0, 3600,
    );
    let d = decoder();
    let bare = format_event(&event("x.IPower"), Some(&bytes), &names(), None);
    let decoded = text(d.decode_line(&bare));
    assert_eq!(text(d.decode_line(&out.console.unwrap())), format!("01:00:05.000 {decoded}"));
    assert_eq!(text(d.decode_line(&out.logcat.unwrap())), format!("BINDFETTO {decoded}"));
}

#[test]
fn a_capture_that_ends_early_says_so() {
    let whole = parcel("x.IPower");
    let render = |n: usize| {
        let mut out = Rendering::new();
        let ok = render_args(&mut out, &typed_args(), &whole[..n]);
        ok.then(|| pieces_text(out.into_pieces()))
    };
    let args_at = whole.len() - 20;
    assert_eq!(
        render(whole.len()).as_deref(),
        Some("(flags=-3, tag=\"scr\", on=true)")
    );
    for n in 0..16 {
        assert_eq!(render(n), None);
    }
    for n in 16..whole.len() {
        let want = if n < args_at + 4 {
            "(…(truncated))"
        } else if n < args_at + 16 {
            "(flags=-3, …(truncated))"
        } else {
            "(flags=-3, tag=\"scr\", …(truncated))"
        };
        assert_eq!(render(n).as_deref(), Some(want), "{n}");
    }
}

#[test]
fn different_names_have_different_keys() {
    let all = ["", "a", "b", "ab", "é", "a.IB", "a.IC", "\u{1f600}", "\u{1f601}"];
    for a in all {
        for b in all {
            assert_eq!(iface_key(a).0 == iface_key(b).0, a == b);
        }
    }
}

#[test]
fn a_json_event_is_one_line() {
    let mut n = NameCache::new();
    n.ensure(12, Some(b"new\nline\r\x01"), None);
    n.ensure(34, Some("é\"\\".as_bytes()), None);
    let mut ev = event("x.I\nY");
    ev.err_code = BR_FAILED_REPLY;
    let line = write_jsonl(&ev, Some(&[1, 2]), &n, Some(-22), 0);
    assert!(line.chars().all(|c| c >= ' '));
    let v: serde_json::Value = serde_json::from_str(&line).unwrap();
    assert_eq!(v["src"], "new\nline\r\u{1}");
    assert_eq!(v["dst"], "é\"\\");
    assert_eq!(v["iface"], "x.I\nY");
    assert_eq!(v["reason"], "invalid transaction");
    assert_eq!(v["errno"], -22);
    assert_eq!(v["parcel"], "0102");
    assert_eq!(v["ts_ms"], 5000);
    assert_eq!(v["oneway"], true);
}

#[test]
fn a_failure_names_the_call_and_comes_once() {
    let last = event("x.IPower");
    let ev = on_return(true, BR_FAILED_REPLY, Some(&last), (12 << 32) | 13, 9).unwrap();
    assert_eq!(
        format_event(&ev, None, &names(), Some(-28)),
        "com.example.app (12) -> system_server (34): x.IPower.[code:1] !! BR_FAILED_REPLY \
         (target buffer full, -28)"
    );
    // Forgotten once it was reported.
    assert!(on_return(true, BR_FAILED_REPLY, None, (12 << 32) | 13, 10).is_none());
}
