//! Events, names, lines, the clock and the emitter.

use bindfetto::clock::{clock_offset_ns, wall_clock, wall_ms, write_timestamp};
use bindfetto::control::RuntimeState;
use bindfetto::dlt::DltState;
use bindfetto::emit::{known_errno, Emission, Emitter, Look, ProcLook, LOG_MARKER, LOG_TAG};
use bindfetto::event::{
    read_item, write_event, write_record, TxEvent, BR_DEAD_REPLY, BR_FAILED_REPLY, EVENT_LEN,
    PAYLOAD_OFFSET,
};
use bindfetto::filter::FilterCtl;
use bindfetto::iface::iface_key;
use bindfetto::line::{format_core, format_error, format_event, push_cause, write_jsonl, write_label};
use bindfetto::names::{cmdline_name, comm_name, is_pid_fallback, resolve_name, NameCache};
use bindfetto::observed::Observed;
use bindfetto::options::Options;
use bindfetto::sink::Sink;
use bindfetto::{Label, Record};

fn event(iface: &str) -> TxEvent {
    let len = iface.encode_utf16().count() * 2;
    TxEvent {
        ts_ns: 1_234_567_890,
        src_pid: 12,
        src_tid: 13,
        dst_pid: 34,
        code: 7,
        flags: 0x10,
        reply: 0,
        data_size: 512,
        err_code: 0,
        debug_id: -9,
        iface_byte_len: len as u32,
        iface: iface_key(iface).0,
        src_comm: *b"sender\0\0\0\0\0\0\0\0\0\0",
    }
}

fn names() -> NameCache {
    let mut n = NameCache::new();
    n.ensure(12, Some(b"com.example.app\0--x\0"), None);
    n.ensure(34, None, Some("system_server\n"));
    n
}

fn state(sink: &str) -> RuntimeState {
    let args: Vec<String> = vec!["bindfetto".into(), "--sink".into(), sink.into()];
    Options::parse(&args).initial_state(FilterCtl::new())
}

// The ring.

#[test]
fn events_cross_the_ring() {
    let ev = event("a.IB");
    let item = write_event(&ev);
    assert_eq!(item.len(), EVENT_LEN);
    assert_eq!(item[0..8], 1_234_567_890u64.to_le_bytes());
    assert_eq!(item[40..44], (-9i32).to_le_bytes());
    assert_eq!(&item[48..52], &[b'a', 0, b'.', 0]);
    assert_eq!(&item[304..310], b"sender");
    let (back, payload) = read_item(&item).unwrap();
    assert!(payload.is_none());
    assert_eq!(back.debug_id, -9);
    assert_eq!(back.iface, ev.iface);
    assert_eq!(back.src_comm, ev.src_comm);
    assert_eq!(write_event(&back), item);
    assert!(read_item(&item[..EVENT_LEN - 1]).is_none());
}

#[test]
fn records_cross_the_ring() {
    let ev = event("a.IB");
    let item = write_record(&ev, &[1, 2, 3]);
    assert_eq!(item.len(), PAYLOAD_OFFSET + 3);
    let (back, payload) = read_item(&item).unwrap();
    assert_eq!(write_event(&back), write_event(&ev));
    assert_eq!(payload, Some(&[1u8, 2, 3][..]));
    // Never more than the item holds, nor than its length field says.
    assert_eq!(read_item(&item[..PAYLOAD_OFFSET + 2]).unwrap().1, Some(&[1u8, 2][..]));
    assert_eq!(read_item(&item[..EVENT_LEN + 1]).unwrap().1, Some(&[][..]));
    let mut longer = item.clone();
    longer.push(4);
    assert_eq!(read_item(&longer).unwrap().1, Some(&[1u8, 2, 3][..]));
    assert_eq!(read_item(&write_record(&ev, &[])).unwrap().1, Some(&[][..]));
}

#[test]
fn flags_of_an_event() {
    let mut ev = event("a.IB");
    assert!(!ev.is_oneway() && !ev.is_error());
    ev.flags = 0x11;
    ev.err_code = BR_DEAD_REPLY;
    assert!(ev.is_oneway() && ev.is_error());
}

// Names.

#[test]
fn names_come_from_proc() {
    assert_eq!(resolve_name(5, Some(b"app\0arg"), Some("task\n")), "app");
    assert_eq!(resolve_name(5, Some(b"app"), None), "app");
    assert_eq!(resolve_name(5, Some(b"\0x"), Some("  task \n")), "  task");
    assert_eq!(resolve_name(5, None, Some(" \n")), "pid:5");
    assert_eq!(resolve_name(5, Some(b""), None), "pid:5");
    assert_eq!(cmdline_name(b"a\xffb\0c").as_deref(), Some("a\u{fffd}b"));
    assert_eq!(cmdline_name("é".as_bytes()).as_deref(), Some("é"));
    assert_eq!(cmdline_name(b"\xff").as_deref(), Some("\u{fffd}"));
    assert_eq!(cmdline_name(b""), None);
    assert_eq!(comm_name(b"0123456789abcdef").as_deref(), Some("0123456789abcdef"));
    assert_eq!(comm_name(&[0; 16]), None);
}

#[test]
fn fallbacks_are_told() {
    assert!(is_pid_fallback("pid:5", 5));
    assert!(is_pid_fallback("pid:+05", 5));
    assert!(!is_pid_fallback("pid:5", 6));
    assert!(!is_pid_fallback("pid:5x", 5));
    assert!(!is_pid_fallback("pid:", 5));
    assert!(!is_pid_fallback("xpid:5", 5));
}

#[test]
fn a_fallback_is_retried_and_a_name_is_kept() {
    let mut n = NameCache::new();
    assert_eq!(n.lookup(5), "?");
    assert!(n.is_unresolved(5));
    n.ensure(5, None, None);
    assert_eq!(n.lookup(5), "pid:5");
    assert!(n.is_unresolved(5));
    n.ensure(5, Some(b"late"), None);
    assert_eq!(n.lookup(5), "late");
    assert!(!n.is_unresolved(5));
    n.ensure(5, Some(b"other"), None);
    assert_eq!(n.lookup(5), "late");
}

#[test]
fn the_captured_task_name_stands_in_for_a_process_that_is_gone() {
    let comm = b"worker\0\0\0\0\0\0\0\0\0\0";
    let mut n = NameCache::new();
    n.ensure_with_comm(5, comm, None, None);
    assert_eq!(n.lookup(5), "worker");
    n.ensure_with_comm(6, comm, Some(b"real"), None);
    assert_eq!(n.lookup(6), "real");
    n.ensure_with_comm(7, &[0; 16], None, None);
    assert_eq!(n.lookup(7), "pid:7");
}

// Lines.

#[test]
fn transaction_lines() {
    let n = names();
    let mut ev = event("android.app.IActivityManager");
    let mut out = String::from("> ");
    format_core(&mut out, &ev, &n);
    assert_eq!(
        out,
        "> com.example.app (12) -> system_server (34): android.app.IActivityManager.[code:7], 512B"
    );
    ev.flags = 1;
    ev.iface_byte_len = 0;
    let mut out = String::new();
    format_core(&mut out, &ev, &n);
    assert_eq!(
        out,
        "com.example.app (12) -> system_server (34): <non-aidl code:7>, 512B oneway"
    );
    ev.reply = 1;
    ev.dst_pid = 99;
    let mut out = String::new();
    write_label(&mut out, &ev, &n);
    assert_eq!(out, "com.example.app (12) -> ? (99): <reply code:7>");
}

#[test]
fn lines_parse_back() {
    let n = names();
    let mut ev = event("a.b.IC");
    ev.flags = 1;
    let mut line = String::new();
    format_core(&mut line, &ev, &n);
    let rec = Record::parse(&line).unwrap();
    assert_eq!((rec.src, rec.src_pid), ("com.example.app", 12));
    assert_eq!((rec.dst, rec.dst_pid), ("system_server", 34));
    assert_eq!(rec.label, Label::Aidl { iface: "a.b.IC", code: 7 });
    assert_eq!((rec.size, rec.oneway), (512, true));
}

#[test]
fn error_lines() {
    let n = names();
    let mut ev = event("a.IB");
    ev.err_code = BR_FAILED_REPLY;
    let mut out = String::new();
    format_error(&mut out, &ev, &n);
    let base = "com.example.app (12) -> system_server (34): a.IB.[code:7] !! BR_FAILED_REPLY";
    assert_eq!(out, base);
    assert_eq!(format_event(&ev, Some(&[1]), &n, None), base);
    assert_eq!(
        format_event(&ev, None, &n, Some(-28)),
        format!("{base} (target buffer full, -28)")
    );
    assert_eq!(format_event(&ev, None, &n, Some(-999)), format!("{base} (errno -999)"));
    let mut none = String::new();
    push_cause(&mut none, None);
    assert_eq!(none, "");
}

#[test]
fn a_captured_parcel_ends_the_line() {
    let line = format_event(&event("a.IB"), Some(&[0xab, 0x01]), &names(), Some(-28));
    assert_eq!(
        line,
        "com.example.app (12) -> system_server (34): a.IB.[code:7], 512B parcel=2/512:ab01"
    );
}

#[test]
fn json_lines() {
    let mut n = names();
    n.ensure(56, Some(b"q\"\\\n"), None);
    let mut ev = event("a.IB");
    ev.src_pid = 56;
    assert_eq!(
        write_jsonl(&ev, Some(&[0xab]), &n, None, 1_000_000_000_000_000_000),
        "{\"ts_ms\":1000000001234,\"src\":\"q\\\"\\\\\\n\",\"src_pid\":56,\
         \"dst\":\"system_server\",\"dst_pid\":34,\"code\":7,\"size\":512,\"oneway\":false,\
         \"reply\":false,\"iface\":\"a.IB\",\"parcel_len\":1,\"parcel\":\"ab\"}"
    );
    ev.err_code = BR_DEAD_REPLY;
    ev.iface_byte_len = 0;
    ev.reply = 2;
    ev.flags = 1;
    let line = write_jsonl(&ev, None, &n, Some(-3), 0);
    assert!(line.ends_with(
        ",\"oneway\":true,\"reply\":true,\"error\":\"BR_DEAD_REPLY\",\"errno\":-3,\
         \"reason\":\"dead node\"}"
    ));
    let line = write_jsonl(&ev, None, &n, Some(5), 0);
    assert!(line.ends_with("\"error\":\"BR_DEAD_REPLY\",\"errno\":5}"));
    assert!(serde_json::from_str::<serde_json::Value>(&line).unwrap().is_object());
}

// The clock.

fn clock(ts_ns: u64, offset_ns: i128, east: i32) -> String {
    let mut out = String::from("@");
    write_timestamp(&mut out, ts_ns, offset_ns, east);
    out
}

#[test]
fn timestamps_are_local_times_of_day() {
    let day = 86_400i128 * 1_000_000_000;
    assert_eq!(clock(0, 0, 0), "@00:00:00.000");
    assert_eq!(clock(1_234_567_890, 19_000 * day, 0), "@00:00:01.234");
    assert_eq!(clock(1_999_999_999, 19_000 * day, -2), "@23:59:59.999");
    assert_eq!(clock(45_296_007_000_000, 19_000 * day, 3600), "@13:34:56.007");
    assert_eq!(clock(0, 0, -86_399), "@00:00:01.000");
    assert_eq!(clock(0, 0, 86_399), "@23:59:59.000");
}

#[test]
fn timestamps_outside_the_calendar_are_dashes() {
    let none = "@--:--:--.---";
    let sec = 1_000_000_000i128;
    assert_eq!(clock(0, 8_210_266_876_799 * sec, 0), "@23:59:59.000");
    assert_eq!(clock(0, 8_210_266_876_800 * sec, 0), none);
    assert_eq!(clock(0, -8_334_601_228_800 * sec, 0), "@00:00:00.000");
    assert_eq!(clock(0, -8_334_601_228_801 * sec, 0), none);
    // The time of day is there even where the local date is not.
    assert_eq!(clock(0, 8_210_266_876_799 * sec, 3600), "@00:59:59.000");
    assert_eq!(clock(0, -8_334_601_228_800 * sec, -3600), "@23:00:00.000");
    // A time before the epoch has no fraction of a second.
    assert_eq!(clock(0, -5 * sec, 0), "@23:59:55.000");
    assert_eq!(clock(0, -5 * sec + 1, 0), none);
    assert_eq!(clock(0, 0x1_0000_0000_0000_0000 * sec, 0), "@00:00:00.000");
}

#[test]
fn wall_time_is_rounded_toward_zero() {
    assert_eq!(wall_clock(2_500_000_000, 0), (2, 500_000_000));
    assert_eq!(wall_clock(0, -2_500_000_000), (-2, (-500_000_000i32) as u32));
    assert_eq!(wall_ms(1_999_999, 0), 1);
    assert_eq!(wall_ms(0, -1_999_999), -1);
    assert_eq!(clock_offset_ns(10, 5, 3, 7), 6_999_999_998);
    assert_eq!(clock_offset_ns(-1, 0, i64::MAX, 0), -1_000_000_000 - i64::MAX as i128 * 1_000_000_000);
}

// The emitter.

fn nothing() -> Look {
    let none = || ProcLook { cmdline: None, task: None };
    Look { src: none(), dst: none() }
}

/// Emits an event whose names are known.
fn emit(e: &mut Emitter, s: &mut RuntimeState, ev: &TxEvent) -> Emission {
    e.emit(s, &mut names(), ev, None, None, &nothing(), &nothing(), 0, 0)
}

#[test]
fn lines_go_to_the_sinks_that_are_on() {
    let ev = event("a.IB");
    let line = format_event(&ev, None, &names(), None);
    let mut e = Emitter { dlt: None, jsonl: false };
    let out = emit(&mut e, &mut state("both"), &ev);
    assert_eq!(out.console, Some(format!("00:00:01.234 {line}")));
    assert_eq!(out.logcat, Some(format!("BINDFETTO {line}")));
    assert_eq!(out.dlt, None);
    assert_eq!(out.json, None);
    let out = emit(&mut e, &mut state("console"), &ev);
    assert!(out.console.is_some() && out.logcat.is_none());
    let out = emit(&mut e, &mut state("logcat"), &ev);
    assert!(out.console.is_none() && out.logcat.is_some());
    let out = emit(&mut e, &mut state("none"), &ev);
    assert!(out.console.is_none() && out.logcat.is_none());
    assert_eq!((LOG_TAG, LOG_MARKER), ("bindfetto", "BINDFETTO"));
}

#[test]
fn dlt_messages_are_sent_while_streaming_is_on() {
    let ev = event("a.IB");
    let mut s = state("none");
    let mut e = Emitter { dlt: Some(DltState::new()), jsonl: false };
    assert_eq!(emit(&mut e, &mut s, &ev).dlt, None);
    s.dlt_on = true;
    let m = emit(&mut e, &mut s, &ev).dlt.unwrap();
    assert_eq!(m[1], 0);
    assert_eq!(&m[8..12], &12_345u32.to_be_bytes());
    let text = format!("BINDFETTO {}\0", format_event(&ev, None, &names(), None));
    assert_eq!(&m[28..], text.as_bytes());
    assert_eq!(emit(&mut e, &mut s, &ev).dlt.unwrap()[1], 1);
}

#[test]
fn interfaces_are_observed_while_discovering() {
    let mut s = state("none");
    let mut e = Emitter { dlt: None, jsonl: false };
    emit(&mut e, &mut s, &event("x.IA"));
    assert!(s.observed.items().is_empty());
    s.discovering = true;
    for iface in ["x.IB", "x.IA", "é", "x.IB", "x.I", ""] {
        emit(&mut e, &mut s, &event(iface));
    }
    let mut failed = event("x.IZ");
    failed.err_code = BR_DEAD_REPLY;
    emit(&mut e, &mut s, &failed);
    assert_eq!(s.observed.items(), &["x.I", "x.IA", "x.IB", "é"]);
}

#[test]
fn a_stopped_capture_puts_nothing_out() {
    let mut s = state("both");
    s.capturing = false;
    s.discovering = true;
    s.dlt_on = true;
    let mut e = Emitter { dlt: Some(DltState::new()), jsonl: true };
    let mut n = NameCache::new();
    let look = Look {
        src: ProcLook { cmdline: Some(b"app".to_vec()), task: None },
        dst: ProcLook { cmdline: None, task: Some("task".into()) },
    };
    let out = e.emit(&mut s, &mut n, &event("a.IB"), Some(&[1]), None, &look, &look, 0, 0);
    assert!(out.console.is_none() && out.logcat.is_none());
    assert!(out.dlt.is_none() && out.json.is_none());
    assert_eq!((s.captured, s.emitted), (1, 0));
    assert!(s.observed.items().is_empty());
    assert!(n.is_unresolved(12) && n.lookup(12) == "?");
    assert_eq!(e.dlt.as_ref().unwrap().counter, 0);
    // Started again, the same event comes out everywhere.
    s.capturing = true;
    let out = e.emit(&mut s, &mut n, &event("a.IB"), Some(&[1]), None, &look, &look, 0, 0);
    assert!(out.console.is_some() && out.logcat.is_some());
    assert!(out.dlt.is_some() && out.json.is_some());
    assert_eq!((s.captured, s.emitted), (2, 1));
    assert_eq!(s.observed.items(), &["a.IB"]);
    assert_eq!((n.lookup(12), n.lookup(34)), ("app", "task"));
}

#[test]
fn names_are_looked_at_again_for_the_json_object() {
    let mut s = state("logcat");
    let mut e = Emitter { dlt: None, jsonl: true };
    let mut n = NameCache::new();
    let mut ev = event("a.IB");
    ev.src_comm = [0; 16];
    let later = Look {
        src: ProcLook { cmdline: Some(b"late".to_vec()), task: None },
        dst: ProcLook { cmdline: None, task: None },
    };
    let out = e.emit(&mut s, &mut n, &ev, None, None, &nothing(), &later, 0, 0);
    assert!(out.logcat.unwrap().starts_with("BINDFETTO pid:12 (12) -> pid:34 (34): "));
    assert!(out.json.unwrap().contains("\"src\":\"late\""));
    assert_eq!(n.lookup(12), "late");
}

#[test]
fn a_failure_is_emitted_with_its_cause() {
    let mut s = state("logcat");
    let mut e = Emitter { dlt: None, jsonl: false };
    let mut ev = event("a.IB");
    let mut line = |ev: &TxEvent, found: Option<i32>| {
        e.emit(&mut s, &mut names(), ev, None, found, &nothing(), &nothing(), 0, 0).logcat.unwrap()
    };
    assert!(line(&ev, Some(-28)).ends_with("512B"));
    ev.err_code = BR_FAILED_REPLY;
    assert!(line(&ev, Some(-28)).ends_with(" !! BR_FAILED_REPLY (target buffer full, -28)"));
    assert!(line(&ev, Some(0)).ends_with(" !! BR_FAILED_REPLY"));
    assert!(line(&ev, None).ends_with(" !! BR_FAILED_REPLY"));
}

#[test]
fn observed_items_are_kept_in_the_order_of_std() {
    let items = ["b", "a", "", "ab", "b", "\u{10000}", "\u{ffff}", "aa", "a"];
    let mut o = Observed::new();
    let mut set = std::collections::BTreeSet::new();
    for i in items {
        assert_eq!(o.insert(i), set.insert(i.to_string()));
    }
    let want: Vec<String> = set.into_iter().collect();
    assert_eq!(o.items(), &want);
}

#[test]
fn events_are_counted_behind_the_gate() {
    let mut s = state("none");
    assert!(s.count_event());
    s.capturing = false;
    assert!(!s.count_event());
    assert_eq!((s.captured, s.emitted), (2, 1));
    s.capturing = true;
    s.captured = u64::MAX;
    assert!(s.count_event());
    assert_eq!((s.captured, s.emitted), (0, 2));
}

#[test]
fn an_errno_of_zero_tells_nothing() {
    assert_eq!(known_errno(Some(0)), None);
    assert_eq!(known_errno(Some(-28)), Some(-28));
    assert_eq!(known_errno(None), None);
}

#[test]
fn sinks_have_names_and_numbers() {
    for (sink, name, number) in [
        (Sink::Console, "console", 0),
        (Sink::Logcat, "logcat", 1),
        (Sink::Both, "both", 2),
        (Sink::Quiet, "none", 3),
    ] {
        assert_eq!(sink.name(), name);
        assert_eq!(Sink::from_name(name), Some(sink));
        assert_eq!(sink.as_u8(), number);
        assert_eq!(Sink::from_u8(number), sink);
    }
    assert_eq!(Sink::from_name("Console"), None);
    assert_eq!(Sink::from_u8(200), Sink::Console);
}
