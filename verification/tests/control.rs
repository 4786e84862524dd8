//! The control channel, the interface filter and the command lines.

use bindfetto::control::{clamp_cap, on_off, RuntimeState, Step};
use bindfetto::event::PARCEL_CEILING;
use bindfetto::filter::{after_op, split_names, FilterCtl, FilterOp, FilterOutcome};
use bindfetto::iface::iface_key;
use bindfetto::options::{
    arg_value, flag_on_off, iface_filters, DecodeCommand, Options, CONTROL_PORT, DLT_PORT,
};
use bindfetto::sink::Sink;
use bindfetto::text::chars_of;

fn args(list: &[&str]) -> Vec<String> {
    std::iter::once("bindfetto").chain(list.iter().copied()).map(String::from).collect()
}

fn strings(list: &[&str]) -> Vec<String> {
    list.iter().map(|s| s.to_string()).collect()
}

fn state() -> RuntimeState {
    Options::parse(&args(&[])).initial_state(FilterCtl::new())
}

fn reply(s: &mut RuntimeState, line: &str) -> String {
    match s.request(line) {
        Step::Reply(text) => text,
        _ => panic!("{line} asks for more"),
    }
}

fn set_filter(s: &mut RuntimeState, names: &[&str]) -> (String, bool) {
    s.filter_set(&strings(names), FilterOutcome::Applied)
}

// Requests that are answered at once.

#[test]
fn status_tells_everything() {
    let mut s = state();
    assert_eq!(
        reply(&mut s, "STATUS"),
        "capturing=on\ndiscovering=off\nsink=console\ndlt=off\ndlt_port=0\nerrors=off\n\
         parcel=off\nparcel_max=256\nfilter=0\ncaptured=0\nemitted=0\nEND\n"
    );
    s.capturing = false;
    s.discovering = true;
    s.sink = Sink::Quiet;
    s.dlt_on = true;
    s.dlt_port = 3490;
    s.errors_on = true;
    s.parcel_on = true;
    s.parcel_max = 12;
    s.captured = 34;
    s.emitted = 5;
    set_filter(&mut s, &["a", "b"]);
    assert_eq!(
        reply(&mut s, "  status now\r\n"),
        "capturing=off\ndiscovering=on\nsink=none\ndlt=on\ndlt_port=3490\nerrors=on\n\
         parcel=on\nparcel_max=12\nfilter=2\ncaptured=34\nemitted=5\nEND\n"
    );
}

#[test]
fn toggles_are_answered_ok() {
    let mut s = state();
    assert_eq!(reply(&mut s, "stop"), "OK\n");
    assert!(!s.capturing);
    assert_eq!(reply(&mut s, "Start"), "OK\n");
    assert!(s.capturing);
    assert_eq!(reply(&mut s, "DLT on"), "OK\n");
    assert!(s.dlt_on);
    assert_eq!(reply(&mut s, "dlt FALSE"), "OK\n");
    assert!(!s.dlt_on);
    assert_eq!(reply(&mut s, "TRACK 1"), "OK\n");
    assert!(s.discovering);
    assert_eq!(reply(&mut s, "TRACK 0"), "OK\n");
    assert!(!s.discovering);
    assert_eq!(reply(&mut s, "SINK Both"), "OK\n");
    assert_eq!(s.sink, Sink::Both);
}

#[test]
fn refused_requests_change_nothing() {
    let mut s = state();
    let before = reply(&mut s, "STATUS");
    for (line, answer) in [
        ("SINK nowhere", "ERR sink must be console|logcat|both|none\n"),
        ("SINK", "ERR sink must be console|logcat|both|none\n"),
        ("DLT", "ERR DLT needs on|off\n"),
        ("DLT maybe", "ERR DLT needs on|off\n"),
        ("ERRORS", "ERR ERRORS needs on|off\n"),
        ("TRACK on off", "ERR TRACK needs on|off\n"),
        ("PARCEL", "ERR PARCEL needs on|off or max <bytes>\n"),
        ("PARCEL on now", "ERR PARCEL needs on|off or max <bytes>\n"),
        ("PARCEL max", "ERR PARCEL max needs a byte count\n"),
        ("PARCEL MAX -1", "ERR PARCEL max needs a byte count\n"),
        ("PARCEL max 4294967296", "ERR PARCEL max needs a byte count\n"),
        ("PARCEL on", "ERR PARCEL needs an active interface filter (SET one first)\n"),
        ("frobnicate it", "ERR unknown command FROBNICATE\n"),
        ("STATUS\tnow", "ERR unknown command STATUS\tNOW\n"),
    ] {
        assert_eq!(reply(&mut s, line), answer, "{line}");
    }
    assert_eq!(reply(&mut s, "STATUS"), before);
}

#[test]
fn blank_lines_are_not_answered() {
    let mut s = state();
    assert!(matches!(s.request(""), Step::Silent));
    assert!(matches!(s.request(" \t "), Step::Silent));
}

#[test]
fn lists_end_with_end() {
    let mut s = state();
    assert_eq!(reply(&mut s, "LIST"), "END\n");
    assert_eq!(reply(&mut s, "GET"), "END\n");
    s.observed.insert("b");
    s.observed.insert("a");
    set_filter(&mut s, &["y", "x"]);
    assert_eq!(reply(&mut s, "LIST"), "a\nb\nEND\n");
    assert_eq!(reply(&mut s, "GET"), "y\nx\nEND\n");
}

// Requests that the kernel carries out.

#[test]
fn errors_are_switched_by_the_kernel() {
    let mut s = state();
    assert!(matches!(s.request("ERRORS on"), Step::Errors(true)));
    assert!(!s.errors_on);
    assert_eq!(s.errors_set(true, Err("no map".into())), "ERR no map\n");
    assert!(!s.errors_on);
    assert_eq!(s.errors_set(true, Ok(())), "OK\n");
    assert!(s.errors_on);
    assert!(matches!(s.request("errors OFF"), Step::Errors(false)));
}

#[test]
fn parcel_capture_needs_a_filter() {
    let mut s = state();
    assert_eq!(
        s.set_parcel(true, Ok(())),
        Err("PARCEL needs an active interface filter (SET one first)".to_string())
    );
    assert!(!s.parcel_on);
    assert_eq!(set_filter(&mut s, &["a.IB"]), ("OK 1\n".to_string(), false));
    assert!(matches!(s.request("PARCEL on"), Step::Parcel(true)));
    assert_eq!(s.parcel_set(true, Err("busy".into())), "ERR busy\n");
    assert!(!s.parcel_on);
    assert_eq!(s.parcel_set(true, Ok(())), "OK\n");
    assert!(s.parcel_on);
    // Clearing the filter takes parcel capture with it.
    match s.request("CLEAR") {
        Step::Filter(names) => {
            assert!(names.is_empty());
            assert_eq!(s.filter_set(&names, FilterOutcome::Applied), ("OK 0\n".to_string(), true));
        }
        _ => panic!(),
    }
    assert_eq!(s.set_parcel(false, Ok(())), Ok(()));
    assert!(!s.parcel_on);
}

#[test]
fn the_cap_is_clamped() {
    let mut s = state();
    assert!(matches!(s.request("PARCEL max 1000"), Step::ParcelMax(1000)));
    assert!(matches!(s.request("PARCEL max 99999"), Step::ParcelMax(30720)));
    assert_eq!(s.parcel_max_set(1000, Ok(())), "OK 1000\n");
    assert_eq!(s.parcel_max, 1000);
    assert_eq!(s.parcel_max_set(99999, Ok(())), "OK 30720\n");
    assert_eq!(s.parcel_max, PARCEL_CEILING as u32);
    assert_eq!(s.parcel_max_set(5, Err("no map".into())), "ERR no map\n");
    assert_eq!(s.set_parcel_max(5, Err("no map".into())), Err("no map".to_string()));
    assert_eq!(s.parcel_max, PARCEL_CEILING as u32);
    assert_eq!(s.set_parcel_max(5, Ok(())), Ok(5));
    assert_eq!(clamp_cap(u32::MAX), 30720);
}

#[test]
fn the_filter_is_replaced() {
    let mut s = state();
    let names = match s.request("SET  a.IB , ,a.IC,") {
        Step::Filter(names) => names,
        _ => panic!(),
    };
    assert_eq!(names, ["a.IB", "a.IC"]);
    assert_eq!(s.filter_set(&names, FilterOutcome::Applied), ("OK 2\n".to_string(), false));
    assert_eq!(s.filter.active, names);
    let next = strings(&["x", "y", "z"]);
    assert_eq!(
        s.filter_set(&next, FilterOutcome::InsertFailed(1)),
        ("ERR insert interface filter y\n".to_string(), false)
    );
    assert_eq!(s.filter.active, ["x"]);
    assert_eq!(
        s.filter_set(&next, FilterOutcome::SwitchFailed),
        ("ERR set FILTER_ON\n".to_string(), false)
    );
    assert_eq!(s.filter.active, next);
    match s.request("SET") {
        Step::Filter(names) => assert!(names.is_empty()),
        _ => panic!(),
    }
}

#[test]
fn the_plan_removes_the_old_and_inserts_the_new() {
    let mut f = FilterCtl::new();
    assert_eq!(f.apply(&strings(&["a", "b"]), FilterOutcome::Applied), Ok(()));
    let plan = f.plan(&strings(&["c"]));
    assert_eq!(plan.len(), 4);
    assert!(matches!(&plan[0], FilterOp::Remove(k) if k.0 == iface_key("a").0));
    assert!(matches!(&plan[1], FilterOp::Remove(k) if k.0 == iface_key("b").0));
    assert!(matches!(&plan[2], FilterOp::Insert(k) if k.0 == iface_key("c").0));
    assert!(matches!(&plan[3], FilterOp::Switch(true)));
    let off = f.plan(&Vec::new());
    assert_eq!(off.len(), 3);
    assert!(matches!(&off[2], FilterOp::Switch(false)));
}

#[test]
fn a_plan_leaves_no_trace_of_the_old_filter() {
    let mut wanted = std::collections::BTreeSet::new();
    let mut on = false;
    let mut f = FilterCtl::new();
    for names in [&["a", "b"][..], &["b", "c", "c"], &[], &["d"]] {
        let names = strings(names);
        for op in f.plan(&names) {
            match op {
                FilterOp::Remove(k) => {
                    wanted.remove(&k.0);
                }
                FilterOp::Insert(k) => {
                    wanted.insert(k.0);
                }
                FilterOp::Switch(s) => on = s,
            }
        }
        assert!(f.apply(&names, FilterOutcome::Applied).is_ok());
        let keys: std::collections::BTreeSet<[u8; 256]> =
            names.iter().map(|n| iface_key(n).0).collect();
        assert_eq!(wanted, keys);
        assert_eq!(on, !names.is_empty());
    }
}

#[test]
fn a_run_ends_with_the_first_failed_insert_or_the_switch() {
    let mut f = FilterCtl::new();
    assert!(f.apply(&strings(&["a"]), FilterOutcome::Applied).is_ok());
    let plan = f.plan(&strings(&["b", "c"]));
    let run = |oks: [bool; 4]| {
        let mut inserted = 0;
        for (op, ok) in plan.iter().zip(oks) {
            if let Some(outcome) = after_op(op, inserted, ok) {
                return outcome;
            }
            if let FilterOp::Insert(_) = op {
                inserted += 1;
            }
        }
        panic!()
    };
    assert_eq!(run([true, true, true, true]), FilterOutcome::Applied);
    assert_eq!(run([false, true, true, true]), FilterOutcome::Applied);
    assert_eq!(run([true, false, true, true]), FilterOutcome::InsertFailed(0));
    assert_eq!(run([false, true, false, false]), FilterOutcome::InsertFailed(1));
    assert_eq!(run([true, true, true, false]), FilterOutcome::SwitchFailed);
}

#[test]
fn a_session_shows_the_filter_that_was_set() {
    let mut s = state();
    set_filter(&mut s, &["old"]);
    let answer = |s: &mut RuntimeState, line: &str| match s.request(line) {
        Step::Filter(names) => s.filter_set(&names, FilterOutcome::Applied).0,
        Step::Reply(text) => text,
        _ => panic!(),
    };
    assert_eq!(answer(&mut s, "SET  b.IB,, a.IA \t"), "OK 2\n");
    assert_eq!(answer(&mut s, "GET"), "b.IB\na.IA\nEND\n");
    assert_eq!(answer(&mut s, "CLEAR"), "OK 0\n");
    assert_eq!(answer(&mut s, "GET"), "END\n");
}

#[test]
fn parcel_capture_goes_with_the_filter_however_it_is_lost() {
    let names = strings(&["x", "y"]);
    let none: Vec<String> = Vec::new();
    let after = |names: &Vec<String>, outcome: FilterOutcome, dropped: bool| {
        let mut s = state();
        set_filter(&mut s, &["a"]);
        assert_eq!(s.parcel_set(true, Ok(())), "OK\n");
        let (_, drop_parcel) = s.filter_set(names, outcome);
        assert_eq!(drop_parcel, s.filter.active.is_empty());
        if drop_parcel {
            let done = if dropped { Ok(()) } else { Err("busy".to_string()) };
            let _ = s.set_parcel(false, done);
        }
        s.parcel_on
    };
    for outcome in [FilterOutcome::Applied, FilterOutcome::SwitchFailed] {
        assert!(!after(&none, outcome, true));
        assert!(after(&names, outcome, true));
    }
    assert!(!after(&names, FilterOutcome::InsertFailed(0), true));
    assert!(after(&names, FilterOutcome::InsertFailed(1), true));
    // Only the kernel's refusal to switch it off keeps it on.
    assert!(after(&none, FilterOutcome::Applied, false));
}

#[test]
fn parcel_capture_needs_the_kernel_to_filter() {
    let refusal = "ERR PARCEL needs an active interface filter (SET one first)\n";
    let mut s = state();
    let names = strings(&["x", "y"]);
    // The names are there, but filtering was never switched on.
    s.filter_set(&names, FilterOutcome::SwitchFailed);
    assert!(!s.filter.on && !s.filtering());
    assert_eq!(reply(&mut s, "PARCEL on"), refusal);
    assert!(s.set_parcel(true, Ok(())).is_err());
    s.filter_set(&names, FilterOutcome::InsertFailed(1));
    assert_eq!(reply(&mut s, "PARCEL on"), refusal);
    s.filter_set(&names, FilterOutcome::Applied);
    assert!(s.filter.on && s.filtering());
    assert!(matches!(s.request("PARCEL on"), Step::Parcel(true)));
    // A failed switch leaves filtering as it was.
    s.filter_set(&Vec::new(), FilterOutcome::SwitchFailed);
    assert!(s.filter.on && !s.filtering());
    assert_eq!(reply(&mut s, "PARCEL on"), refusal);
}

#[test]
fn words_switch_on_and_off() {
    for w in ["on", "ON", "1", "True"] {
        assert_eq!(on_off(&chars_of(w)), Some(true));
    }
    for w in ["off", "0", "FALSE"] {
        assert_eq!(on_off(&chars_of(w)), Some(false));
    }
    for w in ["", "yes", " on", "oN "] {
        assert_eq!(on_off(&chars_of(w)), None);
    }
}

#[test]
fn lists_of_names_are_split() {
    assert_eq!(split_names(&chars_of("")), Vec::<String>::new());
    assert_eq!(split_names(&chars_of(" , ,, ")), Vec::<String>::new());
    assert_eq!(split_names(&chars_of("a,\tb c ,d")), ["a", "b c", "d"]);
}

// Command lines.

#[test]
fn options_have_defaults() {
    let o = Options::parse(&args(&[]));
    assert!(!o.version && !o.dlt_explicit && !o.errors && !o.include_replies);
    assert!(!o.parcel_requested && !o.parcel_enabled && !o.wants_dlt());
    assert_eq!(o.sink, Sink::Console);
    assert_eq!(o.jsonl, None);
    assert_eq!(o.control_port, None);
    assert_eq!(o.dlt_port, DLT_PORT);
    assert_eq!(o.parcel_cap, 256);
    assert!(o.ifaces.is_empty());
}

#[test]
fn options_are_read() {
    let o = Options::parse(&args(&[
        "--sink", "none", "--jsonl", "out.jsonl", "--control", "7000", "--dlt-serve", "7001",
        "--iface", "a,b", "--iface", " c ", "--errors", "--include-replies", "--parcel", "on",
        "--parcel-max", "99999", "-V",
    ]));
    assert!(o.version && o.dlt_explicit && o.errors && o.include_replies);
    assert!(o.parcel_requested && o.parcel_enabled && o.wants_dlt());
    assert_eq!(o.sink, Sink::Quiet);
    assert_eq!(o.jsonl.as_deref(), Some("out.jsonl"));
    assert_eq!(o.control_port, Some(7000));
    assert_eq!(o.dlt_port, 7001);
    assert_eq!(o.ifaces, ["a", "b", "c"]);
    assert_eq!(o.parcel_cap, 30720);
    let s = o.initial_state(FilterCtl::new());
    assert!(s.capturing && !s.discovering && s.dlt_on && s.errors_on && s.parcel_on);
    assert_eq!((s.dlt_port, s.parcel_max), (7001, 30720));
}

#[test]
fn options_fall_back() {
    let o = Options::parse(&args(&[
        "--sink", "loud", "--control", "x", "--dlt-serve", "--parcel", "--parcel-max", "many",
        "--errors", "off",
    ]));
    assert_eq!(o.sink, Sink::Console);
    assert_eq!(o.control_port, Some(CONTROL_PORT));
    assert_eq!(o.dlt_port, DLT_PORT);
    assert!(o.parcel_requested && !o.parcel_enabled);
    assert_eq!(o.parcel_cap, 256);
    assert!(!o.errors);
    let by_control = Options::parse(&args(&["--control"]));
    assert!(by_control.wants_dlt() && !by_control.dlt_explicit);
    let s = by_control.initial_state(FilterCtl::new());
    assert_eq!((s.dlt_on, s.dlt_port), (false, DLT_PORT));
    assert_eq!(Options::parse(&args(&["--control", "65536"])).control_port, Some(CONTROL_PORT));
    assert!(Options::parse(&args(&["--version"])).version);
}

#[test]
fn flags_and_values() {
    let a = args(&["--x", "1", "--x", "2", "--y"]);
    assert_eq!(arg_value(&a, "--x"), Some("1"));
    assert_eq!(arg_value(&a, "--y"), None);
    assert_eq!(arg_value(&a, "--z"), None);
    for (list, on) in [
        (&["--f"][..], true),
        (&["--f", "on"], true),
        (&["--f", "--g"], true),
        (&["--f", "off"], false),
        (&["--f", "false"], false),
        (&["--f", "0"], false),
        (&["--f", "OFF"], true),
        (&["--g"], false),
    ] {
        assert_eq!(flag_on_off(&args(list), "--f"), on, "{list:?}");
    }
    assert_eq!(iface_filters(&args(&["--iface", "--iface", "a", "--iface"])), ["--iface"]);
    assert_eq!(iface_filters(&args(&["a", "--iface"])), Vec::<String>::new());
}

#[test]
fn decoder_arguments() {
    let parse = |list: &[&str]| DecodeCommand::parse(&args(list));
    match parse(&["x", "--catalog", "c.json", "-", "-c", "d.json", "y"]) {
        DecodeCommand::Run { catalog, files } => {
            assert_eq!(catalog, "d.json");
            assert_eq!(files, ["x", "-", "y"]);
        }
        other => panic!("{other:?}"),
    }
    assert!(matches!(parse(&[]), DecodeCommand::NoCatalog));
    assert!(matches!(parse(&["x"]), DecodeCommand::NoCatalog));
    assert!(matches!(parse(&["-c"]), DecodeCommand::NoPath));
    assert!(matches!(parse(&["-c", "c", "--help", "-z"]), DecodeCommand::Help));
    assert!(matches!(parse(&["-h"]), DecodeCommand::Help));
    assert!(matches!(parse(&["-z", "-h"]), DecodeCommand::UnknownFlag(f) if f == "-z"));
    assert!(matches!(DecodeCommand::parse(&[]), DecodeCommand::NoCatalog));
}
