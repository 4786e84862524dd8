//! End-to-end tests of the decoder against a small catalog.

use bindfetto::catalog::{CatalogError, Method};
use bindfetto::decode::parse_parcel;
use bindfetto::rendering::Piece;
use bindfetto::text::chars_of;
use bindfetto::{Arg, Catalog, Decoded, Decoder, Label, Record};

const CATALOG: &str = r#"{
  "android.app.IActivityManager": { "1": "getTasks", "7": "startActivity" },
  "android.app.ITaskStackListener": { "12": "onTaskMovedToFront" }
}"#;

fn decoder() -> Decoder {
    Decoder::from_catalog_json(CATALOG).expect("catalog parses")
}

fn text(d: Decoded<'_>) -> String {
    match d {
        Decoded::Borrowed(s) => s.to_string(),
        Decoded::Owned(r) => {
            let mut out = String::new();
            for piece in r.into_pieces() {
                match piece {
                    Piece::Text(s) => out.push_str(&s),
                    Piece::Single(bits) => out.push_str(&format!("{}", f32::from_bits(bits))),
                    Piece::Double(bits) => out.push_str(&format!("{}", f64::from_bits(bits))),
                }
            }
            out
        }
    }
}

#[test]
fn rewrites_known_method() {
    let d = decoder();
    let line = "com.example.app (1234) -> system_server (5678): android.app.IActivityManager.[code:7], 512B";
    assert_eq!(
        text(d.decode_line(line)),
        "com.example.app (1234) -> system_server (5678): android.app.IActivityManager.startActivity, 512B"
    );
}

#[test]
fn keeps_unknown_code() {
    let d = decoder();
    let line = "a (1) -> b (2): android.app.IActivityManager.[code:999], 8B";
    assert_eq!(text(d.decode_line(line)), line);
}

#[test]
fn keeps_unknown_interface() {
    let d = decoder();
    let line = "a (1) -> b (2): com.unknown.IThing.[code:1], 8B";
    assert_eq!(text(d.decode_line(line)), line);
}

#[test]
fn rewrite_is_prefix_agnostic() {
    let d = decoder();
    let ts = "18:12:09.861 system_server (658) -> com.android.systemui (1128): android.app.ITaskStackListener.[code:12], 2808B oneway";
    assert_eq!(
        text(d.decode_line(ts)),
        "18:12:09.861 system_server (658) -> com.android.systemui (1128): android.app.ITaskStackListener.onTaskMovedToFront, 2808B oneway"
    );
    let marked = "BINDFETTO com.example.app (1) -> system_server (2): android.app.IActivityManager.[code:1], 4B";
    assert_eq!(
        text(d.decode_line(marked)),
        "BINDFETTO com.example.app (1) -> system_server (2): android.app.IActivityManager.getTasks, 4B"
    );
}

#[test]
fn resolves_special_transaction() {
    let d = decoder();
    let line = "a (1) -> b (2): android.os.IServiceManager.[code:1599098439], 0B";
    assert_eq!(
        text(d.decode_line(line)),
        "a (1) -> b (2): android.os.IServiceManager.PING, 0B"
    );
}

#[test]
fn leaves_reply_and_nonaidl_untouched() {
    let d = decoder();
    let reply = "a (1) -> b (2): <reply code:0>, 4B";
    let nonaidl = "a (1) -> b (2): <non-aidl code:1599098439>, 0B";
    assert_eq!(text(d.decode_line(reply)), reply);
    assert_eq!(text(d.decode_line(nonaidl)), nonaidl);
}

#[test]
fn borrows_when_unchanged() {
    let d = decoder();
    let line = "nothing to decode here";
    assert!(matches!(d.decode_line(line), Decoded::Borrowed(_)));
}

#[test]
fn empty_catalog_still_resolves_special() {
    let d = Decoder::from_catalog_json("{}").unwrap();
    assert_eq!(d.method("whatever.IThing", 0x5f444d50), Some("DUMP"));
    assert_eq!(d.method("whatever.IThing", 7), None);
}

#[test]
fn parses_record() {
    let core = "com.example.app (1234) -> system_server (5678): android.app.IActivityManager.[code:7], 512B";
    let rec = Record::parse(core).expect("parses");
    assert_eq!(rec.src, "com.example.app");
    assert_eq!(rec.src_pid, 1234);
    assert_eq!(rec.dst, "system_server");
    assert_eq!(rec.dst_pid, 5678);
    assert_eq!(rec.size, 512);
    assert!(!rec.oneway);
    assert_eq!(
        rec.label,
        Label::Aidl {
            iface: "android.app.IActivityManager",
            code: 7
        }
    );
}

#[test]
fn parses_oneway_reply_and_nonaidl() {
    let rec = Record::parse("a (1) -> b (2): <reply code:0>, 4B").unwrap();
    assert_eq!(rec.label, Label::Reply { code: 0 });
    assert!(!rec.oneway);

    let rec = Record::parse("x (1) -> y (2): x.IY.[code:3], 8B oneway").unwrap();
    assert!(rec.oneway);
    assert_eq!(rec.label, Label::Aidl { iface: "x.IY", code: 3 });

    let rec = Record::parse("x (1) -> y (2): <non-aidl code:42>, 0B").unwrap();
    assert_eq!(rec.label, Label::NonAidl { code: 42 });
}

#[test]
fn parses_endpoint_paths_with_slashes() {
    let core =
        "/system/bin/surfaceflinger (421) -> system_server (658): android.gui.IFoo.[code:3], 88B";
    let rec = Record::parse(core).expect("parses");
    assert_eq!(rec.src, "/system/bin/surfaceflinger");
    assert_eq!(rec.src_pid, 421);
}

// Records that do not match.

#[test]
fn rejects_lines_of_another_shape() {
    for line in [
        "",
        "no comma here",
        "a (1) -> b (2): x.IY.[code:3], 8",
        "a (1) -> b (2): x.IY.[code:3], 8KB",
        "a (1) -> b (2) x.IY.[code:3], 8B",
        "a (1) b (2): x.IY.[code:3], 8B",
        "a -> b (2): x.IY.[code:3], 8B",
        "a (1) -> b (two): x.IY.[code:3], 8B",
        "a (1) -> b (2): .[code:3], 8B",
        "a (1) -> b (2): x.IY.[code:3, 8B",
        "a (1) -> b (2): x.IY.[code:4294967296], 8B",
        "a (1) -> b (2): <reply code:x>, 8B",
        "a (1) -> b (2): <non-aidl code:>, 8B",
    ] {
        assert_eq!(Record::parse(line), None, "{line}");
    }
}

#[test]
fn record_is_trimmed_and_takes_the_last_size() {
    let rec = Record::parse("  a, 5B (1) -> b (c) (2): x.IY.[code:+3], 8B oneway \n").unwrap();
    assert_eq!(rec.src, "a, 5B");
    assert_eq!(rec.dst, "b (c)");
    assert_eq!(rec.label, Label::Aidl { iface: "x.IY", code: 3 });
    assert_eq!(rec.size, 8);
    assert!(rec.oneway);
}

// Codes and interfaces in odd places.

#[test]
fn rewrites_every_known_token() {
    let d = decoder();
    assert_eq!(
        text(d.decode_line(
            "x android.app.IActivityManager.[code:1] y nope.[code:1] z ..android.app.IActivityManager.[code:7]!"
        )),
        "x android.app.IActivityManager.getTasks y nope.[code:1] z ..android.app.IActivityManager.startActivity!"
    );
}

#[test]
fn keeps_codes_that_are_none() {
    let d = decoder();
    for line in [
        "android.app.IActivityManager.[code:]",
        "android.app.IActivityManager.[code:7",
        "android.app.IActivityManager.[code:7x]",
        "android.app.IActivityManager.[code:+7]",
        "android.app.IActivityManager.[code:99999999999]",
        ".[code:1599098439]",
        "...[code:1599098439]",
        "é.[code:1599098439]",
    ] {
        assert_eq!(text(d.decode_line(line)), line);
        assert!(matches!(d.decode_line(line), Decoded::Borrowed(_)));
    }
    assert_eq!(
        text(d.decode_line("android.app.IActivityManager.[code:007]")),
        "android.app.IActivityManager.startActivity"
    );
}

#[test]
fn names_behind_other_text_are_found() {
    let d = decoder();
    assert_eq!(
        text(d.decode_line("é:android.app.IActivityManager.[code:7]é")),
        "é:android.app.IActivityManager.startActivityé"
    );
}

// Catalogs.

#[test]
fn catalog_knows_its_interfaces() {
    let c = Catalog::from_json(CATALOG).unwrap();
    assert_eq!(c.len(), 2);
    assert!(!c.is_empty());
    assert_eq!(c.method("android.app.IActivityManager", 7), Some("startActivity"));
    assert_eq!(c.method("android.app.IActivityManager", 8), None);
    assert_eq!(c.method("android.app.IActivity", 7), None);
    assert!(c.args("android.app.IActivityManager", 7).is_none());
    let e = Catalog::empty();
    assert_eq!(e.len(), 0);
    assert!(e.is_empty());
}

#[test]
fn catalog_entries_may_carry_arguments() {
    let c = Catalog::from_json(
        r#" {"x.IY": {"1": {"name": "go", "args": [{"name": "n", "type": "in int"},
             {"type": "String", "name": "sA", "more": 3}], "since": 4},
             "2": {"name": "stop"}, "3": {"name": "wait", "args": []}, "4": "bare"}} "#,
    )
    .unwrap();
    assert_eq!(c.method("x.IY", 1), Some("go"));
    let args = c.args("x.IY", 1).unwrap();
    assert_eq!(args.len(), 2);
    assert_eq!(args[0].name, "n");
    assert_eq!(args[0].ty, "in int");
    assert_eq!(args[1].name, "sA");
    assert_eq!(args[1].ty, "String");
    assert_eq!(c.args("x.IY", 2).map(|a| a.len()), Some(0));
    assert_eq!(c.args("x.IY", 3).map(|a| a.len()), Some(0));
    assert!(c.args("x.IY", 4).is_none());
    assert_eq!(c.method("x.IY", 4), Some("bare"));
}

#[test]
fn catalog_documents_of_another_shape_are_refused() {
    for json in [
        "",
        "[]",
        "{",
        "3",
        r#"{"x": 3}"#,
        r#"{"x": {"seven": "m"}}"#,
        r#"{"x": {"-1": "m"}}"#,
        r#"{"x": {"4294967296": "m"}}"#,
        r#"{"x": {}} trailing"#,
    ] {
        assert!(matches!(Catalog::from_json(json), Err(CatalogError::Document(_))), "{json}");
        assert!(Decoder::from_catalog_json(json).is_err());
    }
}

#[test]
fn catalog_entries_of_another_shape_are_named() {
    for entry in [
        "3",
        "null",
        "[]",
        "{}",
        r#"{"name": 3}"#,
        r#"{"args": []}"#,
        r#"{"name": "m", "args": 3}"#,
        r#"{"name": "m", "args": [3]}"#,
        r#"{"name": "m", "args": [{"name": "n"}]}"#,
        r#"{"name": "m", "args": [{"name": "n", "type": 3}]}"#,
    ] {
        let json = format!(
            r#"{{"a.IB": {{"1": {{"name": "ok"}}}}, "x.IY": {{"5": "ok", "9": {entry}}}}}"#
        );
        match Catalog::from_json(&json) {
            Err(CatalogError::Entry { iface, code }) => {
                assert_eq!(iface, "x.IY");
                assert_eq!(code, 9);
            }
            _ => panic!("{entry}"),
        }
    }
}

#[test]
fn a_document_without_method_objects_holds_names_alone() {
    for json in [
        r#"{"x": {"1": 5}}"#,
        r#"{"x": {"1": null}}"#,
        r#"{"x": {"1": ["m"]}}"#,
        r#"{"x": {"1": 5, "1": "m"}}"#,
        r#"{"x": {"1": "m", "2": 5}, "x": {"1": "m"}}"#,
    ] {
        assert!(matches!(Catalog::from_json(json), Err(CatalogError::Document(_))), "{json}");
    }
    // Of two names for one code the later one counts.
    let c = Catalog::from_json(r#"{"x": {"1": "a", "1": "b"}, "y": {}}"#).unwrap();
    assert_eq!(c.method("x", 1), Some("b"));
    assert_eq!(c.len(), 2);
    let c = Catalog::from_names(vec![("x".to_string(), vec![(7, "m".to_string())])]).unwrap();
    assert_eq!(c.method("x", 7), Some("m"));
    assert!(c.args("x", 7).is_none());
}

#[test]
fn catalog_is_built_from_plain_entries() {
    let method = |name: &str| Some(Method { name: name.to_string(), args: None });
    let c = Catalog::from_entries(vec![
        ("x".to_string(), vec![(1, method("a")), (1, method("b"))]),
        ("y".to_string(), vec![(2, method("c"))]),
        ("y".to_string(), vec![(3, method("d"))]),
    ])
    .unwrap();
    assert_eq!(c.len(), 2);
    assert_eq!(c.method("x", 1), Some("b"));
    assert_eq!(c.method("y", 2), None);
    assert_eq!(c.method("y", 3), Some("d"));
    let r = Catalog::from_entries(vec![
        ("x".to_string(), vec![(1, method("a"))]),
        ("y".to_string(), vec![(4, None), (5, None)]),
    ]);
    assert!(matches!(r, Err(CatalogError::Entry { iface, code: 4 }) if iface == "y"));
}

#[test]
fn parts_make_methods_and_arguments() {
    let s = |t: &str| Some(t.to_string());
    assert!(Arg::from_parts(s("n"), None).is_none());
    assert!(Arg::from_parts(None, s("int")).is_none());
    let a = Arg::from_parts(s("n"), s("int")).unwrap();
    assert_eq!((a.name.as_str(), a.ty.as_str()), ("n", "int"));
    assert!(Method::from_parts(None, None, None).is_none());
    assert!(Method::from_parts(None, s("m"), Some(None)).is_none());
    assert!(Method::from_parts(None, s("m"), Some(Some(vec![None]))).is_none());
    assert!(Method::from_parts(s("m"), None, None).unwrap().args.is_none());
    let m = Method::from_parts(None, s("m"), Some(Some(vec![Some(a)]))).unwrap();
    assert_eq!(m.name, "m");
    assert_eq!(m.args.unwrap()[0].name, "n");
}

// Captured parcels.

fn token(name: &str) -> String {
    let mut bytes = vec![0u8; 8];
    bytes.extend_from_slice(&0x5359_5354u32.to_le_bytes());
    let units: Vec<u16> = name.encode_utf16().collect();
    bytes.extend_from_slice(&(units.len() as u32).to_le_bytes());
    for u in &units {
        bytes.extend_from_slice(&u.to_le_bytes());
    }
    bytes.extend_from_slice(&[0, 0]);
    while bytes.len() % 4 != 0 {
        bytes.push(0);
    }
    bytes.iter().map(|b| format!("{b:02x}")).collect()
}

fn typed() -> Decoder {
    Decoder::from_catalog_json(
        r#"{"x.IY": {"1": {"name": "go", "args": [{"name": "n", "type": "int"},
            {"name": "x", "type": "float"}]}, "2": {"name": "stop", "args": []}, "3": "bare"}}"#,
    )
    .unwrap()
}

#[test]
fn renders_arguments_and_drops_the_parcel() {
    let d = typed();
    let line = format!(
        "a (1) -> b (2): x.IY.[code:1], 40B oneway parcel=40/40:{}070000000000003f tail",
        token("x.IY")
    );
    assert_eq!(
        text(d.decode_line(&line)),
        "a (1) -> b (2): x.IY.go(n=7, x=0.5), 40B oneway tail"
    );
}

#[test]
fn keeps_a_parcel_that_is_not_rendered() {
    let d = typed();
    let hex = token("x.IY");
    for (code, method) in [(2, "stop"), (3, "bare")] {
        let line = format!("x.IY.[code:{code}], 4B parcel=4/4:{hex}07000000");
        assert_eq!(
            text(d.decode_line(&line)),
            format!("x.IY.{method}, 4B parcel=4/4:{hex}07000000")
        );
    }
    assert_eq!(
        text(d.decode_line("x.IY.[code:1], 4B parcel=4/4:0011")),
        "x.IY.go, 4B parcel=4/4:0011"
    );
}

#[test]
fn renders_only_the_first_call() {
    let d = typed();
    let line = format!(
        "x.IY.[code:3] x.IY.[code:1] x.IY.[code:1] parcel=1/1:{}05000000",
        token("x.IY")
    );
    assert_eq!(
        text(d.decode_line(&line)),
        "x.IY.bare x.IY.go(n=5, …(truncated)) x.IY.go"
    );
}

#[test]
fn a_parcel_is_dropped_wherever_it_stands() {
    let d = typed();
    let hex = token("x.IY");
    let args = "050000000000003f";
    assert_eq!(
        text(d.decode_line(&format!("a parcel=32/32:{hex}{args} x.IY.[code:1] z"))),
        "a x.IY.go(n=5, x=0.5) z"
    );
    assert_eq!(
        text(d.decode_line(&format!("x.IY.[code:3] parcel=1/1:{hex}{args}, x.IY.[code:1]"))),
        "x.IY.bare, x.IY.go(n=5, x=0.5)"
    );
    assert_eq!(
        text(d.decode_line(&format!("x.IY.[code:1] parcel=1/1:{hex}{args}, x.IY.[code:3]"))),
        "x.IY.go(n=5, x=0.5), x.IY.bare"
    );
    // One that is not rendered stays.
    let harmless = "q parcel=1/1:0011 x.IY.[code:1]";
    assert_eq!(text(d.decode_line(harmless)), "q parcel=1/1:0011 x.IY.go");
}

#[test]
fn a_prefix_is_kept() {
    let d = typed();
    let hex = token("x.IY");
    for line in [
        "x.IY.[code:1], 4B".to_string(),
        format!("x.IY.[code:1], 4B parcel=4/4:{hex}05000000"),
        format!("a parcel=4/4:{hex}05000000 x.IY.[code:1]"),
        "nothing here".to_string(),
    ] {
        let decoded = text(d.decode_line(&line));
        for p in ["BINDFETTO ", "18:12:09.861 ", "07-01 12:00:00.000 1 2 I bindfetto: "] {
            assert_eq!(text(d.decode_line(&format!("{p}{line}"))), format!("{p}{decoded}"));
        }
    }
}

#[test]
fn parcel_tokens_are_located() {
    let at = |s: &str| parse_parcel(&chars_of(s)).map(|p| (p.start, p.end, p.bytes));
    assert_eq!(at("é parcel=2/9:0aFfz"), Some((1, 17, vec![0x0a, 0xff])));
    assert_eq!(at(" parcel=2/9:0aF"), Some((0, 15, vec![0x0a])));
    assert_eq!(at(" parcel=2/9"), None);
    assert_eq!(at("parcel=2/9:00"), None);
    assert_eq!(at(" parcel=:"), Some((0, 9, vec![])));
}
