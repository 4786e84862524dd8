//! The parcel reader and the rendering of arguments.

use bindfetto::parcel::{base_type, render_args, round4, ParcelReader, HEADER_MAGIC, MAX_SHOWN};
use bindfetto::rendering::{Piece, Rendering};
use bindfetto::Arg;

// Parcel builders: an interface token and marshalled values.

fn put_string16(out: &mut Vec<u8>, s: &str) {
    let units: Vec<u16> = s.encode_utf16().collect();
    out.extend_from_slice(&(units.len() as u32).to_le_bytes());
    for u in &units {
        out.extend_from_slice(&u.to_le_bytes());
    }
    out.extend_from_slice(&0u16.to_le_bytes());
    while out.len() % 4 != 0 {
        out.push(0);
    }
}

fn parcel(descriptor: &str, body: &[u8]) -> Vec<u8> {
    let mut p = Vec::new();
    p.extend_from_slice(&0u32.to_le_bytes());
    p.extend_from_slice(&0u32.to_le_bytes());
    p.extend_from_slice(&HEADER_MAGIC.to_le_bytes());
    put_string16(&mut p, descriptor);
    p.extend_from_slice(body);
    p
}

fn arg(name: &str, ty: &str) -> Arg {
    Arg { name: name.into(), ty: ty.into() }
}

fn text(pieces: Vec<Piece>) -> String {
    let mut out = String::new();
    for piece in pieces {
        match piece {
            Piece::Text(s) => out.push_str(&s),
            Piece::Single(bits) => out.push_str(&format!("{}", f32::from_bits(bits))),
            Piece::Double(bits) => out.push_str(&format!("{}", f64::from_bits(bits))),
        }
    }
    out
}

fn render(args: &[Arg], body: &[u8]) -> Option<String> {
    let mut out = Rendering::new();
    if render_args(&mut out, args, &parcel("test.IFoo", body)) {
        Some(text(out.into_pieces()))
    } else {
        None
    }
}

// Reader primitives.

#[test]
fn reads_fixed_width_primitives() {
    let mut body = Vec::new();
    body.extend_from_slice(&(-7i32).to_le_bytes());
    body.extend_from_slice(&0x0011_2233_4455_6677i64.to_le_bytes());
    body.extend_from_slice(&1.5f32.to_le_bytes());
    body.extend_from_slice(&(-2.25f64).to_le_bytes());
    let p = parcel("test.IFoo", &body);
    let mut r = ParcelReader::new(&p);
    assert!(r.seek_args());
    assert_eq!(r.read_i32(), Some(-7));
    assert_eq!(r.read_i64(), Some(0x0011_2233_4455_6677));
    assert_eq!(r.read_f32().map(f32::from_bits), Some(1.5));
    assert_eq!(r.read_f64().map(f64::from_bits), Some(-2.25));
    assert!(!r.truncated());
}

#[test]
fn reads_string16_and_null() {
    let mut body = Vec::new();
    put_string16(&mut body, "hi");
    body.extend_from_slice(&(-1i32).to_le_bytes());
    let p = parcel("test.IFoo", &body);
    let mut r = ParcelReader::new(&p);
    assert!(r.seek_args());
    assert_eq!(r.read_string16(), Some(Some("hi".to_string())));
    assert_eq!(r.read_string16(), Some(None));
}

#[test]
fn seek_args_rejects_tokenless_parcel() {
    let mut r = ParcelReader::new(&[0u8; 32]);
    assert!(!r.seek_args());
}

#[test]
fn reads_flag_truncation_past_the_end() {
    let mut r = ParcelReader::new(&[1, 0, 0, 0]);
    assert_eq!(r.read_i64(), None);
    assert!(r.truncated());
}

// Rendering of each type.

#[test]
fn renders_all_scalar_types() {
    let mut body = Vec::new();
    body.extend_from_slice(&1i32.to_le_bytes());
    body.extend_from_slice(&0i32.to_le_bytes());
    body.extend_from_slice(&42i32.to_le_bytes());
    body.extend_from_slice(&(-5i64).to_le_bytes());
    body.extend_from_slice(&0.5f32.to_le_bytes());
    body.extend_from_slice(&3.0f64.to_le_bytes());
    let args = [
        arg("a", "boolean"),
        arg("b", "boolean"),
        arg("c", "int"),
        arg("d", "long"),
        arg("e", "float"),
        arg("f", "double"),
    ];
    assert_eq!(
        render(&args, &body).as_deref(),
        Some("(a=true, b=false, c=42, d=-5, e=0.5, f=3)")
    );
}

#[test]
fn renders_widened_integer_types() {
    let mut body = Vec::new();
    for v in [255i32, 65, 1000] {
        body.extend_from_slice(&v.to_le_bytes());
    }
    let args = [arg("b", "byte"), arg("c", "char"), arg("s", "short")];
    assert_eq!(
        render(&args, &body).as_deref(),
        Some("(b=255, c=65, s=1000)")
    );
}

#[test]
fn strips_direction_and_annotation_from_type() {
    let mut body = Vec::new();
    put_string16(&mut body, "ok");
    body.extend_from_slice(&9i32.to_le_bytes());
    let args = [arg("s", "in @nullable String"), arg("n", "out int")];
    assert_eq!(render(&args, &body).as_deref(), Some(r#"(s="ok", n=9)"#));
}

#[test]
fn null_string_renders_as_null() {
    let mut body = Vec::new();
    body.extend_from_slice(&(-1i32).to_le_bytes());
    assert_eq!(
        render(&[arg("s", "String")], &body).as_deref(),
        Some("(s=null)")
    );
}

#[test]
fn unparsable_type_stops_with_note() {
    let body = [0u8; 8];
    assert_eq!(
        render(&[arg("t", "IBinder")], &body).as_deref(),
        Some("(t=<IBinder>, …(unparsed))")
    );
}

#[test]
fn array_type_stops_unparsed() {
    let body = [0u8; 8];
    assert_eq!(
        render(&[arg("xs", "int[]")], &body).as_deref(),
        Some("(xs=<int[]>, …(unparsed))")
    );
}

#[test]
fn truncation_rolls_back_partial_arg() {
    let body = 7i32.to_le_bytes();
    assert_eq!(
        render(&[arg("a", "int"), arg("b", "int")], &body).as_deref(),
        Some("(a=7, …(truncated))")
    );
}

#[test]
fn tokenless_parcel_renders_nothing() {
    let mut out = Rendering::new();
    assert!(!render_args(&mut out, &[arg("a", "int")], &[0u8; 32]));
    assert!(text(out.into_pieces()).is_empty());
}

#[test]
fn string_value_is_escaped_and_clamped() {
    let mut body = Vec::new();
    put_string16(&mut body, "a\"b\nc");
    assert_eq!(
        render(&[arg("s", "String")], &body).as_deref(),
        Some("(s=\"a\\\"b\\nc\")")
    );
    let mut long = Vec::new();
    put_string16(&mut long, &"z".repeat(200));
    let out = render(&[arg("s", "String")], &long).unwrap();
    assert!(out.contains('…') && out.len() < 200);
}

// Further edges.

#[test]
fn rounds_up_to_the_alignment_unit() {
    for n in 0..40u64 {
        assert_eq!(round4(n), (n + 3) & !3);
    }
}

#[test]
fn first_argument_cut_off_has_no_separator() {
    assert_eq!(
        render(&[arg("a", "long")], &[1, 2, 3]).as_deref(),
        Some("(…(truncated))")
    );
}

#[test]
fn no_arguments_render_as_empty_brackets() {
    assert_eq!(render(&[], &[]).as_deref(), Some("()"));
}

#[test]
fn string_cut_in_its_characters_is_truncated() {
    let mut body = Vec::new();
    put_string16(&mut body, "hello");
    body.truncate(8);
    let p = parcel("test.IFoo", &body);
    let mut r = ParcelReader::new(&p);
    assert!(r.seek_args());
    assert_eq!(r.read_string16(), None);
    assert!(r.truncated());
    assert_eq!(
        render(&[arg("s", "String")], &body).as_deref(),
        Some("(…(truncated))")
    );
}

#[test]
fn string_is_clamped_exactly_behind_the_limit() {
    let mut body = Vec::new();
    put_string16(&mut body, &"y".repeat(MAX_SHOWN));
    let whole = render(&[arg("s", "String")], &body).unwrap();
    assert_eq!(whole, format!("(s=\"{}\")", "y".repeat(MAX_SHOWN)));
    let mut body = Vec::new();
    put_string16(&mut body, &"y".repeat(MAX_SHOWN + 1));
    let cut = render(&[arg("s", "String")], &body).unwrap();
    assert_eq!(cut, format!("(s=\"{}…\")", "y".repeat(MAX_SHOWN)));
}

#[test]
fn control_characters_are_shown_as_dots() {
    let mut body = Vec::new();
    put_string16(&mut body, "\u{1}\r\t\\x");
    assert_eq!(
        render(&[arg("s", "CharSequence")], &body).as_deref(),
        Some("(s=\".\\r\\t\\\\x\")")
    );
}

#[test]
fn text_outside_the_basic_plane_is_read_back() {
    let mut body = Vec::new();
    put_string16(&mut body, "a\u{1f600}é");
    assert_eq!(
        render(&[arg("s", "String")], &body).as_deref(),
        Some("(s=\"a\u{1f600}é\")")
    );
}

#[test]
fn floats_keep_their_bit_patterns() {
    let mut body = Vec::new();
    body.extend_from_slice(&f32::NAN.to_le_bytes());
    body.extend_from_slice(&(-0.0f64).to_le_bytes());
    let args = [arg("x", "float"), arg("y", "double")];
    let mut out = Rendering::new();
    assert!(render_args(&mut out, &args, &parcel("test.IFoo", &body)));
    let pieces = out.into_pieces();
    assert!(pieces.contains(&Piece::Single(f32::NAN.to_bits())));
    assert!(pieces.contains(&Piece::Double((-0.0f64).to_bits())));
}

#[test]
fn decorations_are_stripped_in_any_number() {
    assert_eq!(base_type("  inout   @utf8InCpp String "), "String");
    assert_eq!(base_type("in"), "in");
    assert_eq!(base_type("input"), "input");
    assert_eq!(base_type("List<String>"), "List<String>");
    assert_eq!(base_type(""), "");
    assert_eq!(base_type("   "), "");
}

#[test]
fn a_huge_descriptor_length_leaves_no_arguments() {
    let mut p = parcel("test.IFoo", &[]);
    p[12..16].copy_from_slice(&u32::MAX.to_le_bytes());
    let mut r = ParcelReader::new(&p);
    assert!(r.seek_args());
    assert_eq!(r.read_i32(), None);
    assert!(r.truncated());
}

#[test]
fn a_negative_length_is_a_null_string() {
    let mut body = Vec::new();
    body.extend_from_slice(&(-5i32).to_le_bytes());
    body.extend_from_slice(&3i32.to_le_bytes());
    let args = [arg("s", "String"), arg("n", "int")];
    assert_eq!(render(&args, &body).as_deref(), Some("(s=null, n=3)"));
}
