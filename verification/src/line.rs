//! The text of one captured transaction: the core line, the error line and the JSON
//! object.

use crate::clock::{is_wall_time, wall_millis, wall_ms};
use crate::errors::{br_error_name, errno_reason, error_name, reason_of};
use crate::event::TxEvent;
use crate::hex::{push_hex, to_hex};
use crate::iface::{iface_text, write_iface_bytes};
use crate::json::{
    json_object, law_object_has_no_controls, law_object_round_trip, object_read, JsonField,
    JsonObject, JsonValue,
};
use crate::names::{bytes_of, shown_name, NameCache};
use crate::text::{decimal, push_decimal, push_signed, push_text, signed_decimal, text_of_str};
use vstd::prelude::*;

verus! {

/// The interface descriptor that an event carries; empty where it carries none.
pub open spec fn event_iface(ev: TxEvent) -> Seq<char> {
    iface_text(ev.iface@, ev.iface_byte_len as int)
}

/// What an event calls: its interface and raw code, or the mark of a reply or of a
/// transaction without an AIDL interface.
pub open spec fn label(ev: TxEvent) -> Seq<char> {
    if event_iface(ev).len() > 0 {
        event_iface(ev) + ".[code:"@ + decimal(ev.code as nat) + "]"@
    } else if ev.reply != 0 {
        "<reply code:"@ + decimal(ev.code as nat) + ">"@
    } else {
        "<non-aidl code:"@ + decimal(ev.code as nat) + ">"@
    }
}

/// Who calls whom: `src (pid) -> dst (pid)`.
pub open spec fn address(src: Seq<char>, src_pid: u32, dst: Seq<char>, dst_pid: u32) -> Seq<char> {
    src + " ("@ + decimal(src_pid as nat) + ") -> "@ + dst + " ("@ + decimal(dst_pid as nat) + ")"@
}

/// Who calls whom and what: `src (pid) -> dst (pid): <label>`.
pub open spec fn labelled(ev: TxEvent, names: Map<u32, Seq<char>>) -> Seq<char> {
    address(
        shown_name(names, ev.src_pid),
        ev.src_pid,
        shown_name(names, ev.dst_pid),
        ev.dst_pid,
    ) + ": "@ + label(ev)
}

/// The mark of an async transaction.
pub open spec fn oneway_mark(oneway: bool) -> Seq<char> {
    if oneway {
        " oneway"@
    } else {
        seq![]
    }
}

/// The line of a transaction: `src (pid) -> dst (pid): <label>, <size>B[ oneway]`.
pub open spec fn core_line(ev: TxEvent, names: Map<u32, Seq<char>>) -> Seq<char> {
    labelled(ev, names) + ", "@ + decimal(ev.data_size as nat) + "B"@ + oneway_mark(ev.oneway())
}

/// The line of an error: `src (pid) -> dst (pid): <label> !! <code>`.
pub open spec fn error_line(ev: TxEvent, names: Map<u32, Seq<char>>) -> Seq<char> {
    labelled(ev, names) + " !! "@ + error_name(ev.err_code)
}

/// The cause of an error, where its errno is known.
pub open spec fn cause(errno: Option<i32>) -> Seq<char> {
    match errno {
        Some(e) => match reason_of(e) {
            Some(reason) => " ("@ + reason + ", "@ + signed_decimal(e as int) + ")"@,
            None => " (errno "@ + signed_decimal(e as int) + ")"@,
        },
        None => seq![],
    }
}

/// The token of a captured parcel: ` parcel=<captured>/<total>:<hex>`.
pub open spec fn parcel_token(bytes: Seq<u8>, total: u32) -> Seq<char> {
    " parcel="@ + decimal(bytes.len()) + "/"@ + decimal(total as nat) + ":"@ + to_hex(bytes)
}

/// The whole line of an event.
pub open spec fn event_line(
    ev: TxEvent,
    parcel: Option<Seq<u8>>,
    names: Map<u32, Seq<char>>,
    errno: Option<i32>,
) -> Seq<char> {
    if ev.failed() {
        error_line(ev, names) + cause(errno)
    } else {
        core_line(ev, names) + match parcel {
            Some(bytes) => parcel_token(bytes, ev.data_size),
            None => seq![],
        }
    }
}

/// Decodes the event's UTF-16LE interface descriptor and appends it to `out`. Returns
/// false (writing nothing) when the event carries no usable descriptor.
pub fn write_iface(out: &mut String, ev: &TxEvent) -> (r: bool)
    ensures
        final(out)@ == old(out)@ + event_iface(*ev),
        r == (event_iface(*ev).len() > 0),
{
    write_iface_bytes(out, ev.iface.as_slice(), ev.iface_byte_len as usize)
}

/// Who calls whom.
fn address_text(ev: &TxEvent, names: &NameCache) -> (r: String)
    ensures
        r@ == address(
            shown_name(names@, ev.src_pid),
            ev.src_pid,
            shown_name(names@, ev.dst_pid),
            ev.dst_pid,
        ),
{
    let mut out: String = text_of_str(names.lookup(ev.src_pid));
    push_text(&mut out, " (");
    push_decimal(&mut out, ev.src_pid as u64);
    push_text(&mut out, ") -> ");
    push_text(&mut out, names.lookup(ev.dst_pid));
    push_text(&mut out, " (");
    push_decimal(&mut out, ev.dst_pid as u64);
    push_text(&mut out, ")");
    out
}

/// What an event calls.
fn label_text(ev: &TxEvent) -> (r: String)
    ensures
        r@ == label(*ev),
{
    let mut out: String = String::new();
    if write_iface(&mut out, ev) {
        assert(out@ =~= event_iface(*ev));
        push_text(&mut out, ".[code:");
        push_decimal(&mut out, ev.code as u64);
        push_text(&mut out, "]");
        return out;
    }
    let mut out: String = text_of_str(
        if ev.reply != 0 {
            "<reply code:"
        } else {
            "<non-aidl code:"
        },
    );
    push_decimal(&mut out, ev.code as u64);
    push_text(&mut out, ">");
    out
}

/// Writes `src (pid) -> dst (pid): <label>` into `out`, where `<label>` is the interface
/// and raw code, a reply marker, or a non-AIDL marker.
pub fn write_label(out: &mut String, ev: &TxEvent, names: &NameCache)
    ensures
        final(out)@ == old(out)@ + labelled(*ev, names@),
{
    let mut line: String = address_text(ev, names);
    push_text(&mut line, ": ");
    push_text(&mut line, &label_text(ev));
    push_text(out, &line);
}

/// Writes the transaction line into `out`:
/// `src (pid) -> dst (pid): <label>, <size>B[ oneway]`.
pub fn format_core(out: &mut String, ev: &TxEvent, names: &NameCache)
    ensures
        final(out)@ == old(out)@ + core_line(*ev, names@),
{
    write_label(out, ev, names);
    push_text(out, ", ");
    push_decimal(out, ev.data_size as u64);
    push_text(out, "B");
    if ev.is_oneway() {
        push_text(out, " oneway");
    }
    assert(out@ =~= old(out)@ + core_line(*ev, names@));
}

/// Writes an error line into `out`: the failing transaction's label followed by the
/// human-readable binder return error code.
pub fn format_error(out: &mut String, ev: &TxEvent, names: &NameCache)
    ensures
        final(out)@ == old(out)@ + error_line(*ev, names@),
{
    write_label(out, ev, names);
    push_text(out, " !! ");
    push_text(out, br_error_name(ev.err_code));
    assert(out@ =~= old(out)@ + error_line(*ev, names@));
}

/// Appends the cause of an error, where its errno is known.
pub fn push_cause(out: &mut String, errno: Option<i32>)
    ensures
        final(out)@ == old(out)@ + cause(errno),
{
    match errno {
        Some(e) => {
            match errno_reason(e) {
                Some(reason) => {
                    push_text(out, " (");
                    push_text(out, reason);
                    push_text(out, ", ");
                },
                None => {
                    push_text(out, " (errno ");
                },
            }
            push_signed(out, e as i64);
            push_text(out, ")");
        },
        None => {},
    }
    assert(out@ =~= old(out)@ + cause(errno));
}

/// Appends the token of a captured parcel, which the offline decoder reads.
pub fn push_parcel(out: &mut String, bytes: &[u8], total: u32)
    ensures
        final(out)@ == old(out)@ + parcel_token(bytes@, total),
{
    push_text(out, " parcel=");
    push_decimal(out, bytes.len() as u64);
    push_text(out, "/");
    push_decimal(out, total as u64);
    push_text(out, ":");
    push_hex(out, bytes);
    assert(out@ =~= old(out)@ + parcel_token(bytes@, total));
}

/// The whole line of an event: the transaction with its captured parcel, or the error
/// with its cause.
pub fn format_event(
    ev: &TxEvent,
    parcel: Option<&[u8]>,
    names: &NameCache,
    errno: Option<i32>,
) -> (r: String)
    ensures
        r@ == event_line(*ev, bytes_of(parcel), names@, errno),
{
    let mut out: String = String::new();
    if ev.is_error() {
        format_error(&mut out, ev, names);
        push_cause(&mut out, errno);
    } else {
        format_core(&mut out, ev, names);
        match parcel {
            Some(bytes) => push_parcel(&mut out, bytes, ev.data_size),
            None => {},
        }
    }
    assert(out@ =~= event_line(*ev, bytes_of(parcel), names@, errno));
    out
}

/// The fields of the interface, where there is one.
pub open spec fn iface_fields(ev: TxEvent) -> Seq<JsonField> {
    if event_iface(ev).len() > 0 {
        seq![("iface"@, JsonValue::Text(event_iface(ev)))]
    } else {
        seq![]
    }
}

/// The fields of the captured parcel, where there is one.
pub open spec fn parcel_fields(parcel: Option<Seq<u8>>) -> Seq<JsonField> {
    match parcel {
        Some(bytes) => seq![
            ("parcel_len"@, JsonValue::Number(bytes.len() as int)),
            ("parcel"@, JsonValue::Text(to_hex(bytes))),
        ],
        None => seq![],
    }
}

/// The fields of a known errno: the number, and its cause where that is known.
pub open spec fn errno_fields(errno: Option<i32>) -> Seq<JsonField> {
    match errno {
        Some(e) => match reason_of(e) {
            Some(reason) => seq![
                ("errno"@, JsonValue::Number(e as int)),
                ("reason"@, JsonValue::Text(reason)),
            ],
            None => seq![("errno"@, JsonValue::Number(e as int))],
        },
        None => seq![],
    }
}

/// The fields of an error, where the event is one.
pub open spec fn error_fields(ev: TxEvent, errno: Option<i32>) -> Seq<JsonField> {
    if ev.failed() {
        seq![("error"@, JsonValue::Text(error_name(ev.err_code)))] + errno_fields(errno)
    } else {
        seq![]
    }
}

/// The fields that every event has.
pub open spec fn common_fields(ev: TxEvent, names: Map<u32, Seq<char>>, ts_ms: i64) -> Seq<
    JsonField,
> {
    seq![
        ("ts_ms"@, JsonValue::Number(ts_ms as int)),
        ("src"@, JsonValue::Text(shown_name(names, ev.src_pid))),
        ("src_pid"@, JsonValue::Number(ev.src_pid as int)),
        ("dst"@, JsonValue::Text(shown_name(names, ev.dst_pid))),
        ("dst_pid"@, JsonValue::Number(ev.dst_pid as int)),
        ("code"@, JsonValue::Number(ev.code as int)),
        ("size"@, JsonValue::Number(ev.data_size as int)),
        ("oneway"@, JsonValue::Bool(ev.oneway())),
        ("reply"@, JsonValue::Bool(ev.reply != 0)),
    ]
}

/// The fields of an event's JSON object.
pub open spec fn event_fields(
    ev: TxEvent,
    parcel: Option<Seq<u8>>,
    names: Map<u32, Seq<char>>,
    errno: Option<i32>,
    ts_ms: i64,
) -> Seq<JsonField> {
    common_fields(ev, names, ts_ms) + iface_fields(ev) + parcel_fields(parcel) + error_fields(
        ev,
        errno,
    )
}

/// The JSON object of an event.
pub open spec fn json_line(
    ev: TxEvent,
    parcel: Option<Seq<u8>>,
    names: Map<u32, Seq<char>>,
    errno: Option<i32>,
    ts_ms: i64,
) -> Seq<char> {
    json_object(event_fields(ev, parcel, names, errno, ts_ms))
}

/// An object with the fields that every event has.
fn start_object(ev: &TxEvent, names: &NameCache, ts_ms: i64) -> (r: JsonObject)
    ensures
        r.wf(),
        r@ == common_fields(*ev, names@, ts_ms),
{
    let mut j: JsonObject = JsonObject::new();
    j.number_field("ts_ms", ts_ms);
    j.text_field("src", names.lookup(ev.src_pid));
    j.number_field("src_pid", ev.src_pid as i64);
    j.text_field("dst", names.lookup(ev.dst_pid));
    j.number_field("dst_pid", ev.dst_pid as i64);
    j.number_field("code", ev.code as i64);
    j.number_field("size", ev.data_size as i64);
    j.bool_field("oneway", ev.is_oneway());
    j.bool_field("reply", ev.reply != 0);
    assert(j@ =~= common_fields(*ev, names@, ts_ms));
    j
}

/// Appends the fields of an error, where the event is one.
fn push_error(j: &mut JsonObject, ev: &TxEvent, errno: Option<i32>)
    requires
        old(j).wf(),
    ensures
        final(j).wf(),
        final(j)@ == old(j)@ + error_fields(*ev, errno),
{
    if ev.is_error() {
        j.text_field("error", br_error_name(ev.err_code));
        match errno {
            Some(e) => {
                j.number_field("errno", e as i64);
                match errno_reason(e) {
                    Some(reason) => j.text_field("reason", reason),
                    None => {},
                }
            },
            None => {},
        }
    }
    assert(j@ =~= old(j)@ + error_fields(*ev, errno));
}

/// The JSON object of an event. The structured fields let offline decoders read them
/// directly instead of parsing the line.
pub fn write_jsonl(
    ev: &TxEvent,
    parcel: Option<&[u8]>,
    names: &NameCache,
    errno: Option<i32>,
    offset_ns: i128,
) -> (r: String)
    requires
        is_wall_time(ev.ts_ns, offset_ns),
    ensures
        r@ == json_line(
            *ev,
            bytes_of(parcel),
            names@,
            errno,
            wall_millis(ev.ts_ns, offset_ns),
        ),
{
    let ts_ms: i64 = wall_ms(ev.ts_ns, offset_ns);
    let mut j: JsonObject = start_object(ev, names, ts_ms);
    let ghost common = j@;
    let mut iface: String = String::new();
    if write_iface(&mut iface, ev) {
        assert(iface@ =~= event_iface(*ev));
        j.text_field("iface", &iface);
    }
    assert(j@ =~= common + iface_fields(*ev));
    let ghost before = j@;
    match parcel {
        Some(bytes) => {
            let mut hex: String = String::new();
            push_hex(&mut hex, bytes);
            assert(hex@ =~= to_hex(bytes@));
            j.count_field("parcel_len", bytes.len());
            j.text_field("parcel", &hex);
        },
        None => {},
    }
    assert(j@ =~= before + parcel_fields(bytes_of(parcel)));
    push_error(&mut j, ev, errno);
    j.finish()
}

/// Every event is one well-formed JSON object on one line, and every field of it reads
/// back: the names, the interface and the cause as they are, whatever they hold.
pub proof fn law_json_reads_back(
    ev: TxEvent,
    parcel: Option<Seq<u8>>,
    names: Map<u32, Seq<char>>,
    errno: Option<i32>,
    ts_ms: i64,
)
    ensures
        object_read(json_line(ev, parcel, names, errno, ts_ms)) == Some(
            event_fields(ev, parcel, names, errno, ts_ms),
        ),
        !json_line(ev, parcel, names, errno, ts_ms).contains('\n'),
{
    let fields = event_fields(ev, parcel, names, errno, ts_ms);
    law_object_round_trip(fields);
    law_object_has_no_controls(fields, '\n');
}

} // verus!
