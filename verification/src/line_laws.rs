//! Laws of the lines: what the line and the JSON object of an event say, word for word.

use crate::clock::{is_wall_time, wall_millis};
use crate::errors::{br_error_name, errno_reason};
use crate::event::TxEvent;
use crate::hex::{from_hex, law_hex_round_trip, lemma_to_hex_digits, to_hex};
use crate::json::{object_read, JsonValue};
use crate::line::{
    common_fields, core_line, error_fields, event_fields, event_iface, format_event, iface_fields,
    labelled, law_json_reads_back, parcel_fields, write_jsonl,
};
use crate::names::{bytes_of, shown_name, NameCache};
use crate::record::{Label, Record};
use crate::round_trip::{is_plain, law_record_round_trip};
use crate::text::{decimal, is_white, signed_decimal};
use crate::text_laws::law_white_space_around_is_trimmed;
use vstd::prelude::*;

verus! {

/// The line of a call says who calls whom, what is called by its raw code, how large the
/// parcel is and whether the call is one-way; behind that stands the captured parcel, with
/// its length, the parcel's size and its bytes in hexadecimal.
pub proof fn law_line_of_a_call(
    ev: &TxEvent,
    parcel: Option<&[u8]>,
    names: &NameCache,
    errno: Option<i32>,
    r: String,
) -> (hex: Seq<char>)
    requires
        call_ensures(format_event, (ev, parcel, names, errno), r),
        ev.err_code == 0,
        event_iface(*ev).len() > 0,
    ensures
        ({
            let call = shown_name(names@, ev.src_pid) + " ("@ + decimal(ev.src_pid as nat)
                + ") -> "@ + shown_name(names@, ev.dst_pid) + " ("@ + decimal(ev.dst_pid as nat)
                + ")"@ + ": "@ + (event_iface(*ev) + ".[code:"@ + decimal(ev.code as nat) + "]"@)
                + ", "@ + decimal(ev.data_size as nat) + "B"@ + (if ev.flags & 1 == 1 {
                " oneway"@
            } else {
                seq![]
            });
            match parcel {
                None => r@ == call,
                Some(b) => {
                    &&& r@ == call + (" parcel="@ + decimal(b@.len()) + "/"@ + decimal(
                        ev.data_size as nat,
                    ) + ":"@ + hex)
                    &&& hex.len() == 2 * b@.len()
                    &&& from_hex(hex) == b@
                },
            }
        }),
{
    lemma_oneway_bit(ev.flags);
    match parcel {
        None => {
            let line = core_line(*ev, names@);
            assert(line + Seq::<char>::empty() =~= line);
            seq![]
        },
        Some(b) => {
            law_hex_round_trip(b@);
            lemma_to_hex_digits(b@);
            to_hex(b@)
        },
    }
}

proof fn lemma_oneway_bit(flags: u32)
    ensures
        flags & 1 == 1 <==> flags % 2 == 1,
{
    assert(flags & 1 == 1 <==> flags % 2 == 1) by (bit_vector);
}

/// A transaction without an interface is shown as a reply or as none of AIDL, with its
/// code.
pub proof fn law_line_without_an_interface(
    ev: &TxEvent,
    names: &NameCache,
    errno: Option<i32>,
    r: String,
)
    requires
        call_ensures(format_event, (ev, None, names, errno), r),
        ev.err_code == 0,
        event_iface(*ev).len() == 0,
    ensures
        r@ == shown_name(names@, ev.src_pid) + " ("@ + decimal(ev.src_pid as nat) + ") -> "@
            + shown_name(names@, ev.dst_pid) + " ("@ + decimal(ev.dst_pid as nat) + ")"@ + ": "@ + (
        (if ev.reply != 0 {
            "<reply code:"@
        } else {
            "<non-aidl code:"@
        }) + decimal(ev.code as nat) + ">"@) + ", "@ + decimal(ev.data_size as nat) + "B"@ + (
        if ev.flags & 1 == 1 {
            " oneway"@
        } else {
            seq![]
        }),
{
    lemma_oneway_bit(ev.flags);
    let line = core_line(*ev, names@);
    assert(line + Seq::<char>::empty() =~= line);
}

/// The line of a failed call names the same parties and the same call as the line of the
/// call itself, then the error, and its cause where the errno is known; whatever parcel
/// there is.
pub proof fn law_line_of_a_failure(
    ev: &TxEvent,
    call: &TxEvent,
    parcel: Option<&[u8]>,
    names: &NameCache,
    errno: Option<i32>,
    reason: Option<&'static str>,
    error: &'static str,
    line: String,
    failure: String,
) -> (head: Seq<char>)
    requires
        ev.err_code != 0,
        call.err_code == 0,
        ev.src_pid == call.src_pid,
        ev.dst_pid == call.dst_pid,
        ev.code == call.code,
        ev.reply == call.reply,
        ev.iface == call.iface,
        ev.iface_byte_len == call.iface_byte_len,
        call_ensures(format_event, (call, None, names, None), line),
        call_ensures(format_event, (ev, parcel, names, errno), failure),
        call_ensures(br_error_name, (ev.err_code,), error),
        errno matches Some(e) ==> call_ensures(errno_reason, (e,), reason),
    ensures
        line@ == head + ", "@ + decimal(call.data_size as nat) + "B"@ + (if call.flags & 1 == 1 {
            " oneway"@
        } else {
            seq![]
        }),
        failure@ == head + " !! "@ + error@ + (match errno {
            None => seq![],
            Some(e) => match reason {
                Some(why) => " ("@ + why@ + ", "@ + signed_decimal(e as int) + ")"@,
                None => " (errno "@ + signed_decimal(e as int) + ")"@,
            },
        }),
{
    lemma_oneway_bit(call.flags);
    let head = labelled(*call, names@);
    assert(labelled(*ev, names@) == head);
    let core = core_line(*call, names@);
    assert(core + Seq::<char>::empty() =~= core);
    head
}

/// The three error returns go by their own names, and any other by a common one.
pub proof fn law_errors_go_by_their_names(cmd: u32, r: &'static str)
    requires
        call_ensures(br_error_name, (cmd,), r),
    ensures
        cmd == 0x7205 ==> r@ == "BR_DEAD_REPLY"@,
        cmd == 0x7211 ==> r@ == "BR_FAILED_REPLY"@,
        cmd == 0x7212 ==> r@ == "BR_FROZEN_REPLY"@,
        cmd != 0x7205 && cmd != 0x7211 && cmd != 0x7212 ==> r@ == "BR_ERROR"@,
{
}

/// The causes that are known: those of the errnos 1, 3, 9, 11 to 14, 22, 28 and 110, each
/// negative as the kernel has it, and no other.
pub proof fn law_known_causes(errno: i32, r: Option<&'static str>)
    requires
        call_ensures(errno_reason, (errno,), r),
    ensures
        errno == -1 ==> r is Some && r->0@ == "operation not permitted"@,
        errno == -3 ==> r is Some && r->0@ == "dead node"@,
        errno == -9 ==> r is Some && r->0@ == "bad file descriptor"@,
        errno == -11 ==> r is Some && r->0@ == "would block"@,
        errno == -12 ==> r is Some && r->0@ == "out of memory"@,
        errno == -13 ==> r is Some && r->0@ == "permission denied"@,
        errno == -14 ==> r is Some && r->0@ == "fault copying data"@,
        errno == -22 ==> r is Some && r->0@ == "invalid transaction"@,
        errno == -28 ==> r is Some && r->0@ == "target buffer full"@,
        errno == -110 ==> r is Some && r->0@ == "timed out"@,
        r is Some ==> errno == -1 || errno == -3 || errno == -9 || -14 <= errno <= -11 || errno
            == -22 || errno == -28 || errno == -110,
{
}

/// The line of a call parses back into what the event says: the names, the pids, the call,
/// the size and whether it is one-way.
pub proof fn law_line_parses_back(
    ev: &TxEvent,
    names: &NameCache,
    errno: Option<i32>,
    line: String,
    text: &str,
    r: Option<Record>,
)
    requires
        ev.err_code == 0,
        is_plain(*ev, names@),
        call_ensures(format_event, (ev, None, names, errno), line),
        text@ == line@,
        call_ensures(Record::parse, (text,), r),
    ensures
        r matches Some(rec) && {
            &&& rec.src@ == shown_name(names@, ev.src_pid)
            &&& rec.src_pid == ev.src_pid
            &&& rec.dst@ == shown_name(names@, ev.dst_pid)
            &&& rec.dst_pid == ev.dst_pid
            &&& rec.size == ev.data_size
            &&& rec.oneway == (ev.flags & 1 == 1)
            &&& match rec.label {
                Label::Aidl { iface, code } => event_iface(*ev).len() > 0 && iface@ == event_iface(
                    *ev,
                ) && code == ev.code,
                Label::Reply { code } => event_iface(*ev).len() == 0 && ev.reply != 0 && code
                    == ev.code,
                Label::NonAidl { code } => event_iface(*ev).len() == 0 && ev.reply == 0 && code
                    == ev.code,
            }
        },
{
    lemma_oneway_bit(ev.flags);
    law_record_round_trip(*ev, names@);
    assert(line@ =~= core_line(*ev, names@));
}

/// Whether the object that `s` is has that member.
pub open spec fn has_member(s: Seq<char>, key: Seq<char>, value: JsonValue) -> bool {
    object_read(s) is Some && object_read(s)->0.contains((key, value))
}

/// Whether the object that `s` is has a member of that key.
pub open spec fn has_key(s: Seq<char>, key: Seq<char>) -> bool {
    exists|value: JsonValue| has_member(s, key, value)
}

/// The JSON object of every event, a call or a failure, has the names, the pids, the code,
/// the size and the kind of the transaction, each under its own key.
pub proof fn law_json_tells_the_event(
    ev: &TxEvent,
    parcel: Option<&[u8]>,
    names: &NameCache,
    errno: Option<i32>,
    offset_ns: i128,
    r: String,
)
    requires
        is_wall_time(ev.ts_ns, offset_ns),
        call_ensures(write_jsonl, (ev, parcel, names, errno, offset_ns), r),
    ensures
        has_member(r@, "ts_ms"@, JsonValue::Number(wall_millis(ev.ts_ns, offset_ns) as int)),
        has_member(r@, "src"@, JsonValue::Text(shown_name(names@, ev.src_pid))),
        has_member(r@, "src_pid"@, JsonValue::Number(ev.src_pid as int)),
        has_member(r@, "dst"@, JsonValue::Text(shown_name(names@, ev.dst_pid))),
        has_member(r@, "dst_pid"@, JsonValue::Number(ev.dst_pid as int)),
        has_member(r@, "code"@, JsonValue::Number(ev.code as int)),
        has_member(r@, "size"@, JsonValue::Number(ev.data_size as int)),
        has_member(r@, "oneway"@, JsonValue::Bool(ev.flags & 1 == 1)),
        has_member(r@, "reply"@, JsonValue::Bool(ev.reply != 0)),
{
    lemma_oneway_bit(ev.flags);
    let ts_ms = wall_millis(ev.ts_ns, offset_ns);
    law_json_reads_back(*ev, bytes_of(parcel), names@, errno, ts_ms);
    let f = event_fields(*ev, bytes_of(parcel), names@, errno, ts_ms);
    let common = common_fields(*ev, names@, ts_ms);
    assert forall|i: int| 0 <= i < 9 implies f.contains(#[trigger] common[i]) by {
        assert(f[i] == common[i]);
    }
    assert(common[0].0 == "ts_ms"@ && common[1].0 == "src"@ && common[2].0 == "src_pid"@);
    assert(common[3].0 == "dst"@ && common[4].0 == "dst_pid"@ && common[5].0 == "code"@);
    assert(common[6].0 == "size"@ && common[7].0 == "oneway"@ && common[8].0 == "reply"@);
}

/// The JSON object of an event has the interface where there is one, the bytes of the
/// parcel where one was captured, and of a failure its error, its errno where that is
/// known, and the cause.
pub proof fn law_json_tells_the_details(
    ev: &TxEvent,
    parcel: Option<&[u8]>,
    names: &NameCache,
    errno: Option<i32>,
    offset_ns: i128,
    error: &'static str,
    reason: Option<&'static str>,
    r: String,
) -> (hex: Seq<char>)
    requires
        is_wall_time(ev.ts_ns, offset_ns),
        call_ensures(write_jsonl, (ev, parcel, names, errno, offset_ns), r),
        call_ensures(br_error_name, (ev.err_code,), error),
        errno matches Some(e) ==> call_ensures(errno_reason, (e,), reason),
    ensures
        event_iface(*ev).len() > 0 ==> has_member(
            r@,
            "iface"@,
            JsonValue::Text(event_iface(*ev)),
        ),
        parcel matches Some(b) ==> {
            &&& has_member(r@, "parcel_len"@, JsonValue::Number(b@.len() as int))
            &&& has_member(r@, "parcel"@, JsonValue::Text(hex))
            &&& from_hex(hex) == b@
        },
        ev.err_code != 0 ==> has_member(r@, "error"@, JsonValue::Text(error@)),
        ev.err_code != 0 ==> (errno matches Some(e) ==> {
            &&& has_member(r@, "errno"@, JsonValue::Number(e as int))
            &&& reason matches Some(why) ==> has_member(r@, "reason"@, JsonValue::Text(why@))
        }),
{
    let ts_ms = wall_millis(ev.ts_ns, offset_ns);
    let p = bytes_of(parcel);
    law_json_reads_back(*ev, p, names@, errno, ts_ms);
    let f = event_fields(*ev, p, names@, errno, ts_ms);
    let a = common_fields(*ev, names@, ts_ms);
    let b = iface_fields(*ev);
    let c = parcel_fields(p);
    let d = error_fields(*ev, errno);
    assert forall|i: int| 0 <= i < b.len() implies f.contains(#[trigger] b[i]) by {
        assert(f[a.len() + i] == b[i]);
    }
    assert forall|i: int| 0 <= i < c.len() implies f.contains(#[trigger] c[i]) by {
        assert(f[a.len() + b.len() + i] == c[i]);
    }
    assert forall|i: int| 0 <= i < d.len() implies f.contains(#[trigger] d[i]) by {
        assert(f[a.len() + b.len() + c.len() + i] == d[i]);
    }
    if event_iface(*ev).len() > 0 {
        assert(b[0].0 == "iface"@);
    }
    if ev.err_code != 0 {
        assert(d[0].0 == "error"@);
        if errno is Some {
            assert(d[1].0 == "errno"@);
            if reason is Some {
                assert(d[2].0 == "reason"@);
            }
        }
    }
    match parcel {
        Some(bytes) => {
            law_hex_round_trip(bytes@);
            assert(c[0].0 == "parcel_len"@ && c[1].0 == "parcel"@);
            to_hex(bytes@)
        },
        None => seq![],
    }
}

/// A JSON object has no member that its event has nothing to say for: none of an interface,
/// a parcel or an error where there is none.
pub proof fn law_json_adds_nothing(
    ev: &TxEvent,
    parcel: Option<&[u8]>,
    names: &NameCache,
    errno: Option<i32>,
    offset_ns: i128,
    r: String,
)
    requires
        is_wall_time(ev.ts_ns, offset_ns),
        call_ensures(write_jsonl, (ev, parcel, names, errno, offset_ns), r),
    ensures
        event_iface(*ev).len() == 0 ==> !has_key(r@, "iface"@),
        parcel is None ==> !has_key(r@, "parcel"@) && !has_key(r@, "parcel_len"@),
        ev.err_code == 0 ==> !has_key(r@, "error"@),
        ev.err_code == 0 || errno is None ==> !has_key(r@, "errno"@) && !has_key(r@, "reason"@),
{
    let ts_ms = wall_millis(ev.ts_ns, offset_ns);
    let p = bytes_of(parcel);
    law_json_reads_back(*ev, p, names@, errno, ts_ms);
    let f = event_fields(*ev, p, names@, errno, ts_ms);
    lemma_keys_differ();
    let keys = json_keys();
    assert(keys[0] == "ts_ms"@ && keys[1] == "src"@ && keys[2] == "src_pid"@ && keys[3] == "dst"@);
    assert(keys[4] == "dst_pid"@ && keys[5] == "code"@ && keys[6] == "size"@);
    assert(keys[7] == "oneway"@ && keys[8] == "reply"@ && keys[9] == "iface"@);
    assert(keys[10] == "parcel_len"@ && keys[11] == "parcel"@ && keys[12] == "error"@);
    assert(keys[13] == "errno"@ && keys[14] == "reason"@);
    assert forall|key: Seq<char>, value: JsonValue|
        has_member(r@, key, value) implies {
        &&& event_iface(*ev).len() == 0 ==> key != "iface"@
        &&& parcel is None ==> key != "parcel"@ && key != "parcel_len"@
        &&& ev.err_code == 0 ==> key != "error"@
        &&& ev.err_code == 0 || errno is None ==> key != "errno"@ && key != "reason"@
    } by {
        let i = choose|i: int| 0 <= i < f.len() && f[i] == (key, value);
        assert(f[i] == (key, value));
    }
}

/// The keys of a JSON object of an event.
spec fn json_keys() -> Seq<Seq<char>> {
    seq![
        "ts_ms"@,
        "src"@,
        "src_pid"@,
        "dst"@,
        "dst_pid"@,
        "code"@,
        "size"@,
        "oneway"@,
        "reply"@,
        "iface"@,
        "parcel_len"@,
        "parcel"@,
        "error"@,
        "errno"@,
        "reason"@,
    ]
}

/// No two of the keys are the same.
proof fn lemma_keys_differ()
    ensures
        forall|i: int, j: int|
            0 <= i < j < json_keys().len() ==> #[trigger] json_keys()[i]
                != #[trigger] json_keys()[j],
{
    reveal_strlit("ts_ms");
    reveal_strlit("src");
    reveal_strlit("src_pid");
    reveal_strlit("dst");
    reveal_strlit("dst_pid");
    reveal_strlit("code");
    reveal_strlit("size");
    reveal_strlit("oneway");
    reveal_strlit("reply");
    reveal_strlit("iface");
    reveal_strlit("parcel_len");
    reveal_strlit("parcel");
    reveal_strlit("error");
    reveal_strlit("errno");
    reveal_strlit("reason");
    let keys = json_keys();
    assert forall|i: int, j: int| 0 <= i < j < keys.len() implies #[trigger] keys[i]
        != #[trigger] keys[j] by {
        if keys[i] == keys[j] {
            assert(keys[i].len() == keys[j].len());
            assert(keys[i][0] == keys[j][0] && keys[i][1] == keys[j][1]);
            assert(keys[i].last() == keys[j].last());
            assert(keys[i][2] == keys[j][2]);
        }
    }
}

/// White space around a line does not matter to the fields that it parses into.
pub proof fn law_blanks_around_a_line_do_not_matter(
    text: &str,
    line: &str,
    before: Seq<char>,
    after: Seq<char>,
    r: Option<Record>,
    bare: Option<Record>,
)
    requires
        call_ensures(Record::parse, (text,), r),
        call_ensures(Record::parse, (line,), bare),
        forall|i: int| 0 <= i < before.len() ==> is_white(#[trigger] before[i]),
        forall|i: int| 0 <= i < after.len() ==> is_white(#[trigger] after[i]),
        line@.len() > 0 ==> !is_white(line@[0]) && !is_white(line@.last()),
        text@ == before + line@ + after,
    ensures
        r is Some <==> bare is Some,
        r is Some ==> r->0@ == bare->0@,
{
    law_white_space_around_is_trimmed(before, line@, after);
    let none = Seq::<char>::empty();
    law_white_space_around_is_trimmed(none, line@, none);
    assert(none + line@ + none =~= line@);
}

} // verus!
