//! Laws of emission: what an event puts out, and to whom.

use crate::clock::{clock_text, wall_millis};
use crate::control::RuntimeState;
use crate::dlt::{be16_at, encode, id4, law_message_is_readable, tenths_ms, DltState};
use crate::emit::{errno_of, known_errno, marked, message_of, names_after, Emission, Emitter, Look};
use crate::event::{COMM_LEN, TxEvent};
use crate::line::{event_iface, event_line, json_line};
use crate::name_laws::{lemma_zero_behind, starts_with_field};
use crate::names::{
    bytes_of, is_fallback, law_fallback_is_recognised, lossy_text, zero_from, NameCache,
};
use crate::sink::{law_sink_names, Sink};
use crate::text::text_of;
use vstd::prelude::*;
use vstd::utf8::{decode_utf8, encode_utf8, is_ascii_chars, is_ascii_chars_encode_utf8};

verus! {

/// Every event that is captured goes to each sink that is on, a failure as well as a call:
/// one line to the console and to logcat as the sink says, one message to the DLT clients
/// exactly where streaming is on and the stream is there, and one object to the JSON file
/// exactly where there is one.
pub proof fn law_every_sink_gets_the_event(
    e: &mut Emitter,
    state: &mut RuntimeState,
    names: &mut NameCache,
    ev: &TxEvent,
    parcel: Option<&[u8]>,
    found: Option<i32>,
    look: &Look,
    later: &Look,
    offset_ns: i128,
    east: i32,
    r: Emission,
)
    requires
        call_ensures(
            Emitter::emit,
            (e, state, names, ev, parcel, found, look, later, offset_ns, east),
            r,
        ),
        old(state)@.capturing,
    ensures
        r.console is Some <==> (old(state)@.sink == Sink::Console || old(state)@.sink
            == Sink::Both),
        r.logcat is Some <==> (old(state)@.sink == Sink::Logcat || old(state)@.sink == Sink::Both),
        r.dlt is Some <==> (old(state)@.dlt_on && old(e).dlt is Some),
        r.json is Some <==> old(e).jsonl,
{
}

/// The sinks say the same: what logcat gets is the marker and a line, what the console
/// gets is the clock and the same line, and a DLT client reads what logcat gets, wherever
/// the message fits its length field.
pub proof fn law_sinks_say_the_same(
    e: &mut Emitter,
    state: &mut RuntimeState,
    names: &mut NameCache,
    ev: &TxEvent,
    parcel: Option<&[u8]>,
    found: Option<i32>,
    look: &Look,
    later: &Look,
    offset_ns: i128,
    east: i32,
    r: Emission,
) -> (line: Seq<char>)
    requires
        call_ensures(
            Emitter::emit,
            (e, state, names, ev, parcel, found, look, later, offset_ns, east),
            r,
        ),
        old(state)@.capturing,
    ensures
        r.console matches Some(s) ==> s@ == clock_text(ev.ts_ns, offset_ns, east) + " "@ + line,
        r.logcat matches Some(s) ==> s@ == "BINDFETTO"@ + " "@ + line,
        r.dlt matches Some(m) ==> ({
            let text = "BINDFETTO"@ + " "@ + line;
            29 + encode_utf8(text).len() <= u16::MAX ==> {
                &&& m@.len() == 29 + encode_utf8(text).len()
                &&& decode_utf8(m@.subrange(28, m@.len() - 1)) == text
            }
        }),
        !old(e).jsonl ==> line == event_line(
            *ev,
            bytes_of(parcel),
            final(names)@,
            errno_of(*ev, found),
        ),
{
    let s = old(state)@;
    let line = event_line(
        *ev,
        bytes_of(parcel),
        names_after(old(names)@, *ev, *look),
        errno_of(*ev, found),
    );
    if r.console is Some {
        assert(text_of(r.console) == Some(r.console->0@));
    }
    if r.logcat is Some {
        assert(text_of(r.logcat) == Some(r.logcat->0@));
    }
    if r.dlt is Some {
        let d = old(e).dlt->0;
        let text = marked(line);
        assert(message_of(r.dlt) == Some(r.dlt->0@));
        if 29 + encode_utf8(text).len() <= u16::MAX {
            law_message_is_readable(
                d.counter,
                tenths_ms(ev.ts_ns),
                d.ecu@,
                d.apid@,
                d.ctid@,
                text,
            );
        }
    }
    line
}

/// Each DLT message carries the counter of the stream and its ids, and moves the counter
/// on by one, from 255 to 0; where no message is sent, the stream stays as it is.
pub proof fn law_dlt_stream_counts(
    e: &mut Emitter,
    state: &mut RuntimeState,
    names: &mut NameCache,
    ev: &TxEvent,
    parcel: Option<&[u8]>,
    found: Option<i32>,
    look: &Look,
    later: &Look,
    offset_ns: i128,
    east: i32,
    r: Emission,
)
    requires
        call_ensures(
            Emitter::emit,
            (e, state, names, ev, parcel, found, look, later, offset_ns, east),
            r,
        ),
    ensures
        r.dlt is None ==> final(e).dlt == old(e).dlt,
        r.dlt matches Some(m) ==> {
            &&& old(e).dlt is Some && final(e).dlt is Some
            &&& final(e).dlt->0.counter == (old(e).dlt->0.counter + 1) % 256
            &&& final(e).dlt->0.ecu == old(e).dlt->0.ecu
            &&& final(e).dlt->0.apid == old(e).dlt->0.apid
            &&& final(e).dlt->0.ctid == old(e).dlt->0.ctid
            &&& m@[1] == old(e).dlt->0.counter
            &&& m@.subrange(4, 8) == old(e).dlt->0.ecu@
            &&& m@.subrange(14, 18) == old(e).dlt->0.apid@
            &&& m@.subrange(18, 22) == old(e).dlt->0.ctid@
            &&& 0x1_0000 * be16_at(m@, 8) + be16_at(m@, 10) == ev.ts_ns / 100_000 % 0x1_0000_0000
        },
{
    if r.dlt is Some {
        let d = old(e).dlt->0;
        let m = r.dlt->0@;
        assert(message_of(r.dlt) == Some(m));
        assert(m.subrange(4, 8) =~= d.ecu@);
        assert(m.subrange(14, 18) =~= d.apid@);
        assert(m.subrange(18, 22) =~= d.ctid@);
    }
}

/// A stopped capture puts nothing out and keeps nothing of the event: only the count of
/// drained events moves on. While it runs, both counts do.
pub proof fn law_stopped_capture_is_silent(
    e: &mut Emitter,
    state: &mut RuntimeState,
    names: &mut NameCache,
    ev: &TxEvent,
    parcel: Option<&[u8]>,
    found: Option<i32>,
    look: &Look,
    later: &Look,
    offset_ns: i128,
    east: i32,
    r: Emission,
)
    requires
        call_ensures(
            Emitter::emit,
            (e, state, names, ev, parcel, found, look, later, offset_ns, east),
            r,
        ),
    ensures
        final(state)@.captured == (old(state)@.captured + 1) % 0x1_0000_0000_0000_0000,
        final(state)@.emitted == if old(state)@.capturing {
            (old(state)@.emitted + 1) % 0x1_0000_0000_0000_0000
        } else {
            old(state)@.emitted as int
        },
        !old(state)@.capturing ==> {
            &&& r.console is None && r.logcat is None && r.dlt is None && r.json is None
            &&& final(names)@ == old(names)@
            &&& final(state)@.observed == old(state)@.observed
            &&& final(e).dlt == old(e).dlt
        },
        final(state)@.capturing == old(state)@.capturing,
        final(state)@.discovering == old(state)@.discovering,
        final(state)@.sink == old(state)@.sink,
        final(state)@.dlt_on == old(state)@.dlt_on,
        final(state)@.errors_on == old(state)@.errors_on,
        final(state)@.parcel_on == old(state)@.parcel_on,
        final(state)@.parcel_max == old(state)@.parcel_max,
        final(state)@.filter == old(state)@.filter,
{
}

/// Discovery records the interface of every call that is captured and carries one, and of
/// nothing else; what was recorded stays.
pub proof fn law_discovery_records_every_interface(
    e: &mut Emitter,
    state: &mut RuntimeState,
    names: &mut NameCache,
    ev: &TxEvent,
    parcel: Option<&[u8]>,
    found: Option<i32>,
    look: &Look,
    later: &Look,
    offset_ns: i128,
    east: i32,
    r: Emission,
    t: Seq<char>,
)
    requires
        call_ensures(
            Emitter::emit,
            (e, state, names, ev, parcel, found, look, later, offset_ns, east),
            r,
        ),
    ensures
        old(state)@.observed.contains(t) ==> final(state)@.observed.contains(t),
        old(state)@.capturing && old(state)@.discovering && ev.err_code == 0 && event_iface(*ev)
            == t && t.len() > 0 ==> final(state)@.observed.contains(t),
        final(state)@.observed.contains(t) && !old(state)@.observed.contains(t) ==> {
            &&& old(state)@.capturing && old(state)@.discovering
            &&& ev.err_code == 0 && event_iface(*ev) == t
        },
{
}

/// The errno that the kernel shows of a failure is the one that is reported, whatever it
/// is; 0 says nothing, and a call that did not fail has none.
pub proof fn law_errno_is_reported(ev: TxEvent, errno: i32)
    ensures
        ev.err_code != 0 && errno != 0 ==> errno_of(ev, Some(errno)) == Some(errno),
        ev.err_code == 0 || errno == 0 ==> errno_of(ev, Some(errno)) is None,
        errno_of(ev, None) is None,
{
}

/// The names in a line are those that `/proc` shows at the time: a process that was not
/// known goes by its command line from its first event on, the sender and the target alike.
pub proof fn law_line_goes_by_fresh_names(
    e: &mut Emitter,
    state: &mut RuntimeState,
    names: &mut NameCache,
    ev: &TxEvent,
    parcel: Option<&[u8]>,
    found: Option<i32>,
    look: &Look,
    later: &Look,
    offset_ns: i128,
    east: i32,
    f: Seq<u8>,
    r: Emission,
)
    requires
        call_ensures(
            Emitter::emit,
            (e, state, names, ev, parcel, found, look, later, offset_ns, east),
            r,
        ),
        old(state)@.capturing,
    ensures
        !old(names)@.contains_key(ev.src_pid) && (look.src.cmdline matches Some(b)
            && starts_with_field(b@, f)) && !is_fallback(lossy_text(f), ev.src_pid) ==> final(
            names)@.contains_key(ev.src_pid) && final(names)@[ev.src_pid] == lossy_text(f),
        ev.dst_pid != ev.src_pid && !old(names)@.contains_key(ev.dst_pid) && (
        look.dst.cmdline matches Some(b) && starts_with_field(b@, f)) && !is_fallback(
            lossy_text(f),
            ev.dst_pid,
        ) ==> final(names)@.contains_key(ev.dst_pid) && final(names)@[ev.dst_pid] == lossy_text(f),
        final(names)@.contains_key(ev.src_pid) && final(names)@.contains_key(ev.dst_pid),
{
    if look.src.cmdline is Some {
        let b = look.src.cmdline->0@;
        if starts_with_field(b, f) {
            lemma_zero_behind(b, f, 0);
        }
    }
    if look.dst.cmdline is Some {
        let b = look.dst.cmdline->0@;
        if starts_with_field(b, f) {
            lemma_zero_behind(b, f, 0);
        }
    }
}

/// The JSON object is that of the same event, by the names that are known behind it.
pub proof fn law_json_goes_by_the_last_names(
    e: &mut Emitter,
    state: &mut RuntimeState,
    names: &mut NameCache,
    ev: &TxEvent,
    parcel: Option<&[u8]>,
    found: Option<i32>,
    look: &Look,
    later: &Look,
    offset_ns: i128,
    east: i32,
    r: Emission,
)
    requires
        call_ensures(
            Emitter::emit,
            (e, state, names, ev, parcel, found, look, later, offset_ns, east),
            r,
        ),
        old(state)@.capturing,
        old(e).jsonl,
    ensures
        r.json matches Some(j) && j@ == json_line(
            *ev,
            bytes_of(parcel),
            final(names)@,
            errno_of(*ev, found),
            wall_millis(ev.ts_ns, offset_ns),
        ),
{
    assert(text_of(r.json) == Some(r.json->0@));
}

/// A DLT message is a verbose log message of level INFO with one string in UTF-8, in the
/// network format of protocol version 1, with its headers in place.
pub proof fn law_dlt_message_is_well_formed(
    out: &mut Vec<u8>,
    counter: u8,
    ts_tenths_ms: u32,
    ecu: &[u8; 4],
    apid: &[u8; 4],
    ctid: &[u8; 4],
    text: &str,
)
    requires
        call_ensures(encode, (out, counter, ts_tenths_ms, ecu, apid, ctid, text), ()),
    ensures
        ({
            let m = final(out)@;
            let n = encode_utf8(text@).len();
            &&& m.len() == 29 + n
            &&& m[0] == 0x01 + 0x02 + 0x04 + 0x10 + 0x20
            &&& m[1] == counter
            &&& be16_at(m, 2) == (29 + n) % 0x1_0000
            &&& m.subrange(4, 8) == ecu@
            &&& 0x1_0000 * be16_at(m, 8) + be16_at(m, 10) == ts_tenths_ms
            &&& m[12] == 0x41 && m[13] == 1
            &&& m.subrange(14, 18) == apid@
            &&& m.subrange(18, 22) == ctid@
            &&& be16_at(m, 22) == 0 && be16_at(m, 24) == 0x8200
            &&& be16_at(m, 26) == (1 + n) % 0x1_0000
            &&& m.subrange(28, 28 + n as int) == encode_utf8(text@)
            &&& m.last() == 0
        }),
{
    let m = final(out)@;
    let n = encode_utf8(text@).len() as int;
    assert(m.subrange(4, 8) =~= ecu@);
    assert(m.subrange(14, 18) =~= apid@);
    assert(m.subrange(18, 22) =~= ctid@);
    assert(m.subrange(28, 28 + n) =~= encode_utf8(text@));
}

/// A DLT id is the first four bytes of its text, with zeros where there are fewer.
pub proof fn law_dlt_id(s: &str, r: [u8; 4], i: int)
    requires
        call_ensures(id4, (s,), r),
        0 <= i < 4,
    ensures
        i < encode_utf8(s@).len() ==> r@[i] == encode_utf8(s@)[i],
        i >= encode_utf8(s@).len() ==> r@[i] == 0,
{
}

/// The sinks go by their names and their numbers: each is found again by either, and a name
/// that none has finds none.
pub proof fn law_sinks_go_by_their_names(
    sink: Sink,
    name: &'static str,
    n: u8,
    by_number: Sink,
    word: &str,
    by_name: Option<Sink>,
)
    requires
        call_ensures(Sink::name, (sink,), name),
        call_ensures(Sink::as_u8, (sink,), n),
        call_ensures(Sink::from_u8, (n,), by_number),
        call_ensures(Sink::from_name, (word,), by_name),
    ensures
        by_number == sink,
        word@ == name@ ==> by_name == Some(sink),
        by_name == Some(sink) ==> word@ == name@,
        name@ == match sink {
            Sink::Console => "console"@,
            Sink::Logcat => "logcat"@,
            Sink::Both => "both"@,
            Sink::Quiet => "none"@,
        },
{
    law_sink_names(sink, word@);
}

/// A process that goes by its number after the first look goes by its command line where a
/// later look shows it, before the JSON object is written.
pub proof fn law_later_look_names_the_sender(
    e: &mut Emitter,
    state: &mut RuntimeState,
    names: &mut NameCache,
    ev: &TxEvent,
    parcel: Option<&[u8]>,
    found: Option<i32>,
    look: &Look,
    later: &Look,
    offset_ns: i128,
    east: i32,
    f: Seq<u8>,
    r: Emission,
)
    requires
        call_ensures(
            Emitter::emit,
            (e, state, names, ev, parcel, found, look, later, offset_ns, east),
            r,
        ),
        old(state)@.capturing,
        old(e).jsonl,
        starts_with_field(f, f),
    ensures
        !old(names)@.contains_key(ev.src_pid) && look.src.cmdline is None && look.src.task is None
            && ev.src_comm@[0] == 0 && ev.dst_pid != ev.src_pid && (
        later.src.cmdline matches Some(b) && starts_with_field(b@, f)) && !is_fallback(
            lossy_text(f),
            ev.src_pid,
        ) ==> final(names)@[ev.src_pid] == lossy_text(f),
        !old(names)@.contains_key(ev.dst_pid) && look.dst.cmdline is None && look.dst.task is None
            && ev.dst_pid != ev.src_pid && (later.dst.cmdline matches Some(b) && starts_with_field(
            b@,
            f,
        )) && !is_fallback(lossy_text(f), ev.dst_pid) ==> final(names)@[ev.dst_pid] == lossy_text(
            f,
        ),
{
    law_fallback_is_recognised(ev.src_pid);
    law_fallback_is_recognised(ev.dst_pid);
    let none = Seq::new(COMM_LEN as nat, |i: int| 0u8);
    assert(zero_from(none, 0) == 0);
    if ev.src_comm@[0] == 0 {
        assert(zero_from(ev.src_comm@, 0) == 0);
    }
    if later.src.cmdline is Some {
        let b = later.src.cmdline->0@;
        if starts_with_field(b, f) {
            lemma_zero_behind(b, f, 0);
        }
    }
    if later.dst.cmdline is Some {
        let b = later.dst.cmdline->0@;
        if starts_with_field(b, f) {
            lemma_zero_behind(b, f, 0);
        }
    }
}

/// What the kernel's log shows is known, but for 0, which tells nothing.
pub proof fn law_zero_errno_is_unknown(found: Option<i32>, r: Option<i32>)
    requires
        call_ensures(known_errno, (found,), r),
    ensures
        found matches Some(e) ==> (e != 0 ==> r == Some(e)) && (e == 0 ==> r is None),
        found is None ==> r is None,
{
}

/// A DLT stream starts at its first message, under the ids of the tool.
pub proof fn law_dlt_stream_starts(r: DltState)
    requires
        call_ensures(DltState::new, (), r),
    ensures
        r.counter == 0,
        r.ecu@ == encode_utf8("BFTO"@),
        r.apid@ == encode_utf8("BFTO"@),
        r.ctid@ == encode_utf8("BIND"@),
{
    reveal_strlit("BFTO");
    reveal_strlit("BIND");
    assert(is_ascii_chars("BFTO"@));
    assert(is_ascii_chars("BIND"@));
    is_ascii_chars_encode_utf8("BFTO"@);
    is_ascii_chars_encode_utf8("BIND"@);
    assert(r.ecu@ =~= encode_utf8("BFTO"@));
    assert(r.apid@ =~= encode_utf8("BFTO"@));
    assert(r.ctid@ =~= encode_utf8("BIND"@));
}

/// Each message of a DLT stream carries its text under the stream's counter, and moves the
/// counter on.
pub proof fn law_dlt_stream_goes_on(d: &mut DltState, ts_ns: u64, text: &str, r: Vec<u8>)
    requires
        call_ensures(DltState::next, (d, ts_ns, text), r),
    ensures
        final(d).counter == (old(d).counter + 1) % 256,
        final(d).ecu == old(d).ecu && final(d).apid == old(d).apid && final(d).ctid == old(d).ctid,
        r@.len() == 29 + encode_utf8(text@).len(),
        r@[1] == old(d).counter,
        r@.subrange(28, r@.len() - 1) == encode_utf8(text@),
{
    assert(r@.subrange(28, r@.len() - 1) =~= encode_utf8(text@));
}

/// The console and logcat get lines as the sink says.
pub proof fn law_sinks_are_told_apart(sink: Sink, console: bool, logcat: bool)
    requires
        call_ensures(Sink::console, (sink,), console),
        call_ensures(Sink::logcat, (sink,), logcat),
    ensures
        sink == Sink::Console ==> console && !logcat,
        sink == Sink::Logcat ==> !console && logcat,
        sink == Sink::Both ==> console && logcat,
        sink == Sink::Quiet ==> !console && !logcat,
{
}

} // verus!
