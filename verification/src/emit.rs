//! What one captured event puts out: to which sinks, and in what form.

use crate::clock::{clock_text, is_wall_time, wall_millis, write_timestamp};
use crate::control::{next_count, RuntimeState, StateView};
use crate::dlt::{next_counter, DltState};
use crate::event::{COMM_LEN, TxEvent};
use crate::line::{event_iface, event_line, format_event, json_line, write_iface, write_jsonl};
use crate::names::{all_named, bytes_of, ensured, NameCache};
use crate::sink::Sink;
use crate::text::{push_text, str_of, text_of, text_of_str};
use vstd::prelude::*;

verus! {

/// Tag of logcat lines.
pub const LOG_TAG: &'static str = "bindfetto";

/// Marker in the message, so that lines can be told even in a merged log where the tag
/// may be lost.
pub const LOG_MARKER: &'static str = "BINDFETTO";

/// What an event puts out.
pub struct Emission {
    /// The line for the console, where it goes there.
    pub console: Option<String>,
    /// The message for logcat, where it goes there.
    pub logcat: Option<String>,
    /// The message for DLT clients, where it goes there.
    pub dlt: Option<Vec<u8>>,
    /// The line for the JSON file, where there is one.
    pub json: Option<String>,
}

/// What `/proc` shows of a process at one look: its command line and its task name, where
/// they can be read.
pub struct ProcLook {
    pub cmdline: Option<Vec<u8>>,
    pub task: Option<String>,
}

/// What `/proc` shows of the two processes of an event at one look.
pub struct Look {
    pub src: ProcLook,
    pub dst: ProcLook,
}

/// The names known after a look at the two processes of an event. Of the sender the probe
/// captured the task name.
pub open spec fn names_after(names: Map<u32, Seq<char>>, ev: TxEvent, look: Look) -> Map<
    u32,
    Seq<char>,
> {
    let src = ensured(
        names,
        ev.src_pid,
        ev.src_comm@,
        message_of(look.src.cmdline),
        text_of(look.src.task),
    );
    ensured(
        src,
        ev.dst_pid,
        Seq::new(COMM_LEN as nat, |i: int| 0u8),
        message_of(look.dst.cmdline),
        text_of(look.dst.task),
    )
}

/// Resolves the names of the two processes of an event, where that is still to be done.
pub fn resolve_names(names: &mut NameCache, ev: &TxEvent, look: &Look)
    ensures
        final(names)@ == names_after(old(names)@, *ev, *look),
        all_named(old(names)@) ==> all_named(final(names)@),
{
    names.ensure_with_comm(
        ev.src_pid,
        &ev.src_comm,
        slice_of(&look.src.cmdline),
        str_slice_of(&look.src.task),
    );
    names.ensure(ev.dst_pid, slice_of(&look.dst.cmdline), str_slice_of(&look.dst.task));
}

/// Optional bytes, borrowed.
fn slice_of(b: &Option<Vec<u8>>) -> (r: Option<&[u8]>)
    ensures
        bytes_of(r) == message_of(*b),
{
    match b {
        Some(b) => Some(b.as_slice()),
        None => None,
    }
}

/// An optional string, borrowed.
fn str_slice_of(s: &Option<String>) -> (r: Option<&str>)
    ensures
        str_of(r) == text_of(*s),
{
    match s {
        Some(s) => Some(s.as_str()),
        None => None,
    }
}

/// A line behind its marker.
pub open spec fn marked(line: Seq<char>) -> Seq<char> {
    LOG_MARKER@ + " "@ + line
}

/// The line behind its marker.
fn mark(line: &str) -> (r: String)
    ensures
        r@ == marked(line@),
{
    let mut out: String = text_of_str(LOG_MARKER);
    push_text(&mut out, " ");
    push_text(&mut out, line);
    out
}

/// The errno to report, by what the kernel's log shows: 0 tells nothing.
pub fn known_errno(found: Option<i32>) -> (r: Option<i32>)
    ensures
        r == (if found == Some(0i32) {
            None
        } else {
            found
        }),
{
    match found {
        Some(e) => if e != 0 {
            Some(e)
        } else {
            None
        },
        None => None,
    }
}

/// Whether an event's interface is to be recorded: while discovering, of transactions
/// that carry one (an error repeats an interface already seen).
pub open spec fn discovers(s: StateView, ev: TxEvent) -> bool {
    s.discovering && !ev.failed() && event_iface(ev).len() > 0
}

/// Turns events into output.
pub struct Emitter {
    /// The DLT stream, where a server is bound.
    pub dlt: Option<DltState>,
    /// Whether there is a JSON file.
    pub jsonl: bool,
}

/// The errno to report of an event, by what the kernel's log shows of it: only errors have
/// one, and 0 tells nothing.
pub open spec fn errno_of(ev: TxEvent, found: Option<i32>) -> Option<i32> {
    if ev.failed() && found != Some(0i32) {
        found
    } else {
        None
    }
}

/// What optional bytes hold.
pub open spec fn message_of(b: Option<Vec<u8>>) -> Option<Seq<u8>> {
    match b {
        Some(b) => Some(b@),
        None => None,
    }
}

/// Whether `r` holds what `line`, the line of `ev`, puts out to the text sinks and to DLT
/// clients, from the stream at `before` to `after`.
pub open spec fn puts_out(
    r: Emission,
    s: StateView,
    ev: TxEvent,
    line: Seq<char>,
    clock: Seq<char>,
    before: Option<DltState>,
    after: Option<DltState>,
) -> bool {
    &&& text_of(r.console) == (if s.sink == Sink::Console || s.sink == Sink::Both {
        Some(clock + " "@ + line)
    } else {
        None
    })
    &&& text_of(r.logcat) == (if s.sink == Sink::Logcat || s.sink == Sink::Both {
        Some(marked(line))
    } else {
        None
    })
    &&& match before {
        Some(d) if s.dlt_on => {
            &&& message_of(r.dlt) == Some(d.message_for(ev.ts_ns, marked(line)))
            &&& after == Some(DltState { counter: next_counter(d.counter), ..d })
        },
        _ => r.dlt is None && after == before,
    }
}

/// Whether `r` puts nothing out.
pub open spec fn is_silent(r: Emission) -> bool {
    r.console is None && r.logcat is None && r.dlt is None && r.json is None
}

impl Emitter {
    /// Puts out the line of an event that passed the capture gate, and records its
    /// interface where that is asked for.
    fn emit_line(
        &mut self,
        state: &mut RuntimeState,
        ev: &TxEvent,
        line: &str,
        offset_ns: i128,
        east: i32,
    ) -> (r: Emission)
        requires
            old(state).wf(),
            is_wall_time(ev.ts_ns, offset_ns),
            -86_400 < east < 86_400,
        ensures
            final(state).wf(),
            final(state)@ == (StateView { observed: final(state)@.observed, ..old(state)@ }),
            forall|t: Seq<char>|
                #[trigger] final(state)@.observed.contains(t) <==> (old(state)@.observed.contains(t)
                    || (discovers(old(state)@, *ev) && t == event_iface(*ev))),
            puts_out(
                r,
                old(state)@,
                *ev,
                line@,
                clock_text(ev.ts_ns, offset_ns, east),
                old(self).dlt,
                final(self).dlt,
            ),
            r.json is None,
            final(self).jsonl == old(self).jsonl,
    {
        if !ev.is_error() && state.discovering {
            let mut iface: String = String::new();
            if write_iface(&mut iface, ev) {
                assert(iface@ =~= event_iface(*ev));
                state.observed.insert(&iface);
            }
        }
        let console: Option<String> = if state.sink.console() {
            let mut out: String = String::new();
            write_timestamp(&mut out, ev.ts_ns, offset_ns, east);
            push_text(&mut out, " ");
            push_text(&mut out, line);
            assert(out@ =~= clock_text(ev.ts_ns, offset_ns, east) + " "@ + line@);
            Some(out)
        } else {
            None
        };
        let logcat: Option<String> = if state.sink.logcat() {
            Some(mark(line))
        } else {
            None
        };
        let dlt: Option<Vec<u8>> = if state.dlt_on {
            match &mut self.dlt {
                Some(d) => Some(d.next(ev.ts_ns, &mark(line))),
                None => None,
            }
        } else {
            None
        };
        Emission { console, logcat, dlt, json: None }
    }

    /// Takes one drained event: counts it, and where capture is on emits it to every
    /// configured sink. While capture is stopped it puts nothing out, and neither records
    /// an interface nor resolves a name.
    ///
    /// `parcel` carries the raw captured parcel bytes when payload capture ran for this
    /// transaction; `found` is the errno that the kernel's log shows for a failed one.
    /// `look` and `later` are what `/proc` shows of the two processes before the line and
    /// before the JSON object. Local time is `east` seconds east of UTC.
    pub fn emit(
        &mut self,
        state: &mut RuntimeState,
        names: &mut NameCache,
        ev: &TxEvent,
        parcel: Option<&[u8]>,
        found: Option<i32>,
        look: &Look,
        later: &Look,
        offset_ns: i128,
        east: i32,
    ) -> (r: Emission)
        requires
            old(state).wf(),
            is_wall_time(ev.ts_ns, offset_ns),
            -86_400 < east < 86_400,
        ensures
            final(state).wf(),
            final(self).jsonl == old(self).jsonl,
            all_named(old(names)@) ==> all_named(final(names)@),
            ({
                let s = old(state)@;
                let errno = errno_of(*ev, found);
                let first = names_after(old(names)@, *ev, *look);
                let second = names_after(first, *ev, *later);
                if s.capturing {
                    &&& final(state)@ == (StateView {
                        captured: next_count(s.captured),
                        emitted: next_count(s.emitted),
                        observed: final(state)@.observed,
                        ..s
                    })
                    &&& forall|t: Seq<char>|
                        #[trigger] final(state)@.observed.contains(t) <==> (s.observed.contains(t)
                            || (discovers(s, *ev) && t == event_iface(*ev)))
                    &&& puts_out(
                        r,
                        s,
                        *ev,
                        event_line(*ev, bytes_of(parcel), first, errno),
                        clock_text(ev.ts_ns, offset_ns, east),
                        old(self).dlt,
                        final(self).dlt,
                    )
                    &&& text_of(r.json) == (if old(self).jsonl {
                        Some(
                            json_line(
                                *ev,
                                bytes_of(parcel),
                                second,
                                errno,
                                wall_millis(ev.ts_ns, offset_ns),
                            ),
                        )
                    } else {
                        None
                    })
                    &&& final(names)@ == (if old(self).jsonl {
                        second
                    } else {
                        first
                    })
                } else {
                    &&& is_silent(r)
                    &&& final(state)@ == (StateView { captured: next_count(s.captured), ..s })
                    &&& final(names)@ == old(names)@
                    &&& final(self).dlt == old(self).dlt
                }
            }),
    {
        if !state.count_event() {
            return Emission { console: None, logcat: None, dlt: None, json: None };
        }
        let errno: Option<i32> = if ev.is_error() {
            known_errno(found)
        } else {
            None
        };
        resolve_names(names, ev, look);
        let line: String = format_event(ev, parcel, names, errno);
        let mut out: Emission = self.emit_line(state, ev, &line, offset_ns, east);
        if self.jsonl {
            resolve_names(names, ev, later);
            out.json = Some(write_jsonl(ev, parcel, names, errno, offset_ns));
        }
        out
    }
}

} // verus!
