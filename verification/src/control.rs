//! The live-tunable state of the consumer, and the control channel that tunes it.
//!
//! The channel is line-oriented. Commands, one per line:
//!
//! * `STATUS`: `key=value` lines, then `END`.
//! * `START`, `STOP`: toggle capture; reply `OK`.
//! * `SINK console|logcat|both|none`: switch the text sink; reply `OK` or `ERR`.
//! * `DLT on|off`: toggle DLT streaming; reply `OK`.
//! * `ERRORS on|off`: toggle error capture; reply `OK`.
//! * `PARCEL on|off`: toggle parcel capture (needs an active filter); `OK` or `ERR`.
//! * `PARCEL max <bytes>`: set the payload cap (clamped to the ceiling); `OK <n>`.
//! * `TRACK on|off`: toggle interface discovery; reply `OK`.
//! * `LIST`: every interface descriptor seen so far, one per line, then `END`.
//! * `GET`: the interfaces in the active filter, one per line, then `END`.
//! * `SET a,b,c`: replace the in-kernel filter; reply `OK <n>`.
//! * `CLEAR`: disable filtering; reply `OK 0`.
//!
//! A command that changes kernel maps is answered in two turns: [`RuntimeState::request`]
//! says which change to make, and the function for that change takes its outcome and
//! gives the reply.

use crate::event::PARCEL_CEILING;
use crate::filter::{
    filter_after, lemma_listed_trim, lemma_listed_trim_end, listed, split_names, FilterCtl,
    FilterOutcome, FilterView,
};
use crate::observed::Observed;
use crate::sink::{sink_named, Sink};
use crate::text::{
    chars_of, decimal, find, find_from, is_white, lemma_find_behind, lemma_find_none,
    lemma_first_char_absent, lemma_run_start, lemma_run_start_is, lemma_trim_keeps, lower_text,
    lowered, occurs_at, parse_unsigned, push_chars, push_decimal, push_text, read_unsigned, run_end,
    run_start, same_chars, string_of, text_of_str, texts, trim, trim_start, trimmed, upper_text,
    uppered, CharClass,
};
use vstd::prelude::*;
use vstd::slice::slice_subrange;

verus! {

/// The state that the control channel tunes and the emitter reads.
pub struct RuntimeState {
    /// Master capture toggle: when off, drained events are dropped.
    pub capturing: bool,
    /// Interface discovery: when off, observed interfaces are not recorded.
    pub discovering: bool,
    /// Active text sink.
    pub sink: Sink,
    /// Whether transactions are streamed to the DLT server.
    pub dlt_on: bool,
    /// Whether error capture is on.
    pub errors_on: bool,
    /// Whether parcel payload capture is on.
    pub parcel_on: bool,
    /// Cap (bytes) on captured parcel payload.
    pub parcel_max: u32,
    /// The DLT server's port (0 if no server was bound).
    pub dlt_port: u16,
    /// Total transactions drained from the ring buffer.
    pub captured: u64,
    /// Transactions that passed the capture gate.
    pub emitted: u64,
    /// Every interface descriptor seen while discovering.
    pub observed: Observed,
    /// The in-kernel interface filter.
    pub filter: FilterCtl,
}

/// What a [`RuntimeState`] holds.
pub struct StateView {
    pub capturing: bool,
    pub discovering: bool,
    pub sink: Sink,
    pub dlt_on: bool,
    pub errors_on: bool,
    pub parcel_on: bool,
    pub parcel_max: u32,
    pub dlt_port: u16,
    pub captured: u64,
    pub emitted: u64,
    pub observed: Seq<Seq<char>>,
    pub filter: FilterView,
}

impl View for RuntimeState {
    type V = StateView;

    open spec fn view(&self) -> StateView {
        StateView {
            capturing: self.capturing,
            discovering: self.discovering,
            sink: self.sink,
            dlt_on: self.dlt_on,
            errors_on: self.errors_on,
            parcel_on: self.parcel_on,
            parcel_max: self.parcel_max,
            dlt_port: self.dlt_port,
            captured: self.captured,
            emitted: self.emitted,
            observed: self.observed@,
            filter: self.filter@,
        }
    }
}

/// What a control request asks for.
pub enum Step {
    /// Nothing, and no reply either.
    Silent,
    /// This reply.
    Reply(String),
    /// Switch error capture in the kernel.
    Errors(bool),
    /// Switch parcel capture in the kernel.
    Parcel(bool),
    /// Set the kernel's cap on captured payload.
    ParcelMax(u32),
    /// Replace the kernel's interface filter.
    Filter(Vec<String>),
}

/// What a [`Step`] says.
pub enum StepView {
    Silent,
    Reply(Seq<char>),
    Errors(bool),
    Parcel(bool),
    ParcelMax(u32),
    Filter(Seq<Seq<char>>),
}

impl View for Step {
    type V = StepView;

    open spec fn view(&self) -> StepView {
        match *self {
            Step::Silent => StepView::Silent,
            Step::Reply(s) => StepView::Reply(s@),
            Step::Errors(on) => StepView::Errors(on),
            Step::Parcel(on) => StepView::Parcel(on),
            Step::ParcelMax(n) => StepView::ParcelMax(n),
            Step::Filter(names) => StepView::Filter(texts(names@)),
        }
    }
}

/// `s` up to its first space, and what stands behind that, trimmed.
pub open spec fn split_word(s: Seq<char>) -> (Seq<char>, Seq<char>) {
    match find_from(s, " "@, 0) {
        Some(i) => (s.take(i), trim(s.skip(i + 1))),
        None => (s, seq![]),
    }
}

/// The truth value that a word switches to, whatever its case.
pub open spec fn switch_of(word: Seq<char>) -> Option<bool> {
    let w = lower_text(word);
    if w == "on"@ || w == "1"@ || w == "true"@ {
        Some(true)
    } else if w == "off"@ || w == "0"@ || w == "false"@ {
        Some(false)
    } else {
        None
    }
}

/// A cap on captured payload, clamped to the ceiling.
pub open spec fn clamped(bytes: u32) -> u32 {
    if bytes <= PARCEL_CEILING {
        bytes
    } else {
        PARCEL_CEILING as u32
    }
}

/// Whether the interface filter is active: the kernel filters, and by some interface.
pub open spec fn is_filtering(f: FilterView) -> bool {
    f.on && f.active.len() > 0
}

/// `on` or `off`.
pub open spec fn on_or_off(b: bool) -> Seq<char> {
    if b {
        "on"@
    } else {
        "off"@
    }
}

/// The reply to `STATUS`.
pub open spec fn status_text(s: StateView) -> Seq<char> {
    "capturing="@ + on_or_off(s.capturing) + "\ndiscovering="@ + on_or_off(s.discovering)
        + "\nsink="@ + s.sink.named() + "\ndlt="@ + on_or_off(s.dlt_on) + "\ndlt_port="@ + decimal(
        s.dlt_port as nat,
    ) + "\nerrors="@ + on_or_off(s.errors_on) + "\nparcel="@ + on_or_off(s.parcel_on)
        + "\nparcel_max="@ + decimal(s.parcel_max as nat) + "\nfilter="@ + decimal(
        s.filter.active.len(),
    ) + "\ncaptured="@ + decimal(s.captured as nat) + "\nemitted="@ + decimal(s.emitted as nat)
        + "\nEND\n"@
}

/// Items one per line.
pub open spec fn item_lines(items: Seq<Seq<char>>) -> Seq<char>
    decreases items.len(),
{
    if items.len() == 0 {
        seq![]
    } else {
        item_lines(items.drop_last()) + items.last() + "\n"@
    }
}

/// The reply to `LIST` and `GET`.
pub open spec fn list_text(items: Seq<Seq<char>>) -> Seq<char> {
    item_lines(items) + "END\n"@
}

/// The reply to `PARCEL` with what stands behind it.
pub open spec fn parcel_step(s: StateView, rest: Seq<char>) -> StepView {
    let (sub, arg) = split_word(rest);
    if lower_text(sub) == "max"@ {
        match parse_unsigned(arg, u32::MAX as nat) {
            Some(bytes) => StepView::ParcelMax(clamped(bytes as u32)),
            None => StepView::Reply("ERR PARCEL max needs a byte count\n"@),
        }
    } else {
        match switch_of(rest) {
            Some(on) => if on && !is_filtering(s.filter) {
                StepView::Reply(
                    "ERR "@ + "PARCEL needs an active interface filter (SET one first)"@ + "\n"@,
                )
            } else {
                StepView::Parcel(on)
            },
            None => StepView::Reply("ERR PARCEL needs on|off or max <bytes>\n"@),
        }
    }
}

/// What a request does to the state at once, and what it asks for.
pub open spec fn requested(s: StateView, line: Seq<char>) -> (StateView, StepView) {
    let (cmd, rest) = split_word(trim(line));
    let c = upper_text(cmd);
    let ok = StepView::Reply("OK\n"@);
    if c == "STATUS"@ {
        (s, StepView::Reply(status_text(s)))
    } else if c == "START"@ {
        (StateView { capturing: true, ..s }, ok)
    } else if c == "STOP"@ {
        (StateView { capturing: false, ..s }, ok)
    } else if c == "SINK"@ {
        match sink_named(lower_text(rest)) {
            Some(sink) => (StateView { sink, ..s }, ok),
            None => (s, StepView::Reply("ERR sink must be console|logcat|both|none\n"@)),
        }
    } else if c == "DLT"@ {
        match switch_of(rest) {
            Some(on) => (StateView { dlt_on: on, ..s }, ok),
            None => (s, StepView::Reply("ERR DLT needs on|off\n"@)),
        }
    } else if c == "ERRORS"@ {
        match switch_of(rest) {
            Some(on) => (s, StepView::Errors(on)),
            None => (s, StepView::Reply("ERR ERRORS needs on|off\n"@)),
        }
    } else if c == "PARCEL"@ {
        (s, parcel_step(s, rest))
    } else if c == "TRACK"@ {
        match switch_of(rest) {
            Some(on) => (StateView { discovering: on, ..s }, ok),
            None => (s, StepView::Reply("ERR TRACK needs on|off\n"@)),
        }
    } else if c == "LIST"@ {
        (s, StepView::Reply(list_text(s.observed)))
    } else if c == "GET"@ {
        (s, StepView::Reply(list_text(s.filter.active)))
    } else if c == "SET"@ {
        (s, StepView::Filter(listed(rest)))
    } else if c == "CLEAR"@ {
        (s, StepView::Filter(seq![]))
    } else if c.len() == 0 {
        (s, StepView::Silent)
    } else {
        (s, StepView::Reply("ERR unknown command "@ + c + "\n"@))
    }
}

/// Splits `s` at its first space into the word before it and what stands behind it,
/// trimmed.
fn word_and_rest(s: &[char]) -> (r: (&[char], &[char]))
    ensures
        (r.0@, r.1@) == split_word(s@),
{
    proof {
        reveal_strlit(" ");
    }
    match find(s, " ", 0) {
        Some(i) => {
            let word: &[char] = slice_subrange(s, 0, i);
            let rest: &[char] = slice_subrange(s, i + 1, s.len());
            proof {
                assert(word@ =~= s@.take(i as int));
                assert(rest@ =~= s@.skip(i + 1));
            }
            (word, trimmed(rest))
        },
        None => {
            let none: &[char] = slice_subrange(s, s.len(), s.len());
            assert(none@ =~= Seq::<char>::empty());
            (s, none)
        },
    }
}

/// The truth value that a word switches to, whatever its case.
pub fn on_off(word: &[char]) -> (r: Option<bool>)
    ensures
        r == switch_of(word@),
{
    let w: Vec<char> = lowered(word);
    if same_chars(&w, "on") || same_chars(&w, "1") || same_chars(&w, "true") {
        Some(true)
    } else if same_chars(&w, "off") || same_chars(&w, "0") || same_chars(&w, "false") {
        Some(false)
    } else {
        None
    }
}

/// A cap on captured payload, clamped to the ceiling.
pub fn clamp_cap(bytes: u32) -> (r: u32)
    ensures
        r == clamped(bytes),
        r <= PARCEL_CEILING,
{
    if bytes as usize <= PARCEL_CEILING {
        bytes
    } else {
        PARCEL_CEILING as u32
    }
}

/// A reply of this text.
fn reply(text: &str) -> (r: Step)
    ensures
        r@ == StepView::Reply(text@),
{
    Step::Reply(text_of_str(text))
}

/// Appends `on` or `off`.
fn push_on_off(out: &mut String, b: bool)
    ensures
        final(out)@ == old(out)@ + on_or_off(b),
{
    if b {
        push_text(out, "on");
    } else {
        push_text(out, "off");
    }
}

/// The reply that lists items.
fn list_reply(items: &Vec<String>) -> (r: String)
    ensures
        r@ == list_text(texts(items@)),
{
    let mut out: String = String::new();
    let ghost all = texts(items@);
    let mut i: usize = 0;
    assert(all.take(0) =~= Seq::<Seq<char>>::empty());
    assert(out@ =~= item_lines(all.take(0)));
    while i < items.len()
        invariant
            i <= items@.len(),
            all == texts(items@),
            out@ == item_lines(all.take(i as int)),
        decreases items@.len() - i,
    {
        push_text(&mut out, &items[i]);
        push_text(&mut out, "\n");
        proof {
            assert(all[i as int] == items@[i as int]@);
            assert(all.take(i + 1).drop_last() =~= all.take(i as int));
            assert(all.take(i + 1).last() == all[i as int]);
        }
        i += 1;
    }
    assert(all.take(i as int) =~= all);
    push_text(&mut out, "END\n");
    out
}

/// The reply to a change that the kernel was asked for, where nothing more is to be
/// said.
pub open spec fn plain_reply(outcome: Result<(), String>) -> Seq<char> {
    match outcome {
        Ok(_) => "OK\n"@,
        Err(e) => "ERR "@ + e@ + "\n"@,
    }
}

/// `OK <n>`.
pub open spec fn counted_reply(n: nat) -> Seq<char> {
    "OK "@ + decimal(n) + "\n"@
}

/// The reply to a change that the kernel was asked for.
fn answer(outcome: &Result<(), String>) -> (r: String)
    ensures
        r@ == plain_reply(*outcome),
{
    match outcome {
        Ok(_) => text_of_str("OK\n"),
        Err(e) => {
            let mut out: String = text_of_str("ERR ");
            push_text(&mut out, e);
            push_text(&mut out, "\n");
            out
        },
    }
}

/// `OK <n>`.
fn counted(n: usize) -> (r: String)
    ensures
        r@ == counted_reply(n as nat),
{
    let mut out: String = text_of_str("OK ");
    push_decimal(&mut out, n as u64);
    push_text(&mut out, "\n");
    out
}

/// The state after error capture was switched in the kernel, where `ok` says whether it
/// could be.
pub open spec fn errors_after(s: StateView, on: bool, ok: bool) -> StateView {
    if ok {
        StateView { errors_on: on, ..s }
    } else {
        s
    }
}

/// The state after parcel capture was switched in the kernel; it is not switched on
/// without an active filter.
pub open spec fn parcel_after(s: StateView, on: bool, ok: bool) -> StateView {
    if ok && (on ==> is_filtering(s.filter)) {
        StateView { parcel_on: on, ..s }
    } else {
        s
    }
}

/// The state after the kernel's cap on captured payload was set.
pub open spec fn cap_after(s: StateView, bytes: u32, ok: bool) -> StateView {
    if ok {
        StateView { parcel_max: clamped(bytes), ..s }
    } else {
        s
    }
}

/// Whether parcel capture is to be switched off, because no interface is left that it is
/// bounded to.
pub open spec fn drops_parcel(names: Seq<Seq<char>>, outcome: FilterOutcome) -> bool {
    match outcome {
        FilterOutcome::InsertFailed(k) => k == 0,
        _ => names.len() == 0,
    }
}

/// The reply to `SET` and `CLEAR`.
pub open spec fn filter_reply(names: Seq<Seq<char>>, outcome: FilterOutcome) -> Seq<char> {
    match outcome {
        FilterOutcome::Applied => counted_reply(names.len()),
        FilterOutcome::InsertFailed(k) => "ERR "@ + ("insert interface filter "@ + names[k as int])
            + "\n"@,
        FilterOutcome::SwitchFailed => "ERR "@ + "set FILTER_ON"@ + "\n"@,
    }
}

/// The number that follows `n`, back to 0 behind the largest.
pub open spec fn next_count(n: u64) -> u64 {
    if n == u64::MAX {
        0
    } else {
        (n + 1) as u64
    }
}

fn count_on(n: u64) -> (r: u64)
    ensures
        r == next_count(n),
{
    if n == u64::MAX {
        0
    } else {
        n + 1
    }
}

impl RuntimeState {
    /// The observed interfaces are in order.
    pub open spec fn wf(&self) -> bool {
        self.observed.wf()
    }

    /// Tells whether the interface filter is active.
    pub fn filtering(&self) -> (r: bool)
        ensures
            r == is_filtering(self@.filter),
    {
        self.filter.on && self.filter.active.len() > 0
    }

    /// The reply to `STATUS`.
    pub fn status(&self) -> (r: String)
        ensures
            r@ == status_text(self@),
    {
        let mut out: String = text_of_str("capturing=");
        push_on_off(&mut out, self.capturing);
        push_text(&mut out, "\ndiscovering=");
        push_on_off(&mut out, self.discovering);
        push_text(&mut out, "\nsink=");
        push_text(&mut out, self.sink.name());
        push_text(&mut out, "\ndlt=");
        push_on_off(&mut out, self.dlt_on);
        push_text(&mut out, "\ndlt_port=");
        push_decimal(&mut out, self.dlt_port as u64);
        push_text(&mut out, "\nerrors=");
        push_on_off(&mut out, self.errors_on);
        push_text(&mut out, "\nparcel=");
        push_on_off(&mut out, self.parcel_on);
        push_text(&mut out, "\nparcel_max=");
        push_decimal(&mut out, self.parcel_max as u64);
        push_text(&mut out, "\nfilter=");
        push_decimal(&mut out, self.filter.active.len() as u64);
        push_text(&mut out, "\ncaptured=");
        push_decimal(&mut out, self.captured);
        push_text(&mut out, "\nemitted=");
        push_decimal(&mut out, self.emitted);
        push_text(&mut out, "\nEND\n");
        out
    }

    /// What `PARCEL` with what stands behind it asks for.
    fn request_parcel(&self, rest: &[char]) -> (r: Step)
        ensures
            r@ == parcel_step(self@, rest@),
    {
        let (sub, arg): (&[char], &[char]) = word_and_rest(rest);
        let sub: Vec<char> = lowered(sub);
        if same_chars(&sub, "max") {
            match read_unsigned(arg, u32::MAX) {
                Some(bytes) => Step::ParcelMax(clamp_cap(bytes)),
                None => reply("ERR PARCEL max needs a byte count\n"),
            }
        } else {
            match on_off(rest) {
                Some(on) => if on && !self.filtering() {
                    let refused: Result<(), String> = Err(needs_filter());
                    Step::Reply(answer(&refused))
                } else {
                    Step::Parcel(on)
                },
                None => reply("ERR PARCEL needs on|off or max <bytes>\n"),
            }
        }
    }

    /// Takes one line of the control channel.
    pub fn request(&mut self, line: &str) -> (r: Step)
        ensures
            (final(self)@, r@) == requested(old(self)@, line@),
            final(self).wf() == old(self).wf(),
    {
        let c: Vec<char> = chars_of(line);
        let (cmd, rest): (&[char], &[char]) = word_and_rest(trimmed(&c));
        let cmd: Vec<char> = uppered(cmd);
        if same_chars(&cmd, "STATUS") {
            Step::Reply(self.status())
        } else if same_chars(&cmd, "START") {
            self.capturing = true;
            reply("OK\n")
        } else if same_chars(&cmd, "STOP") {
            self.capturing = false;
            reply("OK\n")
        } else if same_chars(&cmd, "SINK") {
            let low: Vec<char> = lowered(rest);
            let name: String = string_of(&low, 0, low.len());
            assert(name@ =~= lower_text(rest@));
            match Sink::from_name(&name) {
                Some(sink) => {
                    self.sink = sink;
                    reply("OK\n")
                },
                None => reply("ERR sink must be console|logcat|both|none\n"),
            }
        } else if same_chars(&cmd, "DLT") {
            match on_off(rest) {
                Some(on) => {
                    self.dlt_on = on;
                    reply("OK\n")
                },
                None => reply("ERR DLT needs on|off\n"),
            }
        } else if same_chars(&cmd, "ERRORS") {
            match on_off(rest) {
                Some(on) => Step::Errors(on),
                None => reply("ERR ERRORS needs on|off\n"),
            }
        } else if same_chars(&cmd, "PARCEL") {
            self.request_parcel(rest)
        } else if same_chars(&cmd, "TRACK") {
            match on_off(rest) {
                Some(on) => {
                    self.discovering = on;
                    reply("OK\n")
                },
                None => reply("ERR TRACK needs on|off\n"),
            }
        } else if same_chars(&cmd, "LIST") {
            Step::Reply(list_reply(self.observed.items()))
        } else if same_chars(&cmd, "GET") {
            Step::Reply(list_reply(&self.filter.active))
        } else if same_chars(&cmd, "SET") {
            Step::Filter(split_names(rest))
        } else if same_chars(&cmd, "CLEAR") {
            let none: Vec<String> = Vec::new();
            assert(texts(none@) =~= Seq::<Seq<char>>::empty());
            Step::Filter(none)
        } else if cmd.len() == 0 {
            Step::Silent
        } else {
            let mut out: String = text_of_str("ERR unknown command ");
            push_chars(&mut out, &cmd, 0, cmd.len());
            push_text(&mut out, "\n");
            assert(cmd@.subrange(0, cmd@.len() as int) =~= cmd@);
            Step::Reply(out)
        }
    }

    /// Takes the outcome of switching error capture in the kernel; gives the reply.
    pub fn errors_set(&mut self, on: bool, outcome: Result<(), String>) -> (r: String)
        ensures
            r@ == plain_reply(outcome),
            final(self)@ == errors_after(old(self)@, on, outcome is Ok),
            final(self).wf() == old(self).wf(),
    {
        if outcome.is_ok() {
            self.errors_on = on;
        }
        answer(&outcome)
    }

    /// Takes the outcome of switching parcel capture in the kernel. Switching it on is
    /// refused unless the interface filter is active, whatever the outcome, so that
    /// parcel capture is always bounded to the selected interfaces.
    pub fn set_parcel(&mut self, on: bool, outcome: Result<(), String>) -> (r: Result<(), String>)
        ensures
            if on && !is_filtering(old(self)@.filter) {
                &&& r is Err
                &&& r->Err_0@ == "PARCEL needs an active interface filter (SET one first)"@
            } else {
                r == outcome
            },
            final(self)@ == parcel_after(old(self)@, on, outcome is Ok),
            final(self).wf() == old(self).wf(),
    {
        if on && !self.filtering() {
            return Err(needs_filter());
        }
        if outcome.is_ok() {
            self.parcel_on = on;
        }
        outcome
    }

    /// Takes the outcome of switching parcel capture in the kernel; gives the reply, a
    /// refusal where there is no filter.
    pub fn parcel_set(&mut self, on: bool, outcome: Result<(), String>) -> (r: String)
        ensures
            if on && !is_filtering(old(self)@.filter) {
                r@ == "ERR "@ + "PARCEL needs an active interface filter (SET one first)"@ + "\n"@
            } else {
                r@ == plain_reply(outcome)
            },
            final(self)@ == parcel_after(old(self)@, on, outcome is Ok),
            final(self).wf() == old(self).wf(),
    {
        let done: Result<(), String> = self.set_parcel(on, outcome);
        answer(&done)
    }

    /// Takes the outcome of setting the kernel's cap on captured payload to `bytes`,
    /// clamped to the ceiling; gives the cap that now holds.
    pub fn set_parcel_max(&mut self, bytes: u32, outcome: Result<(), String>) -> (r: Result<
        u32,
        String,
    >)
        ensures
            match outcome {
                Ok(_) => r == Ok::<u32, String>(clamped(bytes)),
                Err(e) => r == Err::<u32, String>(e),
            },
            final(self)@ == cap_after(old(self)@, bytes, outcome is Ok),
            final(self).wf() == old(self).wf(),
    {
        match outcome {
            Ok(_) => {
                let cap: u32 = clamp_cap(bytes);
                self.parcel_max = cap;
                Ok(cap)
            },
            Err(e) => Err(e),
        }
    }

    /// Takes the outcome of setting the kernel's cap on captured payload; gives the
    /// reply.
    pub fn parcel_max_set(&mut self, bytes: u32, outcome: Result<(), String>) -> (r: String)
        ensures
            r@ == (match outcome {
                Ok(_) => counted_reply(clamped(bytes) as nat),
                Err(_) => plain_reply(outcome),
            }),
            final(self)@ == cap_after(old(self)@, bytes, outcome is Ok),
            final(self).wf() == old(self).wf(),
    {
        match self.set_parcel_max(bytes, outcome) {
            Ok(cap) => counted(cap as usize),
            Err(e) => {
                let refused: Result<(), String> = Err(e);
                answer(&refused)
            },
        }
    }

    /// Takes the outcome of replacing the kernel's interface filter by `names`; gives the
    /// reply, and whether parcel capture is now to be switched off, because it may not
    /// run without an interface that it is bounded to, however the filter was lost.
    pub fn filter_set(&mut self, names: &Vec<String>, outcome: FilterOutcome) -> (r: (String, bool))
        requires
            outcome matches FilterOutcome::InsertFailed(k) ==> k < names@.len(),
        ensures
            r.0@ == filter_reply(texts(names@), outcome),
            r.1 == drops_parcel(texts(names@), outcome),
            final(self)@ == (StateView {
                filter: filter_after(old(self)@.filter, texts(names@), outcome),
                ..old(self)@
            }),
            final(self).wf() == old(self).wf(),
    {
        let done: Result<(), String> = self.filter.apply(names, outcome);
        let none_left: bool = match outcome {
            FilterOutcome::InsertFailed(k) => k == 0,
            _ => names.len() == 0,
        };
        match done {
            Ok(_) => (counted(names.len()), none_left),
            Err(e) => {
                let refused: Result<(), String> = Err(e);
                (answer(&refused), none_left)
            },
        }
    }

    /// Counts a drained event; returns whether it passes the capture gate.
    pub fn count_event(&mut self) -> (r: bool)
        ensures
            r == old(self)@.capturing,
            final(self)@ == (StateView {
                captured: next_count(old(self)@.captured),
                emitted: if old(self)@.capturing {
                    next_count(old(self)@.emitted)
                } else {
                    old(self)@.emitted
                },
                ..old(self)@
            }),
            final(self).wf() == old(self).wf(),
    {
        self.captured = count_on(self.captured);
        if self.capturing {
            self.emitted = count_on(self.emitted);
        }
        self.capturing
    }
}

/// Why parcel capture is refused without a filter.
fn needs_filter() -> (r: String)
    ensures
        r@ == "PARCEL needs an active interface filter (SET one first)"@,
{
    text_of_str("PARCEL needs an active interface filter (SET one first)")
}

/// Whether payload capture is bounded: it runs only while the interface filter is active,
/// and its cap lies within the ceiling.
pub open spec fn is_bounded(s: StateView) -> bool {
    &&& s.parcel_on ==> is_filtering(s.filter)
    &&& s.parcel_max <= PARCEL_CEILING
}

/// What the kernel makes of a step.
pub struct Outcomes {
    /// Whether the flag or the cap could be set.
    pub done: bool,
    /// How the updates of the filter went.
    pub filter: FilterOutcome,
    /// Whether parcel capture could be switched off behind a filter that is gone.
    pub dropped: bool,
}

/// The state after a step was passed on to the kernel, whatever that made of it.
pub open spec fn after_step(s: StateView, step: StepView, o: Outcomes) -> StateView {
    match step {
        StepView::Errors(on) => errors_after(s, on, o.done),
        StepView::Parcel(on) => parcel_after(s, on, o.done),
        StepView::ParcelMax(bytes) => cap_after(s, bytes, o.done),
        StepView::Filter(names) => {
            let t = StateView { filter: filter_after(s.filter, names, o.filter), ..s };
            if drops_parcel(names, o.filter) {
                parcel_after(t, false, o.dropped)
            } else {
                t
            }
        },
        _ => s,
    }
}

/// Whether parcel capture is to be switched off behind a step, and the kernel refuses.
pub open spec fn is_stuck(s: StateView, step: StepView, o: Outcomes) -> bool {
    s.parcel_on && !o.dropped && match step {
        StepView::Filter(names) => drops_parcel(names, o.filter),
        _ => false,
    }
}

/// No request unbounds payload capture, whatever the kernel makes of it: its cap is never
/// above the ceiling, and it is never on without an active filter, unless the kernel
/// refuses to switch it off.
pub proof fn law_capture_stays_bounded(s: StateView, line: Seq<char>, o: Outcomes)
    requires
        is_bounded(s),
        requested(s, line).1 matches StepView::Filter(names) ==> (o.filter
            matches FilterOutcome::InsertFailed(k) ==> k < names.len()),
    ensures
        is_bounded(requested(s, line).0),
        ({
            let (t, step) = requested(s, line);
            is_bounded(after_step(t, step, o)) <==> !is_stuck(t, step, o)
        }),
{
}

/// Parcel capture goes with the filter: once a request has left no interface active, it is
/// off, however the updates of the filter went, where the kernel lets it be switched off.
pub proof fn law_capture_goes_with_the_filter(
    s: StateView,
    names: Seq<Seq<char>>,
    o: Outcomes,
)
    requires
        o.dropped,
        o.filter matches FilterOutcome::InsertFailed(k) ==> k < names.len(),
        after_step(s, StepView::Filter(names), o).filter.active.len() == 0,
    ensures
        !after_step(s, StepView::Filter(names), o).parcel_on,
{
}

/// A word without a space is all of the line.
proof fn lemma_one_word(word: Seq<char>)
    requires
        word.len() > 0,
        !word.contains(' '),
        !is_white(word[0]),
        !is_white(word.last()),
    ensures
        split_word(trim(word)) == (word, Seq::<char>::empty()),
{
    reveal_strlit(" ");
    lemma_trim_keeps(word);
    assert forall|j: int| 0 <= j implies !occurs_at(word, " "@, j) by {
        if occurs_at(word, " "@, j) {
            assert(word.subrange(j, j + 1)[0] == word[j]);
            assert(word.contains(' '));
        }
    }
    lemma_find_none(word, " "@, 0);
}

/// A list that stands behind a word and a space is the list by itself, whatever white
/// space surrounds it.
proof fn lemma_listed_behind(word: Seq<char>, list: Seq<char>)
    requires
        word.len() > 0,
        !word.contains(' '),
        !is_white(word[0]),
        !is_white(word.last()),
    ensures
        split_word(trim(word + " "@ + list)).0 == word,
        listed(split_word(trim(word + " "@ + list)).1) == listed(list),
{
    reveal_strlit(" ");
    let line = word + " "@ + list;
    let white = CharClass::White;
    let end = run_start(list, white, list.len() as int);
    let cut = list.take(end);
    let n = word.len() as int;
    lemma_run_start(list, white, list.len() as int);
    assert(line[0] == word[0]);
    assert(run_end(line, white, 0) == 0);
    assert(trim_start(line) =~= line);
    lemma_listed_trim_end(list);
    if end == 0 {
        assert(listed(list) == listed(Seq::<char>::empty())) by {
            assert(cut =~= Seq::<char>::empty());
        }
        assert forall|j: int| n <= j < line.len() implies white.holds(line[j]) by {
            if j > n {
                assert(line[j] == list[j - n - 1]);
            }
        }
        assert(line[n - 1] == word.last());
        lemma_run_start_is(line, white, line.len() as int, n);
        assert(trim(line) =~= word);
        lemma_trim_keeps(word);
        lemma_one_word(word);
    } else {
        assert forall|j: int| n + 1 + end <= j < line.len() implies white.holds(line[j]) by {
            assert(line[j] == list[j - n - 1]);
        }
        assert(line[n + end] == list[end - 1]);
        lemma_run_start_is(line, white, line.len() as int, n + 1 + end);
        assert(trim(line) =~= word + " "@ + cut);
        lemma_first_char_absent(word, " "@);
        lemma_find_behind(word, " "@, cut);
        lemma_listed_trim(cut);
    }
}

/// The filter that was set is the one that is shown: after `SET` and its names, which
/// replace whatever was set before, `GET` lists those names in the order given; after
/// `CLEAR` it lists none. Both are answered with the number of names.
pub proof fn law_filter_session(s: StateView, list: Seq<char>, dropped: bool)
    ensures
        ({
            let o = Outcomes { done: true, filter: FilterOutcome::Applied, dropped };
            let names = listed(list);
            let (s1, set) = requested(s, "SET"@ + " "@ + list);
            let s2 = after_step(s1, set, o);
            let (s3, clear) = requested(s2, "CLEAR"@);
            let s4 = after_step(s3, clear, o);
            &&& set == StepView::Filter(names)
            &&& filter_reply(names, o.filter) == "OK "@ + decimal(names.len()) + "\n"@
            &&& requested(s2, "GET"@) == (s2, StepView::Reply(item_lines(names) + "END\n"@))
            &&& s3 == s2
            &&& clear == StepView::Filter(seq![])
            &&& filter_reply(seq![], o.filter) == "OK 0\n"@
            &&& requested(s4, "GET"@) == (s4, StepView::Reply("END\n"@))
        }),
{
    reveal_strlit("SET");
    reveal_strlit("GET");
    reveal_strlit("CLEAR");
    reveal_strlit("STATUS");
    reveal_strlit("START");
    reveal_strlit("STOP");
    reveal_strlit("SINK");
    reveal_strlit("DLT");
    reveal_strlit("ERRORS");
    reveal_strlit("PARCEL");
    reveal_strlit("TRACK");
    reveal_strlit("LIST");
    reveal_strlit("OK ");
    reveal_strlit("OK 0\n");
    reveal_strlit("\n");
    lemma_listed_behind("SET"@, list);
    lemma_one_word("GET"@);
    lemma_one_word("CLEAR"@);
    assert(upper_text("SET"@) =~= "SET"@);
    assert(upper_text("GET"@) =~= "GET"@);
    assert(upper_text("CLEAR"@) =~= "CLEAR"@);
    assert("SET"@[0] == 'S' && "GET"@[0] == 'G' && "DLT"@[0] == 'D');
    assert("CLEAR"@[0] == 'C' && "START"@[0] == 'S' && "TRACK"@[0] == 'T');
    let none = Seq::<Seq<char>>::empty();
    assert(item_lines(none) =~= Seq::<char>::empty());
    assert(list_text(none) =~= "END\n"@);
    assert(decimal(0) =~= seq!['0']);
    assert(counted_reply(0) =~= "OK 0\n"@);
}

/// A request that is answered at once asks nothing of the kernel, and one that asks
/// something of the kernel changes nothing before that is done.
pub proof fn law_requests_are_answered_or_passed_on(s: StateView, line: Seq<char>)
    ensures
        requested(s, line).1 is Reply || requested(s, line).0 == s,
{
}

} // verus!
