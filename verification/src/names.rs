//! Process names by pid.

use crate::event::COMM_LEN;
use crate::text::{
    chars_of, decimal, law_decimal_round_trip, occurs_at, parse_unsigned, push_decimal, push_text,
    read_unsigned, starts_with, str_of, string_of, text_of, trim_end, trimmed_end,
};
use std::collections::HashMap;
use vstd::prelude::*;
use vstd::slice::slice_subrange;
use vstd::utf8::{decode_utf8, valid_utf8};

verus! {

broadcast use vstd::std_specs::hash::group_hash_axioms;

/// What `String::from_utf8_lossy` makes of `bytes`.
pub uninterp spec fn lossy_text(bytes: Seq<u8>) -> Seq<char>;

/// Decodes UTF-8 with `String::from_utf8_lossy`, which depends on `bytes` alone: valid
/// UTF-8 is the text it encodes, and in anything else each invalid sequence is replaced by
/// a character, so that there is some text wherever there is a byte.
#[verifier::external_body]
fn utf8_lossy(bytes: &[u8]) -> (r: String)
    ensures
        r@ == lossy_text(bytes@),
        valid_utf8(bytes@) ==> r@ == decode_utf8(bytes@),
        bytes@.len() > 0 ==> r@.len() > 0,
{
    String::from_utf8_lossy(bytes).into_owned()
}

/// The position of the first zero at or after `i`, or the end.
pub open spec fn zero_from(b: Seq<u8>, i: int) -> int
    decreases b.len() - i,
{
    if 0 <= i < b.len() && b[i] != 0 {
        zero_from(b, i + 1)
    } else {
        i
    }
}

/// `b` up to its first zero byte.
pub open spec fn until_zero(b: Seq<u8>) -> Seq<u8> {
    b.take(zero_from(b, 0))
}

/// The name in a zero-terminated buffer; nothing where it is empty.
pub open spec fn name_of(b: Seq<u8>) -> Option<Seq<char>> {
    if until_zero(b).len() > 0 {
        Some(lossy_text(until_zero(b)))
    } else {
        None
    }
}

/// The length of `b` up to its first zero byte.
fn zero_at(b: &[u8]) -> (r: usize)
    ensures
        r <= b@.len(),
        r == zero_from(b@, 0),
{
    let mut i: usize = 0;
    while i < b.len() && b[i] != 0
        invariant
            i <= b@.len(),
            zero_from(b@, 0) == zero_from(b@, i as int),
        decreases b@.len() - i,
    {
        i += 1;
    }
    i
}

/// The first zero-terminated field of `bytes` as text; nothing where it is empty.
pub fn cmdline_name(bytes: &[u8]) -> (r: Option<String>)
    ensures
        text_of(r) == name_of(bytes@),
        r matches Some(s) ==> s@.len() > 0,
        r is Some && valid_utf8(until_zero(bytes@)) ==> r->0@ == decode_utf8(until_zero(bytes@)),
{
    let end: usize = zero_at(bytes);
    if end > 0 {
        let field: &[u8] = slice_subrange(bytes, 0, end);
        assert(field@ =~= until_zero(bytes@));
        Some(utf8_lossy(field))
    } else {
        None
    }
}

/// The task name that the probe captured; nothing where none was.
pub fn comm_name(comm: &[u8; COMM_LEN]) -> (r: Option<String>)
    ensures
        text_of(r) == name_of(comm@),
        r matches Some(s) ==> s@.len() > 0,
        r is Some && valid_utf8(until_zero(comm@)) ==> r->0@ == decode_utf8(until_zero(comm@)),
{
    cmdline_name(comm.as_slice())
}

/// The name that stands for a process whose name cannot be told.
pub open spec fn fallback(pid: u32) -> Seq<char> {
    "pid:"@ + decimal(pid as nat)
}

/// Whether `name` stands for a process `pid` whose name could not be told.
pub open spec fn is_fallback(name: Seq<char>, pid: u32) -> bool {
    occurs_at(name, "pid:"@, 0) && parse_unsigned(name.skip(4), u32::MAX as nat) == Some(
        pid as nat,
    )
}

/// The name of a process by what `/proc` shows of it: the first field of its command
/// line, else its task name, else the fallback.
pub open spec fn proc_name(pid: u32, cmdline: Option<Seq<u8>>, task: Option<Seq<char>>) -> Seq<
    char,
> {
    match cmdline {
        Some(bytes) if name_of(bytes) is Some => name_of(bytes)->0,
        _ => match task {
            Some(t) if trim_end(t).len() > 0 => trim_end(t),
            _ => fallback(pid),
        },
    }
}

/// What optional bytes hold.
pub open spec fn bytes_of(b: Option<&[u8]>) -> Option<Seq<u8>> {
    match b {
        Some(b) => Some(b@),
        None => None,
    }
}

/// The name of a process by what `/proc` shows of it: `cmdline` and `task` are the
/// contents of `/proc/<pid>/cmdline` (zero-separated; the first field is the name) and
/// `/proc/<pid>/comm`, where they can be read.
pub fn resolve_name(pid: u32, cmdline: Option<&[u8]>, task: Option<&str>) -> (r: String)
    ensures
        r@ == proc_name(pid, bytes_of(cmdline), str_of(task)),
        r@.len() > 0,
        cmdline matches Some(b) ==> until_zero(b@).len() > 0 && valid_utf8(until_zero(b@)) ==> r@
            == decode_utf8(until_zero(b@)),
{
    match cmdline {
        Some(bytes) => match cmdline_name(bytes) {
            Some(name) => {
                return name;
            },
            None => {},
        },
        None => {},
    }
    match task {
        Some(text) => {
            let c: Vec<char> = chars_of(text);
            let t: &[char] = trimmed_end(&c);
            if t.len() > 0 {
                let s: String = string_of(t, 0, t.len());
                assert(s@ =~= t@);
                return s;
            }
        },
        None => {},
    }
    let mut out: String = String::new();
    push_text(&mut out, "pid:");
    push_decimal(&mut out, pid as u64);
    proof {
        assert(out@ =~= fallback(pid));
        reveal_strlit("pid:");
    }
    out
}

/// True if `name` is the unresolved `pid:<pid>` fallback rather than a real process
/// name.
pub fn is_pid_fallback(name: &str, pid: u32) -> (r: bool)
    ensures
        r == is_fallback(name@, pid),
{
    let c: Vec<char> = chars_of(name);
    if !starts_with(&c, "pid:") {
        return false;
    }
    proof {
        reveal_strlit("pid:");
    }
    let n: &[char] = slice_subrange(c.as_slice(), 4, c.len());
    assert(n@ =~= name@.skip(4));
    match read_unsigned(n, u32::MAX) {
        Some(x) => x == pid,
        None => false,
    }
}

/// Whether the name of `pid` is still to be resolved.
pub open spec fn unresolved(names: Map<u32, Seq<char>>, pid: u32) -> bool {
    !names.contains_key(pid) || is_fallback(names[pid], pid)
}

/// The name to keep for `pid`: by `/proc`, and where that fails by the task name that
/// the probe captured.
pub open spec fn best_name(
    pid: u32,
    comm: Seq<u8>,
    cmdline: Option<Seq<u8>>,
    task: Option<Seq<char>>,
) -> Seq<char> {
    let name = proc_name(pid, cmdline, task);
    if is_fallback(name, pid) && name_of(comm) is Some {
        name_of(comm)->0
    } else {
        name
    }
}

/// The names known after one more look at `pid`.
pub open spec fn ensured(
    names: Map<u32, Seq<char>>,
    pid: u32,
    comm: Seq<u8>,
    cmdline: Option<Seq<u8>>,
    task: Option<Seq<char>>,
) -> Map<u32, Seq<char>> {
    if unresolved(names, pid) {
        names.insert(pid, best_name(pid, comm, cmdline, task))
    } else {
        names
    }
}

/// Whether every name says something.
pub open spec fn all_named(names: Map<u32, Seq<char>>) -> bool {
    forall|pid: u32| names.contains_key(pid) ==> (#[trigger] names[pid]).len() > 0
}

/// The name shown for `pid`.
pub open spec fn shown_name(names: Map<u32, Seq<char>>, pid: u32) -> Seq<char> {
    if names.contains_key(pid) {
        names[pid]
    } else {
        "?"@
    }
}

/// Process names by pid, cached (a pid's name is stable for its lifetime).
pub struct NameCache {
    names: HashMap<u32, String>,
}

impl View for NameCache {
    type V = Map<u32, Seq<char>>;

    closed spec fn view(&self) -> Map<u32, Seq<char>> {
        self.names@.map_values(|s: String| s@)
    }
}

impl NameCache {
    /// No names yet.
    pub fn new() -> (r: Self)
        ensures
            r@ == Map::<u32, Seq<char>>::empty(),
            all_named(r@),
    {
        let r = NameCache { names: HashMap::new() };
        assert(r@ =~= Map::<u32, Seq<char>>::empty());
        r
    }

    /// Whether the name of `pid` is still to be resolved: it was never seen, or what is
    /// cached is the `pid:<n>` fallback. The first sighting can race a process that is
    /// being started or has just exited, so that a fallback is tried again.
    pub fn is_unresolved(&self, pid: u32) -> (r: bool)
        ensures
            r == unresolved(self@, pid),
    {
        match self.names.get(&pid) {
            Some(name) => is_pid_fallback(name, pid),
            None => true,
        }
    }

    /// Resolves and caches the name of `pid`, where that is still to be done. `cmdline`
    /// and `task` are what `/proc` shows of the process. Where that fails, `comm`, the
    /// task name that the probe captured live, stands in for the bare `pid:<n>`; all
    /// zeros mean that none was captured.
    pub fn ensure_with_comm(
        &mut self,
        pid: u32,
        comm: &[u8; COMM_LEN],
        cmdline: Option<&[u8]>,
        task: Option<&str>,
    )
        ensures
            final(self)@ == ensured(old(self)@, pid, comm@, bytes_of(cmdline), str_of(task)),
            all_named(old(self)@) ==> all_named(final(self)@),
    {
        if !self.is_unresolved(pid) {
            return;
        }
        let mut name: String = resolve_name(pid, cmdline, task);
        if is_pid_fallback(&name, pid) {
            match comm_name(comm) {
                Some(from_comm) => {
                    name = from_comm;
                },
                None => {},
            }
        }
        let ghost text = name@;
        self.names.insert(pid, name);
        assert(self@ =~= old(self)@.insert(pid, text));
    }

    /// Resolves and caches the name of `pid`, of which no task name was captured.
    pub fn ensure(&mut self, pid: u32, cmdline: Option<&[u8]>, task: Option<&str>)
        ensures
            final(self)@ == ensured(
                old(self)@,
                pid,
                Seq::new(COMM_LEN as nat, |i: int| 0u8),
                bytes_of(cmdline),
                str_of(task),
            ),
            all_named(old(self)@) ==> all_named(final(self)@),
    {
        let none: [u8; 16] = [0u8; 16];
        assert(none@ =~= Seq::new(COMM_LEN as nat, |i: int| 0u8));
        self.ensure_with_comm(pid, &none, cmdline, task);
    }

    /// The name cached for `pid`, or `?`.
    pub fn lookup(&self, pid: u32) -> (r: &str)
        ensures
            r@ == shown_name(self@, pid),
            all_named(self@) ==> r@.len() > 0,
    {
        proof {
            reveal_strlit("?");
        }
        match self.names.get(&pid) {
            Some(name) => name.as_str(),
            None => "?",
        }
    }
}

/// The fallback name of a process is recognised as such, so that it is tried again.
pub proof fn law_fallback_is_recognised(pid: u32)
    ensures
        is_fallback(fallback(pid), pid),
{
    reveal_strlit("pid:");
    law_decimal_round_trip(pid as nat, u32::MAX as nat);
    assert(fallback(pid).subrange(0, 4) =~= "pid:"@);
    assert(fallback(pid).skip(4) =~= decimal(pid as nat));
}

/// A resolved name is stable: no further look at any process changes it.
pub proof fn law_resolved_name_is_stable(
    names: Map<u32, Seq<char>>,
    pid: u32,
    other: u32,
    comm: Seq<u8>,
    cmdline: Option<Seq<u8>>,
    task: Option<Seq<char>>,
)
    requires
        !unresolved(names, pid),
    ensures
        ensured(names, other, comm, cmdline, task).contains_key(pid),
        ensured(names, other, comm, cmdline, task)[pid] == names[pid],
{
}

/// A process of which nothing could be read is tried again: once `/proc` shows its
/// command line, that name is the one shown.
pub proof fn law_fallback_is_retried(
    names: Map<u32, Seq<char>>,
    pid: u32,
    comm: Seq<u8>,
    cmdline: Seq<u8>,
    task: Option<Seq<char>>,
)
    requires
        unresolved(names, pid),
        name_of(cmdline) is Some,
        !is_fallback(name_of(cmdline)->0, pid),
    ensures
        ({
            let none = Seq::new(COMM_LEN as nat, |i: int| 0u8);
            let first = ensured(names, pid, none, None, None);
            &&& shown_name(first, pid) == fallback(pid)
            &&& shown_name(ensured(first, pid, comm, Some(cmdline), task), pid) == name_of(
                cmdline,
            )->0
        }),
{
    law_fallback_is_recognised(pid);
    let none = Seq::new(COMM_LEN as nat, |i: int| 0u8);
    assert(zero_from(none, 0) == 0);
}

} // verus!
