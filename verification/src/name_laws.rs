//! Laws of process names: which name a process is shown by, and when it is looked at again.

use crate::event::COMM_LEN;
use crate::names::{
    cmdline_name, comm_name, is_fallback, is_pid_fallback, law_fallback_is_recognised, lossy_text,
    resolve_name, zero_from, NameCache,
};
use crate::text::{decimal, is_white, lemma_run_start_is, occurs_at, trim_end, CharClass};
use vstd::prelude::*;
use vstd::utf8::{decode_utf8, valid_utf8};

verus! {

/// Whether `f` is a field that a zero ends: it is not empty, and no zero is in it.
pub open spec fn is_field(f: Seq<u8>) -> bool {
    f.len() > 0 && forall|i: int| 0 <= i < f.len() ==> #[trigger] f[i] != 0
}

/// Whether the first field of `b` is `f`: `b` goes on with a zero behind it, or ends.
pub open spec fn starts_with_field(b: Seq<u8>, f: Seq<u8>) -> bool {
    &&& is_field(f)
    &&& f.len() <= b.len()
    &&& b.take(f.len() as int) == f
    &&& f.len() < b.len() ==> b[f.len() as int] == 0
}

/// The first zero stands behind the first field.
pub proof fn lemma_zero_behind(b: Seq<u8>, f: Seq<u8>, i: int)
    requires
        starts_with_field(b, f),
        0 <= i <= f.len(),
    ensures
        zero_from(b, i) == f.len(),
    decreases f.len() - i,
{
    if i < f.len() {
        assert(b.take(f.len() as int)[i] == b[i]);
        assert(f[i] != 0);
        lemma_zero_behind(b, f, i + 1);
    }
}

/// A zero-terminated name is all of its bytes up to the first zero, whatever they are and
/// whatever follows; only a zero or the end of the buffer ends it.
pub proof fn law_name_is_the_first_field(b: &[u8], f: Seq<u8>, r: Option<String>)
    requires
        starts_with_field(b@, f),
        call_ensures(cmdline_name, (b,), r),
    ensures
        r matches Some(name) && name@ == lossy_text(f) && (valid_utf8(f) ==> name@ == decode_utf8(
            f,
        )),
{
    lemma_zero_behind(b@, f, 0);
}

/// A buffer that starts with a zero, or is empty, names nothing.
pub proof fn law_empty_field_is_no_name(b: &[u8], r: Option<String>)
    requires
        b@.len() > 0 ==> b@[0] == 0,
        call_ensures(cmdline_name, (b,), r),
    ensures
        r is None,
{
    assert(zero_from(b@, 0) == 0);
}

/// A process whose command line can be read goes by all of its first field, whatever its
/// task is called.
pub proof fn law_command_line_names_the_process(
    pid: u32,
    cmdline: &[u8],
    f: Seq<u8>,
    task: Option<&str>,
    r: String,
)
    requires
        starts_with_field(cmdline@, f),
        call_ensures(resolve_name, (pid, Some(cmdline), task), r),
    ensures
        r@ == lossy_text(f),
        valid_utf8(f) ==> r@ == decode_utf8(f),
{
    lemma_zero_behind(cmdline@, f, 0);
}

/// A process without a command line goes by its task name, without the white space that
/// the kernel writes behind it.
pub proof fn law_task_names_the_process(
    pid: u32,
    cmdline: Option<&[u8]>,
    task: &str,
    name: Seq<char>,
    white: Seq<char>,
    r: String,
)
    requires
        cmdline matches Some(b) ==> b@.len() > 0 ==> b@[0] == 0,
        name.len() > 0,
        !is_white(name.last()),
        forall|i: int| 0 <= i < white.len() ==> is_white(#[trigger] white[i]),
        task@ == name + white,
        call_ensures(resolve_name, (pid, cmdline, Some(task)), r),
    ensures
        r@ == name,
{
    if cmdline is Some {
        assert(zero_from(cmdline->0@, 0) == 0);
    }
    let t = task@;
    assert forall|j: int| name.len() <= j < t.len() implies is_white(#[trigger] t[j]) by {
        assert(t[j] == white[j - name.len()]);
    }
    lemma_run_start_is(t, CharClass::White, t.len() as int, name.len() as int);
    assert(trim_end(t) =~= name);
}

/// A process of which nothing can be read goes by its number: it has no command line, or
/// one that starts with a zero, and no task name but white space.
pub proof fn law_nameless_process_goes_by_its_number(
    pid: u32,
    cmdline: Option<&[u8]>,
    task: Option<&str>,
    r: String,
)
    requires
        cmdline matches Some(b) ==> b@.len() > 0 ==> b@[0] == 0,
        task matches Some(t) ==> forall|i: int| 0 <= i < t@.len() ==> is_white(#[trigger] t@[i]),
        call_ensures(resolve_name, (pid, cmdline, task), r),
    ensures
        r@ == "pid:"@ + decimal(pid as nat),
{
    if cmdline is Some {
        assert(zero_from(cmdline->0@, 0) == 0);
    }
    if task is Some {
        let t = task->0@;
        lemma_run_start_is(t, CharClass::White, t.len() as int, 0);
        assert(trim_end(t).len() == 0);
    }
}

/// Only the number of a process stands in for its name: what does not start with `pid:` is
/// a name, and the number of one process is not that of another.
pub proof fn law_names_are_no_fallback(name: &str, pid: u32, other: u32, r: bool)
    requires
        call_ensures(is_pid_fallback, (name, pid), r),
    ensures
        name@ == "pid:"@ + decimal(pid as nat) ==> r,
        !occurs_at(name@, "pid:"@, 0) ==> !r,
        other != pid && name@ == "pid:"@ + decimal(other as nat) ==> !r,
{
    law_fallback_is_recognised(pid);
    law_fallback_is_recognised(other);
}

/// A look at a process that is already known by name changes nothing, and no look changes
/// what is known of another process.
pub proof fn law_look_changes_one_name_at_most(
    names: &mut NameCache,
    pid: u32,
    comm: &[u8; COMM_LEN],
    cmdline: Option<&[u8]>,
    task: Option<&str>,
    other: u32,
)
    requires
        call_ensures(NameCache::ensure_with_comm, (names, pid, comm, cmdline, task), ()),
    ensures
        other != pid ==> final(names)@.contains_key(other) == old(names)@.contains_key(other),
        other != pid && old(names)@.contains_key(other) ==> final(names)@[other] == old(
            names,
        )@[other],
        old(names)@.contains_key(pid) && !occurs_at(old(names)@[pid], "pid:"@, 0) ==> final(names)@
            == old(names)@,
        final(names)@.contains_key(pid),
{
}

/// The first look at a process gives it the name of its command line, and where nothing of
/// it can be read the task name that the probe captured.
pub proof fn law_first_look_names_the_process(
    names: &mut NameCache,
    pid: u32,
    comm: &[u8; COMM_LEN],
    cmdline: Option<&[u8]>,
    task: Option<&str>,
    f: Seq<u8>,
)
    requires
        call_ensures(NameCache::ensure_with_comm, (names, pid, comm, cmdline, task), ()),
        !old(names)@.contains_key(pid),
        ({
            ||| cmdline is None && task is None && starts_with_field(comm@, f)
            ||| (cmdline matches Some(b) && starts_with_field(b@, f) && !is_fallback(
                lossy_text(f),
                pid,
            ))
        }),
    ensures
        final(names)@.contains_key(pid),
        final(names)@[pid] == lossy_text(f),
{
    law_fallback_is_recognised(pid);
    match cmdline {
        Some(b) => {
            lemma_zero_behind(b@, f, 0);
        },
        None => {
            lemma_zero_behind(comm@, f, 0);
        },
    }
}

/// A known process is shown by the name that is known of it, an unknown one by a question
/// mark.
pub proof fn law_known_names_are_shown(names: &NameCache, pid: u32, r: &str)
    requires
        call_ensures(NameCache::lookup, (names, pid), r),
    ensures
        names@.contains_key(pid) ==> r@ == names@[pid],
        !names@.contains_key(pid) ==> r@ == "?"@,
{
}

/// A process is looked at until its name is known: it is not, where nothing is known of it
/// or only its number, and it is, where any other name is.
pub proof fn law_unknown_names_are_looked_up(names: &NameCache, pid: u32, r: bool)
    requires
        call_ensures(NameCache::is_unresolved, (names, pid), r),
    ensures
        !names@.contains_key(pid) ==> r,
        names@.contains_key(pid) && names@[pid] == "pid:"@ + decimal(pid as nat) ==> r,
        names@.contains_key(pid) && !occurs_at(names@[pid], "pid:"@, 0) ==> !r,
{
    law_fallback_is_recognised(pid);
}

/// The task name that the probe captured is all of its bytes up to the first zero.
pub proof fn law_task_name_is_the_first_field(
    comm: &[u8; COMM_LEN],
    f: Seq<u8>,
    r: Option<String>,
)
    requires
        call_ensures(comm_name, (comm,), r),
    ensures
        starts_with_field(comm@, f) ==> (r matches Some(name) && name@ == lossy_text(f) && (
        valid_utf8(f) ==> name@ == decode_utf8(f))),
        comm@[0] == 0 ==> r is None,
{
    if starts_with_field(comm@, f) {
        lemma_zero_behind(comm@, f, 0);
    }
    if comm@[0] == 0 {
        assert(zero_from(comm@, 0) == 0);
    }
}

/// A look without a captured task name names a process by what `/proc` shows alone.
pub proof fn law_plain_look(
    names: &mut NameCache,
    pid: u32,
    cmdline: Option<&[u8]>,
    task: Option<&str>,
    f: Seq<u8>,
)
    requires
        call_ensures(NameCache::ensure, (names, pid, cmdline, task), ()),
        !old(names)@.contains_key(pid) || old(names)@[pid] == "pid:"@ + decimal(pid as nat),
    ensures
        final(names)@.contains_key(pid),
        cmdline is None && task is None ==> final(names)@[pid] == "pid:"@ + decimal(pid as nat),
        (cmdline matches Some(b) && starts_with_field(b@, f)) && !is_fallback(lossy_text(f), pid)
            ==> final(names)@[pid] == lossy_text(f),
{
    law_fallback_is_recognised(pid);
    let none = Seq::new(COMM_LEN as nat, |i: int| 0u8);
    assert(zero_from(none, 0) == 0);
    if cmdline is Some {
        let b = cmdline->0@;
        if starts_with_field(b, f) {
            lemma_zero_behind(b, f, 0);
        }
    }
}

} // verus!
