//! What the runtime writes, the offline tools read: laws over lines.

use crate::event::{is_error_cmd, TxEvent};
use crate::line::{address, core_line, event_iface, label, labelled, oneway_mark};
use crate::names::shown_name;
use crate::probe::is_failure_of;
use crate::record::{
    endpoint_of, endpoints_of, ends_with, fields_of, label_of, number_before, record_of, LabelView,
    RecordView,
};
use crate::text::{
    decimal, find_from, first_behind, is_digit, is_white, law_decimal_round_trip, lemma_decimal,
    lemma_decimal_lacks, lemma_find_behind, lemma_last_char_absent, lemma_rfind_before,
    lemma_trim_keeps, occurs_at, rfind,
};
use vstd::prelude::*;

verus! {

/// Whether `mark` stands neither in a process name nor across its end, where a space and
/// a bracket follow.
pub open spec fn lacks(name: Seq<char>, mark: Seq<char>) -> bool {
    forall|j: int| !occurs_at(name + " ("@, mark, j)
}

/// Whether a descriptor can be told from the code behind it, and from the mark of a
/// transaction without one.
pub open spec fn plain_iface(iface: Seq<char>) -> bool {
    &&& first_behind(iface, ".[code:"@)
    &&& !occurs_at(iface + ".[code:"@, "<reply code:"@, 0)
    &&& !occurs_at(iface + ".[code:"@, "<non-aidl code:"@, 0)
}

/// A number written before a character is read back from there.
proof fn lemma_number_before(n: u32, c: char)
    ensures
        number_before(decimal(n as nat) + seq![c], c) == Some(n),
{
    let s = decimal(n as nat) + seq![c];
    law_decimal_round_trip(n as nat, u32::MAX as nat);
    assert(s.drop_last() =~= decimal(n as nat));
}

proof fn lemma_endpoint(name: Seq<char>, pid: u32)
    ensures
        endpoint_of(name + " ("@ + (decimal(pid as nat) + ")"@)) == Some((name, pid)),
{
    reveal_strlit(" (");
    reveal_strlit(")");
    let tail = decimal(pid as nat) + ")"@;
    lemma_decimal_lacks(pid as nat, ' ');
    if tail.contains(' ') {
        let i = choose|i: int| 0 <= i < tail.len() && tail[i] == ' ';
        if i < decimal(pid as nat).len() {
            assert(decimal(pid as nat).contains(' '));
        }
    }
    assert(!" ("@.skip(1).contains(' ')) by {
        if " ("@.skip(1).contains(' ') {
            let i = choose|i: int| 0 <= i < " ("@.skip(1).len() && " ("@.skip(1)[i] == ' ';
            assert(" ("@.skip(1)[i] == " ("@[i + 1]);
        }
    }
    lemma_last_char_absent(" ("@, tail);
    lemma_rfind_before(name, " ("@, tail);
    lemma_number_before(pid, ')');
    assert(tail =~= decimal(pid as nat) + seq![')']);
}

/// No arrow stands before the one that follows the source.
proof fn lemma_arrow(src: Seq<char>, pid: u32)
    requires
        lacks(src, " -> "@),
    ensures
        first_behind(src + " ("@ + (decimal(pid as nat) + ")"@), " -> "@),
{
    reveal_strlit(" (");
    reveal_strlit(")");
    reveal_strlit(" -> ");
    let digits = decimal(pid as nat);
    let a = src + " ("@ + (digits + ")"@);
    let s = a + " -> "@;
    lemma_decimal(pid as nat);
    assert forall|j: int| 0 <= j < a.len() implies !occurs_at(s, " -> "@, j) by {
        if occurs_at(s, " -> "@, j) {
            let sub = s.subrange(j, j + 4);
            assert(sub[0] == s[j] && sub[1] == s[j + 1] && sub[3] == s[j + 3]);
            if j + 3 < src.len() + 2 {
                assert((src + " ("@).subrange(j, j + 4) =~= sub);
                assert(occurs_at(src + " ("@, " -> "@, j));
            } else if j == src.len() - 1 {
                assert(s[j + 1] == ' ');
            } else if j == src.len() {
                assert(s[j + 1] == '(');
            } else if j == src.len() + 1 {
                assert(s[j] == '(');
            } else if j < src.len() + 2 + digits.len() {
                assert(s[j] == digits[j - src.len() - 2]);
                assert(is_digit(digits[j - src.len() - 2]));
            } else {
                assert(s[j] == ')');
            }
        }
    }
}

/// The two endpoints of an address are read back.
proof fn lemma_address(src: Seq<char>, src_pid: u32, dst: Seq<char>, dst_pid: u32)
    requires
        lacks(src, " -> "@),
    ensures
        endpoints_of(address(src, src_pid, dst, dst_pid)) == Some(
            ((src, src_pid), (dst, dst_pid)),
        ),
{
    reveal_strlit(")");
    reveal_strlit(" -> ");
    reveal_strlit(") -> ");
    let left = src + " ("@ + (decimal(src_pid as nat) + ")"@);
    let right = dst + " ("@ + (decimal(dst_pid as nat) + ")"@);
    assert(address(src, src_pid, dst, dst_pid) =~= left + " -> "@ + right);
    lemma_arrow(src, src_pid);
    lemma_find_behind(left, " -> "@, right);
    lemma_endpoint(src, src_pid);
    lemma_endpoint(dst, dst_pid);
}

/// A mark that a name lacks does not start in it, whatever follows the bracket.
proof fn lemma_mark_in_name(name: Seq<char>, rest: Seq<char>, j: int)
    requires
        lacks(name, "): "@),
        0 <= j < name.len(),
    ensures
        !occurs_at(name + " ("@ + rest, "): "@, j),
{
    reveal_strlit(" (");
    reveal_strlit("): ");
    let s = name + " ("@ + rest;
    if occurs_at(s, "): "@, j) {
        assert((name + " ("@).subrange(j, j + 3) =~= s.subrange(j, j + 3));
        assert(occurs_at(name + " ("@, "): "@, j));
    }
}

/// The bracket that closes an address is the first with a colon behind it.
proof fn lemma_address_end(src: Seq<char>, src_pid: u32, dst: Seq<char>, dst_pid: u32)
    requires
        lacks(src, "): "@),
        lacks(dst, "): "@),
    ensures
        first_behind(
            src + " ("@ + (decimal(src_pid as nat) + ") -> "@ + (dst + " ("@ + decimal(
                dst_pid as nat,
            ))),
            "): "@,
        ),
{
    reveal_strlit(" (");
    reveal_strlit(") -> ");
    reveal_strlit("): ");
    let p = decimal(src_pid as nat);
    let q = decimal(dst_pid as nat);
    lemma_decimal(src_pid as nat);
    lemma_decimal(dst_pid as nat);
    let back = dst + " ("@ + q;
    let a = src + " ("@ + (p + ") -> "@ + back);
    let s = a + "): "@;
    let n1 = src.len() as int;
    let n2 = n1 + 2 + p.len();
    let n3 = n2 + 5;
    let n4 = n3 + dst.len();
    assert forall|j: int| 0 <= j < a.len() implies !occurs_at(s, "): "@, j) by {
        if occurs_at(s, "): "@, j) {
            let sub = s.subrange(j, j + 3);
            assert(sub[0] == s[j] && sub[1] == s[j + 1] && sub[2] == s[j + 2]);
            if j < n1 {
                assert(s =~= src + " ("@ + (p + ") -> "@ + back + "): "@));
                lemma_mark_in_name(src, p + ") -> "@ + back + "): "@, j);
            } else if j < n1 + 2 {
                assert(s[j] == " ("@[j - n1]);
            } else if j < n2 {
                assert(s[j] == p[j - n1 - 2]);
                assert(is_digit(p[j - n1 - 2]));
            } else if j < n3 {
                assert(s[j] == ") -> "@[j - n2]);
                if j == n2 {
                    assert(s[j + 1] == ") -> "@[1]);
                }
            } else if j < n4 {
                let tail = q + "): "@;
                let end = dst + " ("@ + tail;
                lemma_mark_in_name(dst, tail, j - n3);
                assert(end.subrange(j - n3, j - n3 + 3) =~= sub);
                assert(occurs_at(end, "): "@, j - n3));
            } else if j < n4 + 2 {
                assert(s[j] == " ("@[j - n4]);
            } else {
                assert(s[j] == q[j - n4 - 2]);
                assert(is_digit(q[j - n4 - 2]));
            }
        }
    }
}

/// The label that an event is shown with.
pub open spec fn label_view(ev: TxEvent) -> LabelView {
    if event_iface(ev).len() > 0 {
        LabelView::Aidl { iface: event_iface(ev), code: ev.code }
    } else if ev.reply != 0 {
        LabelView::Reply { code: ev.code }
    } else {
        LabelView::NonAidl { code: ev.code }
    }
}

proof fn lemma_label(ev: TxEvent)
    requires
        event_iface(ev).len() > 0 ==> plain_iface(event_iface(ev)),
    ensures
        label_of(label(ev)) == Some(label_view(ev)),
{
    reveal_strlit(".[code:");
    reveal_strlit("]");
    reveal_strlit(">");
    reveal_strlit("<reply code:");
    reveal_strlit("<non-aidl code:");
    let iface = event_iface(ev);
    let digits = decimal(ev.code as nat);
    let s = label(ev);
    if iface.len() > 0 {
        let tail = digits + "]"@;
        assert(s =~= iface + ".[code:"@ + tail);
        lemma_find_behind(iface, ".[code:"@, tail);
        lemma_number_before(ev.code, ']');
        assert(tail =~= digits + seq![']']);
        lemma_decimal(ev.code as nat);
        lemma_not_marked(iface, tail, "<reply code:"@);
        lemma_not_marked(iface, tail, "<non-aidl code:"@);
    } else {
        let mark = if ev.reply != 0 {
            "<reply code:"@
        } else {
            "<non-aidl code:"@
        };
        assert(s.subrange(0, mark.len() as int) =~= mark);
        assert(s.skip(mark.len() as int) =~= digits + seq!['>']);
        lemma_number_before(ev.code, '>');
        if ev.reply == 0 {
            assert(s[1] == "<non-aidl code:"@[1]);
            if occurs_at(s, "<reply code:"@, 0) {
                assert(s.subrange(0, 12)[1] == s[1]);
            }
        }
    }
}

/// A label that does not start with a mark as far as the code's mark goes does not start
/// with it at all: what follows are digits.
proof fn lemma_not_marked(iface: Seq<char>, tail: Seq<char>, mark: Seq<char>)
    requires
        !occurs_at(iface + ".[code:"@, mark, 0),
        mark == "<reply code:"@ || mark == "<non-aidl code:"@,
    ensures
        !occurs_at(iface + ".[code:"@ + tail, mark, 0),
{
    reveal_strlit(".[code:");
    reveal_strlit("<reply code:");
    reveal_strlit("<non-aidl code:");
    let a = iface + ".[code:"@;
    let s = a + tail;
    if occurs_at(s, mark, 0) {
        if mark.len() <= a.len() {
            assert(a.subrange(0, mark.len() as int) =~= s.subrange(0, mark.len() as int));
        } else {
            // The bracket of the code's mark would stand inside the other mark.
            let k = iface.len() + 1;
            assert(s[k as int] == ".[code:"@[1]);
            assert(s.subrange(0, mark.len() as int)[k as int] == s[k as int]);
            assert(mark[k as int] == '[');
        }
    }
}

/// Whether the names and the interface of an event hold nothing that parts the fields of
/// its line: the source is not blank at its start and holds no arrow, and neither name
/// holds a closing bracket with a colon behind it.
pub open spec fn is_plain(ev: TxEvent, names: Map<u32, Seq<char>>) -> bool {
    let src = shown_name(names, ev.src_pid);
    let dst = shown_name(names, ev.dst_pid);
    &&& src.len() > 0 && !is_white(src[0])
    &&& lacks(src, " -> "@)
    &&& lacks(src, "): "@)
    &&& lacks(dst, "): "@)
    &&& event_iface(ev).len() > 0 ==> plain_iface(event_iface(ev))
}

/// What an event's line says.
pub open spec fn record_view(ev: TxEvent, names: Map<u32, Seq<char>>) -> RecordView {
    RecordView {
        src: shown_name(names, ev.src_pid),
        src_pid: ev.src_pid,
        dst: shown_name(names, ev.dst_pid),
        dst_pid: ev.dst_pid,
        label: label_view(ev),
        size: ev.data_size,
        oneway: ev.oneway(),
    }
}

/// The address ends at the first bracket with a colon behind it, and the label follows.
proof fn lemma_head(ev: TxEvent, names: Map<u32, Seq<char>>) -> (sep: int)
    requires
        is_plain(ev, names),
    ensures
        find_from(labelled(ev, names), "): "@, 0) == Some(sep),
        labelled(ev, names).take(sep + 1) == address(
            shown_name(names, ev.src_pid),
            ev.src_pid,
            shown_name(names, ev.dst_pid),
            ev.dst_pid,
        ),
        labelled(ev, names).skip(sep + 3) == label(ev),
{
    reveal_strlit(": ");
    reveal_strlit(")");
    reveal_strlit("): ");
    let src = shown_name(names, ev.src_pid);
    let dst = shown_name(names, ev.dst_pid);
    let who = address(src, ev.src_pid, dst, ev.dst_pid);
    let open = src + " ("@ + (decimal(ev.src_pid as nat) + ") -> "@ + (dst + " ("@ + decimal(
        ev.dst_pid as nat,
    )));
    assert(who =~= open + ")"@);
    assert(labelled(ev, names) =~= open + "): "@ + label(ev));
    lemma_address_end(src, ev.src_pid, dst, ev.dst_pid);
    lemma_find_behind(open, "): "@, label(ev));
    assert(labelled(ev, names).take(open.len() as int + 1) =~= who);
    open.len() as int
}

/// The size stands behind the last comma.
proof fn lemma_size(head: Seq<char>, size: u32)
    ensures
        ({
            let core = head + ", "@ + (decimal(size as nat) + "B"@);
            &&& rfind(core, ", "@) == Some(head.len() as int)
            &&& core.take(head.len() as int) == head
            &&& number_before(core.skip(head.len() as int + 2), 'B') == Some(size)
        }),
{
    reveal_strlit(", ");
    reveal_strlit("B");
    let digits = decimal(size as nat);
    let tail = digits + "B"@;
    lemma_decimal_lacks(size as nat, ',');
    if tail.contains(',') {
        let i = choose|i: int| 0 <= i < tail.len() && tail[i] == ',';
        if i < digits.len() {
            assert(digits.contains(','));
        }
    }
    assert(!", "@.skip(1).contains(',')) by {
        if ", "@.skip(1).contains(',') {
            let i = choose|i: int| 0 <= i < ", "@.skip(1).len() && ", "@.skip(1)[i] == ',';
            assert(", "@.skip(1)[i] == ", "@[i + 1]);
        }
    }
    lemma_last_char_absent(", "@, tail);
    lemma_rfind_before(head, ", "@, tail);
    lemma_number_before(size, 'B');
    assert(tail =~= digits + seq!['B']);
}

/// The fields are read back from a line without its `oneway` mark.
proof fn lemma_fields(ev: TxEvent, names: Map<u32, Seq<char>>)
    requires
        is_plain(ev, names),
    ensures
        fields_of(
            labelled(ev, names) + ", "@ + (decimal(ev.data_size as nat) + "B"@),
            ev.oneway(),
        ) == Some(record_view(ev, names)),
{
    let src = shown_name(names, ev.src_pid);
    let dst = shown_name(names, ev.dst_pid);
    lemma_size(labelled(ev, names), ev.data_size);
    let sep = lemma_head(ev, names);
    lemma_address(src, ev.src_pid, dst, ev.dst_pid);
    lemma_label(ev);
}

/// A line's end tells whether it is one-way.
proof fn lemma_oneway(core: Seq<char>, oneway: bool)
    requires
        core.len() > 0,
        core.last() == 'B',
    ensures
        ends_with(core + oneway_mark(oneway), " oneway"@) == oneway,
        oneway ==> (core + oneway_mark(oneway)).take((core + oneway_mark(oneway)).len() - 7)
            == core,
        !oneway ==> core + oneway_mark(oneway) == core,
        !is_white((core + oneway_mark(oneway)).last()),
{
    reveal_strlit(" oneway");
    let line = core + oneway_mark(oneway);
    if oneway {
        assert(line.subrange(line.len() - 7, line.len() as int) =~= " oneway"@);
        assert(line.take(line.len() - 7) =~= core);
        assert(line.last() == 'y');
    } else {
        assert(line =~= core);
        if ends_with(line, " oneway"@) {
            assert(line.subrange(line.len() - 7, line.len() as int)[6] == line.last());
        }
    }
}

/// The line of a transaction parses back into the fields that it was written from.
pub proof fn law_record_round_trip(ev: TxEvent, names: Map<u32, Seq<char>>)
    requires
        is_plain(ev, names),
    ensures
        record_of(core_line(ev, names)) == Some(record_view(ev, names)),
{
    reveal_strlit("B");
    let core = labelled(ev, names) + ", "@ + (decimal(ev.data_size as nat) + "B"@);
    let line = core_line(ev, names);
    assert(line =~= core + oneway_mark(ev.oneway()));
    assert(core.last() == 'B');
    lemma_oneway(core, ev.oneway());
    assert(line[0] == shown_name(names, ev.src_pid)[0]);
    lemma_trim_keeps(line);
    lemma_fields(ev, names);
}

/// The line of a failure names the call that failed: its label and its target are those of
/// the transaction that it is reported for.
pub proof fn law_failure_names_the_call(
    ev: TxEvent,
    cmd: u32,
    last: TxEvent,
    pid_tgid: u64,
    ts_ns: u64,
)
    requires
        is_failure_of(ev, cmd, last, pid_tgid, ts_ns),
        last.reply == 0,
        is_error_cmd(cmd),
    ensures
        ev.failed(),
        label(ev) == label(last),
        ev.dst_pid == last.dst_pid,
{
}

} // verus!
