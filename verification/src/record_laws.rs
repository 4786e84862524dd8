//! Laws of parsed lines: what a record says stands in its line.

use crate::record::{
    endpoint_of, ends_with, fields_of, label_of, number_before, LabelView, Record, RecordView,
};
use crate::text::{find_from, lemma_find_first, occurs_at, parse_unsigned, rfind, rfind_to, trim};
use vstd::prelude::*;

verus! {

/// Whether `digits` denote `n`.
pub open spec fn denotes(digits: Seq<char>, n: u32) -> bool {
    parse_unsigned(digits, u32::MAX as nat) == Some(n as nat)
}

proof fn lemma_rfind_occurs(s: Seq<char>, pat: Seq<char>, to: int)
    ensures
        rfind_to(s, pat, to) matches Some(i) ==> occurs_at(s, pat, i),
    decreases to + 1,
{
    if to >= 0 && !occurs_at(s, pat, to) {
        lemma_rfind_occurs(s, pat, to - 1);
    }
}

/// A mark that stands in a text parts it.
proof fn lemma_parted(s: Seq<char>, pat: Seq<char>, i: int)
    requires
        occurs_at(s, pat, i),
    ensures
        s == s.take(i) + pat + s.skip(i + pat.len()),
{
    assert(s =~= s.take(i) + s.subrange(i, i + pat.len()) + s.skip(i + pat.len()));
}

proof fn lemma_number(s: Seq<char>, c: char) -> (digits: Seq<char>)
    requires
        number_before(s, c) is Some,
    ensures
        s == digits + seq![c],
        denotes(digits, number_before(s, c)->0),
{
    assert(s =~= s.drop_last() + seq![c]);
    s.drop_last()
}

proof fn lemma_endpoint_in(s: Seq<char>, name: Seq<char>, pid: u32) -> (digits: Seq<char>)
    requires
        endpoint_of(s) == Some((name, pid)),
    ensures
        s == name + " ("@ + (digits + seq![')']),
        denotes(digits, pid),
{
    lemma_rfind_occurs(s, " ("@, s.len() - " ("@.len());
    let open = rfind(s, " ("@)->0;
    lemma_parted(s, " ("@, open);
    reveal_strlit(" (");
    lemma_number(s.skip(open + 2), ')')
}

/// The text of a label with these digits.
pub open spec fn label_text(label: LabelView, digits: Seq<char>) -> Seq<char> {
    match label {
        LabelView::Aidl { iface, .. } => iface + ".[code:"@ + (digits + seq![']']),
        LabelView::Reply { .. } => "<reply code:"@ + (digits + seq!['>']),
        LabelView::NonAidl { .. } => "<non-aidl code:"@ + (digits + seq!['>']),
    }
}

/// The code of a label.
pub open spec fn code_of(label: LabelView) -> u32 {
    match label {
        LabelView::Aidl { code, .. } => code,
        LabelView::Reply { code } => code,
        LabelView::NonAidl { code } => code,
    }
}

proof fn lemma_label_in(s: Seq<char>) -> (digits: Seq<char>)
    requires
        label_of(s) is Some,
    ensures
        s == label_text(label_of(s)->0, digits),
        denotes(digits, code_of(label_of(s)->0)),
        label_of(s)->0 matches LabelView::Aidl { iface, .. } ==> iface.len() > 0,
{
    reveal_strlit("<reply code:");
    reveal_strlit("<non-aidl code:");
    reveal_strlit(".[code:");
    if occurs_at(s, "<reply code:"@, 0) {
        lemma_parted(s, "<reply code:"@, 0);
        let d = lemma_number(s.skip(12), '>');
        assert(s =~= "<reply code:"@ + (d + seq!['>']));
        d
    } else if occurs_at(s, "<non-aidl code:"@, 0) {
        lemma_parted(s, "<non-aidl code:"@, 0);
        let d = lemma_number(s.skip(15), '>');
        assert(s =~= "<non-aidl code:"@ + (d + seq!['>']));
        d
    } else {
        lemma_find_first(s, ".[code:"@, 0);
        let mark = find_from(s, ".[code:"@, 0)->0;
        lemma_parted(s, ".[code:"@, mark);
        lemma_number(s.skip(mark + 7), ']')
    }
}

/// The digits of the numbers in a line.
pub struct Digits {
    pub src: Seq<char>,
    pub dst: Seq<char>,
    pub code: Seq<char>,
    pub size: Seq<char>,
}

/// The text of a record with these digits, without the mark of a one-way call.
pub open spec fn record_text(r: RecordView, d: Digits) -> Seq<char> {
    (r.src + " ("@ + (d.src + seq![')'])) + " -> "@ + (r.dst + " ("@ + (d.dst + seq![')'])) + ": "@
        + label_text(r.label, d.code) + ", "@ + (d.size + seq!['B'])
}

proof fn lemma_fields_in(core: Seq<char>, oneway: bool) -> (d: Digits)
    requires
        fields_of(core, oneway) is Some,
    ensures
        ({
            let r = fields_of(core, oneway)->0;
            &&& core == record_text(r, d)
            &&& r.oneway == oneway
            &&& denotes(d.src, r.src_pid) && denotes(d.dst, r.dst_pid)
            &&& denotes(d.code, code_of(r.label)) && denotes(d.size, r.size)
            &&& r.label matches LabelView::Aidl { iface, .. } ==> iface.len() > 0
        }),
{
    reveal_strlit(", ");
    reveal_strlit("): ");
    reveal_strlit(": ");
    reveal_strlit(" -> ");
    let r = fields_of(core, oneway)->0;
    lemma_rfind_occurs(core, ", "@, core.len() - 2);
    let comma = rfind(core, ", "@)->0;
    lemma_parted(core, ", "@, comma);
    let size = lemma_number(core.skip(comma + 2), 'B');
    let head = core.take(comma);
    lemma_find_first(head, "): "@, 0);
    let sep = find_from(head, "): "@, 0)->0;
    let addr = head.take(sep + 1);
    let label = head.skip(sep + 3);
    assert(head.subrange(sep, sep + 3)[1] == head[sep + 1]);
    assert(head.subrange(sep, sep + 3)[2] == head[sep + 2]);
    assert(head =~= addr + ": "@ + label);
    lemma_find_first(addr, " -> "@, 0);
    let arrow = find_from(addr, " -> "@, 0)->0;
    lemma_parted(addr, " -> "@, arrow);
    let src = lemma_endpoint_in(addr.take(arrow), r.src, r.src_pid);
    let dst = lemma_endpoint_in(addr.skip(arrow + 4), r.dst, r.dst_pid);
    let code = lemma_label_in(label);
    Digits { src, dst, code, size }
}

/// A record is what its line says, and nothing that does not say so parses: the line, without
/// the white space around it, is the names, the pids, the label, the size and the mark of a
/// one-way call that the record has, each in its place.
pub proof fn law_record_stands_in_its_line(line: &str, r: Option<Record>) -> (d: Digits)
    requires
        call_ensures(Record::parse, (line,), r),
        r is Some,
    ensures
        ({
            let v = r->0@;
            &&& trim(line@) == record_text(v, d) + (if v.oneway {
                " oneway"@
            } else {
                seq![]
            })
            &&& denotes(d.src, v.src_pid) && denotes(d.dst, v.dst_pid)
            &&& denotes(d.code, code_of(v.label)) && denotes(d.size, v.size)
            &&& v.label matches LabelView::Aidl { iface, .. } ==> iface.len() > 0
        }),
{
    reveal_strlit(" oneway");
    let core = trim(line@);
    if ends_with(core, " oneway"@) {
        lemma_parted(core, " oneway"@, core.len() - 7);
        assert(core.skip(core.len() as int) =~= Seq::<char>::empty());
        assert(core =~= core.take(core.len() - 7) + " oneway"@);
        lemma_fields_in(core.take(core.len() - 7), true)
    } else {
        assert(core + Seq::<char>::empty() =~= core);
        lemma_fields_in(core, false)
    }
}

} // verus!
