//! Structured parsing of a core log line into typed fields.
//!
//! [`Decoder::decode_line`](crate::decode::Decoder::decode_line) rewrites a line in
//! place without needing the full structure; [`Record::parse`] is the richer view, for
//! tools that want the individual fields.

use crate::text::{
    chars_of, find, find_from, find_last, matches_at, occurs_at, parse_unsigned, read_unsigned,
    rfind, scan_end, scan_start, starts_with, trim, trim_start, CharClass,
};
use vstd::prelude::*;
use vstd::slice::slice_subrange;

verus! {

/// The method portion of a transaction line.
#[derive(Debug, Clone, PartialEq, Eq)]
pub enum Label<'a> {
    /// An AIDL call carrying an interface descriptor: `interface.[code:N]`.
    Aidl { iface: &'a str, code: u32 },
    /// A reply (carries no descriptor by design): `<reply code:N>`.
    Reply { code: u32 },
    /// A transaction with no AIDL interface token: `<non-aidl code:N>`.
    NonAidl { code: u32 },
}

/// A parsed transaction line, the sink-independent core:
/// `src (pid) -> dst (pid): <label>, <size>B[ oneway]`.
#[derive(Debug, Clone, PartialEq, Eq)]
pub struct Record<'a> {
    pub src: &'a str,
    pub src_pid: u32,
    pub dst: &'a str,
    pub dst_pid: u32,
    pub label: Label<'a>,
    pub size: u32,
    pub oneway: bool,
}

/// What a [`Label`] says.
pub enum LabelView {
    Aidl { iface: Seq<char>, code: u32 },
    Reply { code: u32 },
    NonAidl { code: u32 },
}

/// What a [`Record`] says.
pub struct RecordView {
    pub src: Seq<char>,
    pub src_pid: u32,
    pub dst: Seq<char>,
    pub dst_pid: u32,
    pub label: LabelView,
    pub size: u32,
    pub oneway: bool,
}

impl<'a> View for Label<'a> {
    type V = LabelView;

    open spec fn view(&self) -> LabelView {
        match *self {
            Label::Aidl { iface, code } => LabelView::Aidl { iface: iface@, code },
            Label::Reply { code } => LabelView::Reply { code },
            Label::NonAidl { code } => LabelView::NonAidl { code },
        }
    }
}

impl<'a> View for Record<'a> {
    type V = RecordView;

    open spec fn view(&self) -> RecordView {
        RecordView {
            src: self.src@,
            src_pid: self.src_pid,
            dst: self.dst@,
            dst_pid: self.dst_pid,
            label: self.label@,
            size: self.size,
            oneway: self.oneway,
        }
    }
}

/// Whether `s` ends with `t`.
pub open spec fn ends_with(s: Seq<char>, t: Seq<char>) -> bool {
    occurs_at(s, t, s.len() - t.len())
}

/// The 32-bit number that is all of `s` but for the character `c` at its end.
pub open spec fn number_before(s: Seq<char>, c: char) -> Option<u32> {
    if s.len() > 0 && s.last() == c {
        match parse_unsigned(s.drop_last(), u32::MAX as nat) {
            Some(n) => Some(n as u32),
            None => None,
        }
    } else {
        None
    }
}

/// `name (pid)`, as the name and the pid.
pub open spec fn endpoint_of(s: Seq<char>) -> Option<(Seq<char>, u32)> {
    match rfind(s, " ("@) {
        Some(open) => match number_before(s.skip(open + 2), ')') {
            Some(pid) => Some((s.take(open), pid)),
            None => None,
        },
        None => None,
    }
}

/// The label that is all of `s`.
pub open spec fn label_of(s: Seq<char>) -> Option<LabelView> {
    if occurs_at(s, "<reply code:"@, 0) {
        match number_before(s.skip(12), '>') {
            Some(code) => Some(LabelView::Reply { code }),
            None => None,
        }
    } else if occurs_at(s, "<non-aidl code:"@, 0) {
        match number_before(s.skip(15), '>') {
            Some(code) => Some(LabelView::NonAidl { code }),
            None => None,
        }
    } else {
        match find_from(s, ".[code:"@, 0) {
            Some(mark) => match number_before(s.skip(mark + 7), ']') {
                Some(code) => if mark > 0 {
                    Some(LabelView::Aidl { iface: s.take(mark), code })
                } else {
                    None
                },
                None => None,
            },
            None => None,
        }
    }
}

/// The two endpoints of `src (pid) -> dst (pid)`.
pub open spec fn endpoints_of(addr: Seq<char>) -> Option<((Seq<char>, u32), (Seq<char>, u32))> {
    match find_from(addr, " -> "@, 0) {
        Some(arrow) => match (endpoint_of(addr.take(arrow)), endpoint_of(addr.skip(arrow + 4))) {
            (Some(src), Some(dst)) => Some((src, dst)),
            _ => None,
        },
        None => None,
    }
}

/// The fields of a line without its `oneway` mark.
pub open spec fn fields_of(core: Seq<char>, oneway: bool) -> Option<RecordView> {
    match rfind(core, ", "@) {
        Some(comma) => {
            let head = core.take(comma);
            match (number_before(core.skip(comma + 2), 'B'), find_from(head, "): "@, 0)) {
                (Some(size), Some(sep)) => match (
                    endpoints_of(head.take(sep + 1)),
                    label_of(head.skip(sep + 3)),
                ) {
                    (Some((src, dst)), Some(label)) => Some(
                        RecordView {
                            src: src.0,
                            src_pid: src.1,
                            dst: dst.0,
                            dst_pid: dst.1,
                            label,
                            size,
                            oneway,
                        },
                    ),
                    _ => None,
                },
                _ => None,
            }
        },
        None => None,
    }
}

/// The record that a line holds.
pub open spec fn record_of(line: Seq<char>) -> Option<RecordView> {
    let core = trim(line);
    if ends_with(core, " oneway"@) {
        fields_of(core.take(core.len() - 7), true)
    } else {
        fields_of(core, false)
    }
}

/// Reads the number that is all of `s` but for the character `c` at its end.
fn read_before(s: &[char], c: char) -> (r: Option<u32>)
    ensures
        r == number_before(s@, c),
{
    if s.len() > 0 && s[s.len() - 1] == c {
        let digits: &[char] = slice_subrange(s, 0, s.len() - 1);
        assert(digits@ =~= s@.drop_last());
        read_unsigned(digits, u32::MAX)
    } else {
        None
    }
}

/// Parses `name (pid)` into the length of the name and the pid.
fn parse_endpoint(s: &[char]) -> (r: Option<(usize, u32)>)
    ensures
        match (r, endpoint_of(s@)) {
            (Some((len, pid)), Some(v)) => len <= s@.len() && s@.take(len as int) == v.0 && pid
                == v.1,
            (None, None) => true,
            _ => false,
        },
{
    proof {
        reveal_strlit(" (");
    }
    match find_last(s, " (") {
        Some(open) => {
            let pid: &[char] = slice_subrange(s, open + 2, s.len());
            assert(pid@ =~= s@.skip(open + 2));
            match read_before(pid, ')') {
                Some(pid) => Some((open, pid)),
                None => None,
            }
        },
        None => None,
    }
}

/// A label whose interface is the first characters of the text it was parsed from.
enum LabelSpan {
    Aidl { len: usize, code: u32 },
    Reply { code: u32 },
    NonAidl { code: u32 },
}

impl LabelSpan {
    spec fn of(self, s: Seq<char>) -> LabelView {
        match self {
            LabelSpan::Aidl { len, code } => LabelView::Aidl { iface: s.take(len as int), code },
            LabelSpan::Reply { code } => LabelView::Reply { code },
            LabelSpan::NonAidl { code } => LabelView::NonAidl { code },
        }
    }
}

/// Parses the label that is all of `s`.
fn parse_label(s: &[char]) -> (r: Option<LabelSpan>)
    ensures
        match (r, label_of(s@)) {
            (Some(l), Some(v)) => l.of(s@) == v && (l matches LabelSpan::Aidl { len, .. }
                ==> len <= s@.len()),
            (None, None) => true,
            _ => false,
        },
{
    proof {
        reveal_strlit("<reply code:");
        reveal_strlit("<non-aidl code:");
        reveal_strlit(".[code:");
    }
    if starts_with(s, "<reply code:") {
        let rest: &[char] = slice_subrange(s, 12, s.len());
        assert(rest@ =~= s@.skip(12));
        return match read_before(rest, '>') {
            Some(code) => Some(LabelSpan::Reply { code }),
            None => None,
        };
    }
    if starts_with(s, "<non-aidl code:") {
        let rest: &[char] = slice_subrange(s, 15, s.len());
        assert(rest@ =~= s@.skip(15));
        return match read_before(rest, '>') {
            Some(code) => Some(LabelSpan::NonAidl { code }),
            None => None,
        };
    }
    match find(s, ".[code:", 0) {
        Some(mark) => {
            let rest: &[char] = slice_subrange(s, mark + 7, s.len());
            assert(rest@ =~= s@.skip(mark + 7));
            match read_before(rest, ']') {
                Some(code) => if mark > 0 {
                    Some(LabelSpan::Aidl { len: mark, code })
                } else {
                    None
                },
                None => None,
            }
        },
        None => None,
    }
}

/// The endpoints of an address: the length of the source's name and its pid, the place
/// and the length of the target's name and its pid.
struct AddressSpan {
    src_len: usize,
    src_pid: u32,
    dst_at: usize,
    dst_len: usize,
    dst_pid: u32,
}

impl AddressSpan {
    spec fn within(self, addr: Seq<char>) -> bool {
        self.src_len <= addr.len() && self.dst_at + self.dst_len <= addr.len()
    }

    spec fn of(self, addr: Seq<char>) -> ((Seq<char>, u32), (Seq<char>, u32)) {
        (
            (addr.subrange(0, self.src_len as int), self.src_pid),
            (addr.subrange(self.dst_at as int, self.dst_at + self.dst_len), self.dst_pid),
        )
    }
}

/// Parses `src (pid) -> dst (pid)`.
fn parse_address(addr: &[char]) -> (r: Option<AddressSpan>)
    ensures
        match (r, endpoints_of(addr@)) {
            (Some(a), Some(v)) => a.within(addr@) && a.of(addr@) == v,
            (None, None) => true,
            _ => false,
        },
{
    proof {
        reveal_strlit(" -> ");
    }
    let arrow: usize = match find(addr, " -> ", 0) {
        Some(i) => i,
        None => {
            return None;
        },
    };
    let left: &[char] = slice_subrange(addr, 0, arrow);
    let right: &[char] = slice_subrange(addr, arrow + 4, addr.len());
    proof {
        assert(left@ =~= addr@.take(arrow as int));
        assert(right@ =~= addr@.skip(arrow + 4));
    }
    let (src_len, src_pid): (usize, u32) = match parse_endpoint(left) {
        Some(x) => x,
        None => {
            return None;
        },
    };
    let (dst_len, dst_pid): (usize, u32) = match parse_endpoint(right) {
        Some(x) => x,
        None => {
            return None;
        },
    };
    let dst_at: usize = arrow + 4;
    proof {
        assert(addr@.subrange(0, src_len as int) =~= left@.take(src_len as int));
        assert(addr@.subrange(dst_at as int, dst_at + dst_len) =~= right@.take(dst_len as int));
    }
    Some(AddressSpan { src_len, src_pid, dst_at, dst_len, dst_pid })
}

/// The places of the parts of a line without its `oneway` mark.
struct FieldSpan {
    size: u32,
    /// The end of the address.
    addr_end: usize,
    addr: AddressSpan,
    /// The start of the label.
    label_at: usize,
    label: LabelSpan,
}

impl FieldSpan {
    spec fn within(self, t: Seq<char>) -> bool {
        &&& self.addr_end <= t.len()
        &&& self.addr.within(t.take(self.addr_end as int))
        &&& self.label_at <= t.len()
        &&& self.label matches LabelSpan::Aidl { len, .. } ==> self.label_at + len <= t.len()
    }

    spec fn of(self, t: Seq<char>, oneway: bool) -> RecordView {
        let (src, dst) = self.addr.of(t.take(self.addr_end as int));
        RecordView {
            src: src.0,
            src_pid: src.1,
            dst: dst.0,
            dst_pid: dst.1,
            label: self.label.of(t.skip(self.label_at as int)),
            size: self.size,
            oneway,
        }
    }
}

/// Locates the parts of a line without its `oneway` mark.
fn parse_spans(t: &[char]) -> (r: Option<FieldSpan>)
    ensures
        match (r, fields_of(t@, false)) {
            (Some(f), Some(v)) => f.within(t@) && f.of(t@, false) == v,
            (None, None) => true,
            _ => false,
        },
{
    proof {
        reveal_strlit(", ");
        reveal_strlit("): ");
    }
    let comma: usize = match find_last(t, ", ") {
        Some(i) => i,
        None => {
            return None;
        },
    };
    let head: &[char] = slice_subrange(t, 0, comma);
    let tail: &[char] = slice_subrange(t, comma + 2, t.len());
    proof {
        assert(head@ =~= t@.take(comma as int));
        assert(tail@ =~= t@.skip(comma + 2));
    }
    let size: u32 = match read_before(tail, 'B') {
        Some(n) => n,
        None => {
            return None;
        },
    };
    let sep: usize = match find(head, "): ", 0) {
        Some(i) => i,
        None => {
            return None;
        },
    };
    let addr: &[char] = slice_subrange(head, 0, sep + 1);
    let rest: &[char] = slice_subrange(head, sep + 3, head.len());
    proof {
        assert(addr@ =~= head@.take(sep + 1));
        assert(addr@ =~= t@.take(sep + 1));
        assert(rest@ =~= head@.skip(sep + 3));
    }
    let span: AddressSpan = match parse_address(addr) {
        Some(a) => a,
        None => {
            return None;
        },
    };
    let label: LabelSpan = match parse_label(rest) {
        Some(l) => l,
        None => {
            return None;
        },
    };
    proof {
        match label {
            LabelSpan::Aidl { len, .. } => {
                assert(t@.skip(sep + 3).take(len as int) =~= rest@.take(len as int));
            },
            _ => {},
        }
    }
    Some(FieldSpan { size, addr_end: sep + 1, addr: span, label_at: sep + 3, label })
}

/// Parses a line without its `oneway` mark, which stands in `core` at `from..to`.
fn parse_fields<'a>(core: &'a str, c: &Vec<char>, from: usize, to: usize, oneway: bool) -> (r:
    Option<Record<'a>>)
    requires
        c@ == core@,
        from <= to <= c@.len(),
    ensures
        match (r, fields_of(core@.subrange(from as int, to as int), oneway)) {
            (Some(rec), Some(v)) => rec@ == v,
            (None, None) => true,
            _ => false,
        },
{
    let t: &[char] = slice_subrange(c.as_slice(), from, to);
    let ghost tv = core@.subrange(from as int, to as int);
    let f: FieldSpan = match parse_spans(t) {
        Some(f) => f,
        None => {
            return None;
        },
    };
    let src: &'a str = core.substring_char(from, from + f.addr.src_len);
    let dst_at: usize = from + f.addr.dst_at;
    let dst: &'a str = core.substring_char(dst_at, dst_at + f.addr.dst_len);
    let label_at: usize = from + f.label_at;
    let label: Label<'a> = match f.label {
        LabelSpan::Aidl { len, code } => {
            let iface: &'a str = core.substring_char(label_at, label_at + len);
            assert(iface@ =~= tv.skip(f.label_at as int).take(len as int));
            Label::Aidl { iface, code }
        },
        LabelSpan::Reply { code } => Label::Reply { code },
        LabelSpan::NonAidl { code } => Label::NonAidl { code },
    };
    proof {
        let addr = tv.take(f.addr_end as int);
        assert(src@ =~= addr.subrange(0, f.addr.src_len as int));
        assert(dst@ =~= addr.subrange(f.addr.dst_at as int, f.addr.dst_at + f.addr.dst_len));
    }
    Some(
        Record {
            src,
            src_pid: f.addr.src_pid,
            dst,
            dst_pid: f.addr.dst_pid,
            label,
            size: f.size,
            oneway,
        },
    )
}

impl<'a> Record<'a> {
    /// Parses a core line. Any prefix (a console timestamp, logcat metadata) must be
    /// stripped by the caller first. Returns `None` if the line does not match the
    /// expected shape.
    pub fn parse(core: &'a str) -> (r: Option<Self>)
        ensures
            match (r, record_of(core@)) {
                (Some(rec), Some(v)) => rec@ == v,
                (None, None) => true,
                _ => false,
            },
    {
        proof {
            reveal_strlit(" oneway");
        }
        let c: Vec<char> = chars_of(core);
        let from: usize = scan_end(&c, CharClass::White, 0);
        let t: &[char] = slice_subrange(c.as_slice(), from, c.len());
        assert(t@ =~= trim_start(core@));
        let len: usize = scan_start(t, CharClass::White, t.len());
        let ghost whole = trim(core@);
        assert(whole =~= core@.subrange(from as int, from + len));
        let mark: Vec<char> = chars_of(" oneway");
        if len >= 7 && matches_at(slice_subrange(t, 0, len), &mark, len - 7) {
            assert(t@.subrange(0, len as int) =~= whole);
            assert(whole.take(whole.len() - 7) =~= core@.subrange(from as int, from + len - 7));
            parse_fields(core, &c, from, from + len - 7, true)
        } else {
            assert(t@.subrange(0, len as int) =~= whole);
            parse_fields(core, &c, from, from + len, false)
        }
    }
}

} // verus!
