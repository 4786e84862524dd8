//! From the log to the reader: what the runtime logs of a call, the decoder turns into
//! the method's name and arguments.

use crate::catalog::catalog_args;
use crate::clock::{clock_text, in_calendar, three_digits, two_digits, wall_nanos, wall_secs};
use crate::decode::{
    call_args, captured, decoded, dropped, kept, lemma_tokens_advance, method_name, rendered_within,
    rewritten, skip_dots, token_at, tokens, CODE_MARK, PARCEL_MARK, Captured, CatalogView, Token,
};
use crate::decode_laws::{absent, is_apart, keeps_parcel, law_prefix_is_kept};
use crate::emit::{marked, LOG_MARKER};
use crate::event::TxEvent;
use crate::hex::{law_hex_round_trip, lemma_to_hex_digits, to_hex};
use crate::line::{address, core_line, event_iface, event_line, label, oneway_mark, parcel_token};
use crate::names::shown_name;
use crate::parcel::rendered_args;
use crate::rendering::{glyphs, lemma_glyphs_concat, Glyph};
use crate::text::{
    decimal, first_behind, is_descriptor_char, is_digit, is_hex_digit, lemma_contains_concat,
    lemma_decimal, lemma_decimal_lacks, lemma_find_behind, lemma_find_is, lemma_find_none,
    lemma_run_end_is, lemma_run_start_is, occurs_at, CharClass,
};
use vstd::prelude::*;

verus! {

/// Whether `s` is an interface descriptor as the decoder recognises it.
pub open spec fn is_descriptor(s: Seq<char>) -> bool {
    &&& s.len() > 0
    &&& s[0] != '.'
    &&& forall|i: int| 0 <= i < s.len() ==> is_descriptor_char(#[trigger] s[i])
}

/// A call as the runtime writes it.
pub open spec fn raw_call(iface: Seq<char>, code: u32) -> Seq<char> {
    iface + ".[code:"@ + (decimal(code as nat) + "]"@)
}

/// The token that stands at the front of a line.
pub open spec fn front_token(iface: Seq<char>, code: u32, method: Seq<char>) -> Token {
    Token {
        dot: iface.len() as int,
        end: raw_call(iface, code).len() as int,
        iface,
        code,
        method,
    }
}

/// What the decoder shows of the arguments of a call, by its captured parcel.
pub open spec fn shown_args(
    c: CatalogView,
    iface: Seq<char>,
    code: u32,
    parcel: Option<Seq<u8>>,
) -> Option<Seq<Glyph>> {
    match (parcel, catalog_args(c, iface, code)) {
        (Some(bytes), Some(args)) => if args.len() > 0 {
            rendered_args(args, bytes)
        } else {
            None
        },
        _ => None,
    }
}

proof fn lemma_absent_char(s: Seq<char>, pat: Seq<char>)
    requires
        pat.len() > 0,
        !s.contains(pat[0]),
    ensures
        absent(s, pat),
{
    assert forall|j: int| !occurs_at(s, pat, j) by {
        if occurs_at(s, pat, j) {
            assert(s.subrange(j, j + pat.len())[0] == s[j]);
        }
    }
}

/// The code and the interface of a call at the front of a line are told.
proof fn lemma_front_token(
    c: CatalogView,
    iface: Seq<char>,
    code: u32,
    method: Seq<char>,
    rest: Seq<char>,
)
    requires
        is_descriptor(iface),
        method_name(c, iface, code) == Some(method),
    ensures
        token_at(c, raw_call(iface, code) + rest, iface.len() as int) == Some(
            front_token(iface, code, method),
        ),
{
    reveal_strlit(".[code:");
    reveal_strlit("]");
    let digits = decimal(code as nat);
    let line = raw_call(iface, code) + rest;
    let dot = iface.len() as int;
    let at = dot + 7;
    let end = at + digits.len();
    lemma_decimal(code as nat);
    assert forall|j: int| at <= j < end implies CharClass::Digit.holds(line[j]) by {
        assert(line[j] == digits[j - at]);
        assert(is_digit(digits[j - at]));
    }
    assert(line[end] == ']');
    lemma_run_end_is(line, CharClass::Digit, at, end);
    assert(line.subrange(at, end) =~= digits);
    assert forall|j: int| 0 <= j < dot implies CharClass::Descriptor.holds(line[j]) by {
        assert(line[j] == iface[j]);
    }
    lemma_run_start_is(line, CharClass::Descriptor, dot, 0);
    assert(line[0] == iface[0]);
    assert(skip_dots(line, 0, dot) == 0);
    assert(line.subrange(0, dot) =~= iface);
}

/// A call at the front of a line is its only token, where no code follows.
pub proof fn lemma_one_token(
    c: CatalogView,
    iface: Seq<char>,
    code: u32,
    method: Seq<char>,
    rest: Seq<char>,
)
    requires
        is_descriptor(iface),
        method_name(c, iface, code) == Some(method),
        absent(rest, CODE_MARK@),
    ensures
        tokens(c, raw_call(iface, code) + rest, 0) == seq![front_token(iface, code, method)],
{
    reveal_strlit(".[code:");
    let digits = decimal(code as nat);
    let line = raw_call(iface, code) + rest;
    let end = raw_call(iface, code).len() as int;
    assert forall|j: int| 0 <= j < iface.len() implies !occurs_at(
        iface + CODE_MARK@,
        CODE_MARK@,
        j,
    ) by {
        let s = iface + CODE_MARK@;
        if occurs_at(s, CODE_MARK@, j) {
            assert(s.subrange(j, j + 7)[1] == s[j + 1]);
            if j + 1 < iface.len() {
                assert(is_descriptor_char(iface[j + 1]));
            }
        }
    }
    lemma_find_behind(iface, CODE_MARK@, digits + "]"@ + rest);
    assert(line =~= iface + CODE_MARK@ + (digits + "]"@ + rest));
    lemma_front_token(c, iface, code, method, rest);
    lemma_tokens_advance(c, line, 0);
    lemma_tokens_advance(c, line, end);
    assert forall|j: int| end <= j implies !occurs_at(line, CODE_MARK@, j) by {
        if occurs_at(line, CODE_MARK@, j) {
            assert(rest.subrange(j - end, j - end + 7) =~= line.subrange(j, j + 7));
            assert(occurs_at(rest, CODE_MARK@, j - end));
        }
    }
    lemma_find_none(line, CODE_MARK@, end);
    assert(tokens(c, line, end) =~= Seq::<Token>::empty());
    assert(tokens(c, line, 0) =~= seq![front_token(iface, code, method)]);
}

/// A parcel's token at the end of a line is read back.
pub proof fn law_parcel_round_trip(front: Seq<char>, bytes: Seq<u8>, total: u32)
    requires
        first_behind(front, PARCEL_MARK@),
    ensures
        captured(front + parcel_token(bytes, total)) == Some(
            Captured {
                start: front.len() as int,
                end: (front + parcel_token(bytes, total)).len() as int,
                bytes,
            },
        ),
{
    reveal_strlit(" parcel=");
    reveal_strlit("/");
    reveal_strlit(":");
    let count = decimal(bytes.len()) + "/"@ + decimal(total as nat);
    let hex = to_hex(bytes);
    let line = front + parcel_token(bytes, total);
    assert(line =~= front + PARCEL_MARK@ + (count + ":"@ + hex));
    lemma_find_behind(front, PARCEL_MARK@, count + ":"@ + hex);
    let start = front.len() as int;
    let at = start + 8;
    let colon = at + count.len();
    lemma_decimal_lacks(bytes.len(), ':');
    lemma_decimal_lacks(total as nat, ':');
    lemma_contains_concat(decimal(bytes.len()), "/"@, ':');
    lemma_contains_concat(decimal(bytes.len()) + "/"@, decimal(total as nat), ':');
    assert(!"/"@.contains(':'));
    assert(line.subrange(colon, colon + 1) =~= seq![':']);
    assert forall|j: int| at <= j < colon implies !occurs_at(line, seq![':'], j) by {
        if occurs_at(line, seq![':'], j) {
            assert(line.subrange(j, j + 1)[0] == line[j]);
            assert(count[j - at] == line[j]);
        }
    }
    lemma_find_is(line, seq![':'], at, colon);
    lemma_to_hex_digits(bytes);
    let end = line.len() as int;
    assert forall|j: int| colon + 1 <= j < end implies CharClass::HexDigit.holds(line[j]) by {
        assert(line[j] == hex[j - colon - 1]);
    }
    lemma_run_end_is(line, CharClass::HexDigit, colon + 1, end);
    assert(line.subrange(colon + 1, end) =~= hex);
    law_hex_round_trip(bytes);
}

/// The size that follows a call in its line.
pub open spec fn size_text(size: u32, oneway: bool) -> Seq<char> {
    ", "@ + decimal(size as nat) + "B"@ + oneway_mark(oneway)
}

/// The token of an optional parcel.
pub open spec fn optional_token(parcel: Option<Seq<u8>>, total: u32) -> Seq<char> {
    match parcel {
        Some(bytes) => parcel_token(bytes, total),
        None => seq![],
    }
}

/// No parcel's mark starts in a call and its size.
proof fn lemma_mark_behind_size(head: Seq<char>, size: u32, oneway: bool)
    requires
        !head.contains(' '),
    ensures
        first_behind(head + size_text(size, oneway), PARCEL_MARK@),
{
    reveal_strlit(" parcel=");
    reveal_strlit(", ");
    reveal_strlit("B");
    reveal_strlit(" oneway");
    let digits = decimal(size as nat);
    lemma_decimal(size as nat);
    let mid = size_text(size, oneway);
    let a = head + mid;
    let s = a + PARCEL_MARK@;
    let n = head.len() as int;
    assert forall|j: int| 0 <= j < a.len() implies !occurs_at(s, PARCEL_MARK@, j) by {
        if occurs_at(s, PARCEL_MARK@, j) {
            let sub = s.subrange(j, j + 8);
            assert(sub[0] == s[j] && sub[1] == s[j + 1]);
            if j < n {
                assert(head[j] == ' ');
            } else if j == n {
                assert(s[j] == ',');
            } else if j == n + 1 {
                assert(s[j + 1] == digits[0]);
                assert(is_digit(digits[0]));
            } else if j < n + 2 + digits.len() {
                assert(s[j] == digits[j - n - 2]);
                assert(is_digit(digits[j - n - 2]));
            } else if j == n + 2 + digits.len() {
                assert(s[j] == 'B');
            } else {
                let k = j - n - 3 - digits.len();
                assert(oneway);
                assert(s[j] == " oneway"@[k]);
                if k == 0 {
                    assert(s[j + 1] == " oneway"@[1]);
                }
            }
        }
    }
}

/// No code stands behind a call in its line.
proof fn lemma_rest_has_no_code(size: u32, oneway: bool, parcel: Option<Seq<u8>>)
    ensures
        absent(size_text(size, oneway) + optional_token(parcel, size), CODE_MARK@),
{
    reveal_strlit(".[code:");
    reveal_strlit(" parcel=");
    reveal_strlit("/");
    reveal_strlit(":");
    reveal_strlit(", ");
    reveal_strlit("B");
    reveal_strlit(" oneway");
    let c = '.';
    let digits = decimal(size as nat);
    lemma_decimal_lacks(size as nat, c);
    let mid = size_text(size, oneway);
    assert(!", "@.contains(c) && !"B"@.contains(c) && !" oneway"@.contains(c));
    lemma_contains_concat(", "@, digits, c);
    lemma_contains_concat(", "@ + digits, "B"@, c);
    lemma_contains_concat(", "@ + digits + "B"@, oneway_mark(oneway), c);
    let token = optional_token(parcel, size);
    match parcel {
        Some(bytes) => {
            let count = decimal(bytes.len());
            lemma_decimal_lacks(bytes.len(), c);
            lemma_to_hex_digits(bytes);
            let hex = to_hex(bytes);
            if hex.contains(c) {
                let i = choose|i: int| 0 <= i < hex.len() && hex[i] == c;
                assert(is_hex_digit(hex[i]));
            }
            assert(!" parcel="@.contains(c) && !"/"@.contains(c) && !":"@.contains(c));
            lemma_contains_concat(" parcel="@, count, c);
            lemma_contains_concat(" parcel="@ + count, "/"@, c);
            lemma_contains_concat(" parcel="@ + count + "/"@, digits, c);
            lemma_contains_concat(" parcel="@ + count + "/"@ + digits, ":"@, c);
            lemma_contains_concat(" parcel="@ + count + "/"@ + digits + ":"@, hex, c);
        },
        None => {},
    }
    lemma_contains_concat(mid, token, c);
    lemma_absent_char(mid + token, CODE_MARK@);
}

/// What a call is decoded to: its method, with the arguments that its captured parcel
/// gives in place of the parcel's token, where it gives any.
pub open spec fn decoded_call(
    c: CatalogView,
    iface: Seq<char>,
    code: u32,
    method: Seq<char>,
    size: u32,
    oneway: bool,
    parcel: Option<Seq<u8>>,
) -> Seq<Glyph> {
    glyphs(iface + "."@ + method) + match shown_args(c, iface, code, parcel) {
        Some(args) => args + glyphs(size_text(size, oneway)),
        None => glyphs(size_text(size, oneway) + optional_token(parcel, size)),
    }
}

/// A call at the front of a line is decoded.
proof fn lemma_call_decodes(
    c: CatalogView,
    iface: Seq<char>,
    code: u32,
    method: Seq<char>,
    size: u32,
    oneway: bool,
    parcel: Option<Seq<u8>>,
)
    requires
        is_descriptor(iface),
        method_name(c, iface, code) == Some(method),
    ensures
        ({
            let line = raw_call(iface, code) + (size_text(size, oneway) + optional_token(
                parcel,
                size,
            ));
            &&& decoded(c, line) == Some(
                decoded_call(c, iface, code, method, size, oneway, parcel),
            )
            &&& tokens(c, line, 0) == seq![front_token(iface, code, method)]
            &&& call_args(c, captured(line), front_token(iface, code, method)) == shown_args(
                c,
                iface,
                code,
                parcel,
            )
        }),
{
    reveal_strlit(".");
    let call = raw_call(iface, code);
    let mid = size_text(size, oneway);
    let token = optional_token(parcel, size);
    let rest = mid + token;
    let line = call + rest;
    let t = front_token(iface, code, method);
    lemma_rest_has_no_code(size, oneway, parcel);
    lemma_one_token(c, iface, code, method, rest);
    lemma_call_has_no_space(iface, code);
    lemma_mark_behind_size(call, size, oneway);
    let p = captured(line);
    let front = call + mid;
    assert(line =~= front + token);
    match parcel {
        Some(bytes) => {
            law_parcel_round_trip(front, bytes, size);
        },
        None => {
            lemma_no_mark(front);
        },
    }
    let toks = tokens(c, line, 0);
    assert(toks[0] == t);
    assert(call_args(c, p, t) == shown_args(c, iface, code, parcel));
    let rendered = rendered_within(c, p, toks, 1);
    assert(rendered == (shown_args(c, iface, code, parcel) is Some)) by {
        if call_args(c, p, toks[0]) is Some {
            assert(rendered_within(c, p, toks, 1));
        }
    }
    assert(!rendered_within(c, p, toks, 0));
    let drop = dropped(c, p, toks);
    assert(line.subrange(0, t.dot) =~= iface);
    assert(kept(line, 0, t.dot, drop) =~= iface);
    assert(rewritten(c, p, drop, line, toks, 0) =~= Seq::<Glyph>::empty());
    lemma_glyphs_concat(iface, "."@);
    lemma_glyphs_concat(iface + "."@, method);
    assert("."@ =~= seq!['.']);
    let name = glyphs(iface + "."@ + method);
    match shown_args(c, iface, code, parcel) {
        Some(args) => {
            assert(rewritten(c, p, drop, line, toks, 1) =~= name + args);
            assert(kept(line, t.end, line.len() as int, drop) =~= mid);
            assert(decoded(c, line)->0 =~= decoded_call(
                c,
                iface,
                code,
                method,
                size,
                oneway,
                parcel,
            ));
        },
        None => {
            assert(rewritten(c, p, drop, line, toks, 1) =~= name);
            assert(kept(line, t.end, line.len() as int, drop) =~= rest);
        },
    }
}

/// A call holds no space.
proof fn lemma_call_has_no_space(iface: Seq<char>, code: u32)
    requires
        is_descriptor(iface),
    ensures
        !raw_call(iface, code).contains(' '),
{
    reveal_strlit(".[code:");
    reveal_strlit("]");
    let digits = decimal(code as nat);
    if iface.contains(' ') {
        let i = choose|i: int| 0 <= i < iface.len() && iface[i] == ' ';
        assert(is_descriptor_char(iface[i]));
    }
    lemma_decimal_lacks(code as nat, ' ');
    assert(!".[code:"@.contains(' ') && !"]"@.contains(' '));
    lemma_contains_concat(iface, ".[code:"@, ' ');
    lemma_contains_concat(digits, "]"@, ' ');
    lemma_contains_concat(iface + ".[code:"@, digits + "]"@, ' ');
}

/// A line behind which a parcel's mark would first stand holds none.
proof fn lemma_no_mark(front: Seq<char>)
    requires
        first_behind(front, PARCEL_MARK@),
    ensures
        captured(front) is None,
{
    reveal_strlit(" parcel=");
    assert forall|j: int| 0 <= j implies !occurs_at(front, PARCEL_MARK@, j) by {
        if occurs_at(front, PARCEL_MARK@, j) {
            let s = front + PARCEL_MARK@;
            assert(s.subrange(j, j + 8) =~= front.subrange(j, j + 8));
            assert(occurs_at(s, PARCEL_MARK@, j));
        }
    }
    lemma_find_none(front, PARCEL_MARK@, 0);
}

/// Who calls whom, before the call.
pub open spec fn caller_text(ev: TxEvent, names: Map<u32, Seq<char>>) -> Seq<char> {
    address(
        shown_name(names, ev.src_pid),
        ev.src_pid,
        shown_name(names, ev.dst_pid),
        ev.dst_pid,
    ) + ": "@
}

/// The call in a line, and what follows it.
pub open spec fn call_text(ev: TxEvent, parcel: Option<Seq<u8>>) -> Seq<char> {
    raw_call(event_iface(ev), ev.code) + (size_text(ev.data_size, ev.oneway()) + optional_token(
        parcel,
        ev.data_size,
    ))
}

/// The line of a call is who calls whom, and the call.
proof fn lemma_line_parts(
    ev: TxEvent,
    parcel: Option<Seq<u8>>,
    names: Map<u32, Seq<char>>,
    errno: Option<i32>,
)
    requires
        !ev.failed(),
        event_iface(ev).len() > 0,
    ensures
        event_line(ev, parcel, names, errno) == caller_text(ev, names) + call_text(ev, parcel),
        caller_text(ev, names).len() > 0,
        caller_text(ev, names).last() == ' ',
{
    reveal_strlit(": ");
    let iface = event_iface(ev);
    let who = caller_text(ev, names);
    let sized = raw_call(iface, ev.code) + size_text(ev.data_size, ev.oneway());
    assert(label(ev) =~= raw_call(iface, ev.code));
    assert(core_line(ev, names) =~= who + sized);
    assert(call_text(ev, parcel) =~= sized + optional_token(parcel, ev.data_size));
    assert(event_line(ev, parcel, names, errno) =~= who + call_text(ev, parcel));
}

/// Whether who calls whom holds no parcel to render: no parcel's mark starts in it, or no
/// arguments are rendered, with it or without.
pub open spec fn caller_keeps_parcel(
    c: CatalogView,
    ev: TxEvent,
    parcel: Option<Seq<u8>>,
    names: Map<u32, Seq<char>>,
    method: Seq<char>,
) -> bool {
    let who = caller_text(ev, names);
    let line = who + call_text(ev, parcel);
    ||| forall|j: int| 0 <= j < who.len() ==> !occurs_at(line, PARCEL_MARK@, j)
    ||| {
        &&& shown_args(c, event_iface(ev), ev.code, parcel) is None
        &&& call_args(c, captured(line), front_token(event_iface(ev), ev.code, method)) is None
    }
}

/// What the runtime logs of a call, the decoder makes readable: behind who calls whom,
/// the code gives way to the method's name, with the arguments that the captured parcel
/// gives in place of the parcel itself; nothing else changes.
///
/// Who calls whom must hold no code that is known, and no parcel to render.
pub proof fn law_logged_call_is_decoded(
    c: CatalogView,
    ev: TxEvent,
    parcel: Option<Seq<u8>>,
    names: Map<u32, Seq<char>>,
    errno: Option<i32>,
    method: Seq<char>,
)
    requires
        !ev.failed(),
        is_descriptor(event_iface(ev)),
        method_name(c, event_iface(ev), ev.code) == Some(method),
        ({
            let line = event_line(ev, parcel, names, errno);
            forall|j: int|
                0 <= j < caller_text(ev, names).len() && occurs_at(line, CODE_MARK@, j)
                    ==> #[trigger] token_at(c, line, j) is None
        }),
        caller_keeps_parcel(c, ev, parcel, names, method),
    ensures
        decoded(c, event_line(ev, parcel, names, errno)) == Some(
            glyphs(caller_text(ev, names)) + decoded_call(
                c,
                event_iface(ev),
                ev.code,
                method,
                ev.data_size,
                ev.oneway(),
                parcel,
            ),
        ),
{
    let iface = event_iface(ev);
    let who = caller_text(ev, names);
    let bare = call_text(ev, parcel);
    lemma_line_parts(ev, parcel, names, errno);
    lemma_call_decodes(c, iface, ev.code, method, ev.data_size, ev.oneway(), parcel);
    assert(is_apart(who, bare));
    assert(keeps_parcel(c, who, bare)) by {
        if !(forall|j: int| 0 <= j < who.len() ==> !occurs_at(who + bare, PARCEL_MARK@, j)) {
            let toks = tokens(c, bare, 0);
            assert(toks[0] == front_token(iface, ev.code, method));
        }
    }
    law_prefix_is_kept(c, who, bare);
}

/// Whether a prefix runs into no mark by itself: it is one word with a space behind it,
/// and no dot in it starts a code.
pub open spec fn is_clear_prefix(p: Seq<char>) -> bool {
    &&& p.len() > 0
    &&& p.last() == ' '
    &&& forall|i: int| 0 <= i < p.len() - 1 ==> #[trigger] p[i] != ' '
    &&& forall|i: int| 0 <= i < p.len() && #[trigger] p[i] == '.' ==> p[i + 1] != '['
}

/// Behind one clear word, a line is decoded as it is without.
proof fn lemma_clear_prefix(c: CatalogView, p: Seq<char>, line: Seq<char>)
    requires
        is_clear_prefix(p),
        keeps_parcel(c, p, line),
    ensures
        decoded(c, p + line) == match decoded(c, line) {
            Some(text) => Some(glyphs(p) + text),
            None => None,
        },
{
    reveal_strlit(".[code:");
    let s = p + line;
    assert forall|j: int| 0 <= j < p.len() implies !occurs_at(s, CODE_MARK@, j) by {
        if occurs_at(s, CODE_MARK@, j) {
            let sub = s.subrange(j, j + 7);
            assert(sub[0] == s[j] && sub[1] == s[j + 1]);
            assert(p[j] == '.');
            assert(j < p.len() - 1);
            assert(s[j + 1] == p[j + 1]);
        }
    }
    law_prefix_is_kept(c, p, line);
}

/// One clear word before a line leaves its parcel alone, unless the line starts with what
/// the space before it would make the mark of a parcel.
pub proof fn law_clear_prefix_keeps_parcel(c: CatalogView, p: Seq<char>, line: Seq<char>)
    requires
        is_clear_prefix(p),
        !occurs_at(line, "parcel="@, 0),
    ensures
        keeps_parcel(c, p, line),
{
    reveal_strlit(" parcel=");
    reveal_strlit("parcel=");
    let s = p + line;
    assert forall|j: int| 0 <= j < p.len() implies !occurs_at(s, PARCEL_MARK@, j) by {
        if occurs_at(s, PARCEL_MARK@, j) {
            let sub = s.subrange(j, j + 8);
            assert(sub[0] == s[j]);
            assert(p[j] == ' ');
            assert(j == p.len() - 1);
            assert(line.subrange(0, 7) =~= sub.skip(1));
            assert(sub.skip(1) =~= "parcel="@);
        }
    }
}

/// The clock text of the console has no dot that starts a code, and no space.
proof fn lemma_clock_is_clear(ts_ns: u64, offset_ns: i128, east: i32)
    ensures
        is_clear_prefix(clock_text(ts_ns, offset_ns, east) + " "@),
{
    reveal_strlit("--:--:--.---");
    reveal_strlit(" ");
    let secs = wall_secs(ts_ns, offset_ns);
    let nanos = wall_nanos(ts_ns, offset_ns);
    let text = clock_text(ts_ns, offset_ns, east);
    let p = text + " "@;
    assert(p.last() == ' ');
    if in_calendar(secs, nanos) {
        let t = (secs + east) % 86_400;
        let ns = nanos as int;
        let s = t % 60 + ns / 1_000_000_000;
        let ms = ns / 1_000_000 % 1000;
        lemma_two_digits(t / 3600);
        lemma_two_digits(t / 60 % 60);
        lemma_two_digits(s);
        lemma_three_digits(ms);
        let h = two_digits(t / 3600);
        let m = two_digits(t / 60 % 60);
        let x = two_digits(s);
        let f = three_digits(ms);
        assert(text =~= h + seq![':'] + m + seq![':'] + x + seq!['.'] + f);
        assert(text.len() == 12);
        assert(text[0] == h[0] && text[1] == h[1] && text[2] == ':');
        assert(text[3] == m[0] && text[4] == m[1] && text[5] == ':');
        assert(text[6] == x[0] && text[7] == x[1] && text[8] == '.');
        assert(text[9] == f[0] && text[10] == f[1] && text[11] == f[2]);
    }
    assert forall|i: int| 0 <= i < p.len() - 1 implies #[trigger] p[i] != ' ' by {
        assert(p[i] == text[i]);
    }
    assert forall|i: int| 0 <= i < p.len() && #[trigger] p[i] == '.' implies p[i + 1] != '[' by {
        assert(p[i] == text[i]);
        assert(i == 8);
        assert(p[9] == text[9]);
    }
}

proof fn lemma_two_digits(n: int)
    requires
        0 <= n < 100,
    ensures
        is_digit(two_digits(n)[0]),
        is_digit(two_digits(n)[1]),
{
}

proof fn lemma_three_digits(n: int)
    requires
        0 <= n < 1000,
    ensures
        three_digits(n).len() == 3,
        is_digit(three_digits(n)[0]),
        is_digit(three_digits(n)[1]),
        is_digit(three_digits(n)[2]),
{
    lemma_two_digits(n % 100);
    let rest = two_digits(n % 100);
    assert(three_digits(n)[1] == rest[0] && three_digits(n)[2] == rest[1]);
}

/// A line is decoded alike from every sink: bare, behind the console's clock, and behind
/// the marker that logcat and DLT messages carry.
///
/// Neither may make a parcel of the start of the line.
pub proof fn law_sinks_decode_alike(
    c: CatalogView,
    line: Seq<char>,
    ts_ns: u64,
    offset_ns: i128,
    east: i32,
)
    requires
        keeps_parcel(c, LOG_MARKER@ + " "@, line),
        keeps_parcel(c, clock_text(ts_ns, offset_ns, east) + " "@, line),
    ensures
        decoded(c, marked(line)) == match decoded(c, line) {
            Some(text) => Some(glyphs(LOG_MARKER@ + " "@) + text),
            None => None,
        },
        decoded(c, clock_text(ts_ns, offset_ns, east) + " "@ + line) == match decoded(c, line) {
            Some(text) => Some(glyphs(clock_text(ts_ns, offset_ns, east) + " "@) + text),
            None => None,
        },
{
    reveal_strlit("BINDFETTO");
    reveal_strlit(" ");
    let p = LOG_MARKER@ + " "@;
    assert(is_clear_prefix(p));
    lemma_clear_prefix(c, p, line);
    lemma_clock_is_clear(ts_ns, offset_ns, east);
    lemma_clear_prefix(c, clock_text(ts_ns, offset_ns, east) + " "@, line);
}

} // verus!
