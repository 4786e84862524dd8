//! Laws of the offline reader: every code in a line is rewritten, and a captured call is
//! shown with its method and the values of its arguments.

use crate::catalog::{catalog_args, ArgView};
use crate::decode::{
    args_behind, call_args, captured, decoded, decoded_text, dropped, end_of, iface_before,
    iface_start, kept, lemma_tokens_advance, lemma_tokens_ordered, method_name, parse_code,
    parse_parcel, placed, rendered_within, rewritten, skip_dots, token_at, tokens, CODE_MARK,
    PARCEL_MARK, Captured, CatalogView, Decoded, Decoder, Parcel, Token,
};
use crate::decode_laws::{absent, all_moved, is_apart, lemma_tokens_shift, lemma_tokens_skip, moved};
use crate::event::TxEvent;
use crate::hex::{from_hex, law_hex_round_trip, lemma_to_hex_digits, to_hex};
use crate::line::{event_iface, format_event, parcel_token};
use crate::log_laws::{
    caller_keeps_parcel, caller_text, front_token, is_descriptor, law_logged_call_is_decoded,
    lemma_one_token, optional_token, raw_call, shown_args, size_text,
};
use crate::marshal::{interface_token, marshalled_from};
use crate::names::{bytes_of, NameCache};
use crate::parcel::{rendered_args, ValueView};
use crate::rendering::{glyphs, lemma_glyphs_concat, Glyph};
use crate::text::{
    decimal, find_from, first_behind, is_descriptor_char, is_digit, is_hex_digit,
    lemma_contains_concat, lemma_decimal, lemma_decimal_lacks, lemma_find_behind, lemma_find_first,
    lemma_find_is, lemma_find_none, lemma_run_end_is, lemma_run_start_is, occurs_at, run_end,
    run_start, CharClass,
};
use crate::utf16::encode16;
use crate::value_laws::{lemma_rendered_until, shown_first, suit};
use vstd::prelude::*;

verus! {

/// What stands before a space in a line stands there in every line that goes on behind it,
/// and no code runs across the space.
proof fn lemma_mark_before_space(x: Seq<char>, y: Seq<char>, j: int)
    requires
        x.len() > 0,
        x.last() == ' ',
        0 <= j < x.len(),
    ensures
        occurs_at(x + y, CODE_MARK@, j) == occurs_at(x, CODE_MARK@, j),
        occurs_at(x, CODE_MARK@, j) ==> j + 7 < x.len(),
{
    reveal_strlit(".[code:");
    let m = CODE_MARK@;
    assert(m.len() == 7);
    let s = x + y;
    if occurs_at(s, m, j) {
        if j + 7 >= x.len() {
            let k = x.len() - 1 - j;
            if k < 7 {
                assert(s.subrange(j, j + 7)[k] == s[j + k]);
                assert(m[k] == ' ');
            }
        }
        assert(x.subrange(j, j + 7) =~= s.subrange(j, j + 7));
    }
    if occurs_at(x, m, j) {
        assert(x.subrange(j, j + 7)[6] == x[j + 6]);
        assert(m[6] == ':');
        assert(x.subrange(j, j + 7) =~= s.subrange(j, j + 7));
    }
}

proof fn lemma_run_end_within(x: Seq<char>, y: Seq<char>, class: CharClass, i: int)
    requires
        x.len() > 0,
        !class.holds(x.last()),
        0 <= i < x.len(),
    ensures
        run_end(x + y, class, i) == run_end(x, class, i),
        i <= run_end(x, class, i) < x.len(),
    decreases x.len() - i,
{
    assert((x + y)[i] == x[i]);
    if class.holds(x[i]) {
        assert(i != x.len() - 1);
        lemma_run_end_within(x, y, class, i + 1);
    }
}

proof fn lemma_run_start_within(x: Seq<char>, y: Seq<char>, class: CharClass, i: int)
    requires
        0 <= i <= x.len(),
    ensures
        run_start(x + y, class, i) == run_start(x, class, i),
        0 <= run_start(x, class, i) <= i,
    decreases i,
{
    if i > 0 {
        assert((x + y)[i - 1] == x[i - 1]);
        if class.holds(x[i - 1]) {
            lemma_run_start_within(x, y, class, i - 1);
        }
    }
}

proof fn lemma_dots_within(x: Seq<char>, y: Seq<char>, from: int, to: int)
    requires
        0 <= from <= to <= x.len(),
    ensures
        skip_dots(x + y, from, to) == skip_dots(x, from, to),
        from <= skip_dots(x, from, to) <= to,
    decreases to - from,
{
    if from < to {
        assert((x + y)[from] == x[from]);
        if x[from] == '.' {
            lemma_dots_within(x, y, from + 1, to);
        }
    }
}

/// A code before a space is the same code whatever follows the space.
proof fn lemma_token_within(c: CatalogView, x: Seq<char>, y: Seq<char>, dot: int)
    requires
        x.len() > 0,
        x.last() == ' ',
        0 <= dot,
        dot + 7 < x.len(),
    ensures
        token_at(c, x + y, dot) == token_at(c, x, dot),
{
    reveal_strlit(".[code:");
    let s = x + y;
    let at = dot + 7;
    lemma_run_end_within(x, y, CharClass::Digit, at);
    let end = run_end(x, CharClass::Digit, at);
    assert(s[end] == x[end]);
    assert(s.subrange(at, end) =~= x.subrange(at, end));
    lemma_run_start_within(x, y, CharClass::Descriptor, dot);
    lemma_dots_within(x, y, run_start(x, CharClass::Descriptor, dot), dot);
    assert(s.subrange(iface_start(s, dot), dot) =~= x.subrange(iface_start(x, dot), dot));
}

/// The codes of a line that is parted at a space are those of its two parts.
proof fn lemma_tokens_join(c: CatalogView, x: Seq<char>, y: Seq<char>, from: int)
    requires
        x.len() > 0,
        x.last() == ' ',
        0 <= from <= x.len(),
    ensures
        tokens(c, x + y, from) == tokens(c, x, from) + all_moved(tokens(c, y, 0), x.len() as int),
    decreases x.len() - from,
{
    reveal_strlit(".[code:");
    let s = x + y;
    let n = x.len() as int;
    let later = all_moved(tokens(c, y, 0), n);
    lemma_tokens_advance(c, x, from);
    lemma_find_first(x, CODE_MARK@, from);
    match find_from(x, CODE_MARK@, from) {
        Some(dot) => {
            lemma_mark_before_space(x, y, dot);
            assert forall|j: int| from <= j < dot implies !occurs_at(s, CODE_MARK@, j) by {
                lemma_mark_before_space(x, y, j);
            }
            lemma_find_is(s, CODE_MARK@, from, dot);
            lemma_token_within(c, x, y, dot);
            match token_at(c, x, dot) {
                Some(t) => {
                    lemma_tokens_join(c, x, y, t.end);
                    assert(tokens(c, s, from) =~= tokens(c, x, from) + later);
                },
                None => {
                    lemma_tokens_join(c, x, y, dot + 7);
                },
            }
        },
        None => {
            assert forall|j: int|
                from <= j < n && occurs_at(s, CODE_MARK@, j) implies #[trigger] token_at(
                c,
                s,
                j,
            ) is None by {
                lemma_mark_before_space(x, y, j);
            }
            lemma_tokens_skip(c, s, from, n);
            assert(is_apart(x, y));
            lemma_tokens_shift(c, x, y, 0);
            assert(tokens(c, s, from) =~= tokens(c, x, from) + later);
        },
    }
}

/// The line up to the end of its `k`-th code, where nothing is dropped and no arguments are
/// shown: the text before each code, a dot and the method.
proof fn lemma_rewritten_plain(
    c: CatalogView,
    line: Seq<char>,
    toks: Seq<Token>,
    k: int,
)
    requires
        0 < k <= toks.len(),
    ensures
        rewritten(c, None, None, line, toks, k) == rewritten(c, None, None, line, toks, k - 1)
            + glyphs(line.subrange(end_of(toks, k - 1), toks[k - 1].dot)) + glyphs(seq!['.'])
            + glyphs(toks[k - 1].method),
{
    let before = rewritten(c, None, None, line, toks, k - 1);
    let part = glyphs(line.subrange(end_of(toks, k - 1), toks[k - 1].dot));
    let dot = glyphs(seq!['.']);
    let method = glyphs(toks[k - 1].method);
    assert(args_behind(c, None, toks, k - 1) =~= Seq::<Glyph>::empty());
    assert(before + (part + dot + method + Seq::<Glyph>::empty()) =~= before + part + dot + method);
}

/// Whether every token stands behind the one before it, within `limit`.
spec fn in_order(toks: Seq<Token>, limit: int) -> bool {
    forall|k: int| 0 <= k < toks.len() ==> #[trigger] placed(toks, k, 0, limit)
}

proof fn lemma_end_within(toks: Seq<Token>, k: int, limit: int)
    requires
        in_order(toks, limit),
        0 <= k <= toks.len(),
        0 <= limit,
    ensures
        0 <= end_of(toks, k) <= limit,
    decreases k,
{
    if k > 0 {
        assert(placed(toks, k - 1, 0, limit));
        lemma_end_within(toks, k - 1, limit);
    }
}

/// The first codes of a line are rewritten as in its first part alone.
proof fn lemma_rewritten_first(
    c: CatalogView,
    x: Seq<char>,
    y: Seq<char>,
    tx: Seq<Token>,
    all: Seq<Token>,
    k: int,
)
    requires
        in_order(tx, x.len() as int),
        0 <= k <= tx.len() <= all.len(),
        forall|i: int| 0 <= i < tx.len() ==> all[i] == tx[i],
    ensures
        rewritten(c, None, None, x + y, all, k) == rewritten(c, None, None, x, tx, k),
    decreases k,
{
    if k > 0 {
        lemma_rewritten_first(c, x, y, tx, all, k - 1);
        lemma_rewritten_plain(c, x + y, all, k);
        lemma_rewritten_plain(c, x, tx, k);
        assert(placed(tx, k - 1, 0, x.len() as int));
        lemma_end_within(tx, k - 1, x.len() as int);
        assert(end_of(all, k - 1) == end_of(tx, k - 1));
        assert((x + y).subrange(end_of(tx, k - 1), tx[k - 1].dot) =~= x.subrange(
            end_of(tx, k - 1),
            tx[k - 1].dot,
        ));
    }
}

/// The rest of the codes is rewritten as in the second part alone, behind all of the first.
proof fn lemma_rewritten_second(
    c: CatalogView,
    x: Seq<char>,
    y: Seq<char>,
    tx: Seq<Token>,
    ty: Seq<Token>,
    k: int,
)
    requires
        in_order(tx, x.len() as int),
        in_order(ty, y.len() as int),
        0 < k <= ty.len(),
    ensures
        rewritten(
            c,
            None,
            None,
            x + y,
            tx + all_moved(ty, x.len() as int),
            tx.len() + k,
        ) == rewritten(c, None, None, x, tx, tx.len() as int) + glyphs(
            x.subrange(end_of(tx, tx.len() as int), x.len() as int),
        ) + rewritten(c, None, None, y, ty, k),
    decreases k,
{
    let n = x.len() as int;
    let s = x + y;
    let all = tx + all_moved(ty, n);
    let at = tx.len() + k;
    let done = rewritten(c, None, None, x, tx, tx.len() as int);
    let tail = glyphs(x.subrange(end_of(tx, tx.len() as int), n));
    lemma_rewritten_plain(c, s, all, at);
    lemma_rewritten_plain(c, y, ty, k);
    assert(placed(ty, k - 1, 0, y.len() as int));
    lemma_end_within(ty, k - 1, y.len() as int);
    lemma_end_within(tx, tx.len() as int, n);
    let t = ty[k - 1];
    assert(all[at - 1] == moved(t, n));
    let from = end_of(ty, k - 1);
    let dot = glyphs(seq!['.']);
    let method = glyphs(t.method);
    let before = rewritten(c, None, None, y, ty, k - 1);
    if k == 1 {
        lemma_rewritten_first(c, x, y, tx, all, tx.len() as int);
        let end = end_of(tx, tx.len() as int);
        assert(end_of(all, at - 1) == end);
        assert(s.subrange(end, n + t.dot) =~= x.subrange(end, n) + y.subrange(0, t.dot));
        lemma_glyphs_concat(x.subrange(end, n), y.subrange(0, t.dot));
        let part = glyphs(y.subrange(0, t.dot));
        assert(before =~= Seq::<Glyph>::empty());
        assert(done + (tail + part) + dot + method =~= done + tail + (before + part + dot
            + method));
    } else {
        lemma_rewritten_second(c, x, y, tx, ty, k - 1);
        assert(all[at - 2] == moved(ty[k - 2], n));
        assert(end_of(all, at - 1) == n + from);
        assert(s.subrange(n + from, n + t.dot) =~= y.subrange(from, t.dot));
        let part = glyphs(y.subrange(from, t.dot));
        assert(done + tail + before + part + dot + method =~= done + tail + (before + part + dot
            + method));
    }
}

/// A line without a parcel is its rewritten codes and what is left behind them.
proof fn lemma_plain_line(c: CatalogView, line: Seq<char>)
    requires
        absent(line, PARCEL_MARK@),
    ensures
        ({
            let toks = tokens(c, line, 0);
            &&& decoded_text(c, line) == plain_text(c, line, toks)
            &&& toks.len() == 0 ==> decoded_text(c, line) == glyphs(line)
        }),
{
    lemma_find_none(line, PARCEL_MARK@, 0);
    let toks = tokens(c, line, 0);
    let n = toks.len() as int;
    assert(captured(line) is None);
    assert(dropped(c, None, toks) is None);
    if n == 0 {
        assert(line.subrange(0, line.len() as int) =~= line);
        assert(decoded_text(c, line) =~= rewritten(c, None, None, line, toks, n) + glyphs(line));
    }
}

/// Nothing that a line lacks stands in one of its parts.
proof fn lemma_absent_parts(x: Seq<char>, y: Seq<char>, m: Seq<char>)
    requires
        absent(x + y, m),
    ensures
        absent(x, m),
        absent(y, m),
{
    let s = x + y;
    let n = x.len() as int;
    assert forall|j: int| !occurs_at(x, m, j) by {
        if occurs_at(x, m, j) {
            assert(s.subrange(j, j + m.len()) =~= x.subrange(j, j + m.len()));
            assert(occurs_at(s, m, j));
        }
    }
    assert forall|j: int| !occurs_at(y, m, j) by {
        if occurs_at(y, m, j) {
            assert(s.subrange(n + j, n + j + m.len()) =~= y.subrange(j, j + m.len()));
            assert(occurs_at(s, m, n + j));
        }
    }
}

/// The rewritten codes of a line, and what is left behind them.
spec fn plain_text(c: CatalogView, line: Seq<char>, toks: Seq<Token>) -> Seq<Glyph> {
    rewritten(c, None, None, line, toks, toks.len() as int) + glyphs(
        line.subrange(end_of(toks, toks.len() as int), line.len() as int),
    )
}

/// Where the second part has codes, the line is rewritten as its parts are.
proof fn lemma_joined_codes(
    c: CatalogView,
    x: Seq<char>,
    y: Seq<char>,
    tx: Seq<Token>,
    ty: Seq<Token>,
)
    requires
        in_order(tx, x.len() as int),
        in_order(ty, y.len() as int),
        ty.len() > 0,
    ensures
        plain_text(c, x + y, tx + all_moved(ty, x.len() as int)) == plain_text(c, x, tx)
            + plain_text(c, y, ty),
{
    let s = x + y;
    let n = x.len() as int;
    let nx = tx.len() as int;
    let ny = ty.len() as int;
    let all = tx + all_moved(ty, n);
    lemma_end_within(tx, nx, n);
    lemma_end_within(ty, ny, y.len() as int);
    lemma_rewritten_second(c, x, y, tx, ty, ny);
    assert(all[nx + ny - 1] == moved(ty[ny - 1], n));
    assert(end_of(all, nx + ny) == n + end_of(ty, ny));
    let rest = y.subrange(end_of(ty, ny), y.len() as int);
    assert(s.subrange(n + end_of(ty, ny), s.len() as int) =~= rest);
    let done = rewritten(c, None, None, x, tx, nx);
    let tail = glyphs(x.subrange(end_of(tx, nx), n));
    let then = rewritten(c, None, None, y, ty, ny);
    lemma_regroup(done, tail, then, glyphs(rest));
}

proof fn lemma_regroup(a: Seq<Glyph>, b: Seq<Glyph>, c: Seq<Glyph>, d: Seq<Glyph>)
    ensures
        a + b + c + d == (a + b) + (c + d),
{
    assert(a + b + c + d =~= (a + b) + (c + d));
}

/// Where the second part has no code, it is kept behind the first.
proof fn lemma_kept_behind(c: CatalogView, x: Seq<char>, y: Seq<char>, tx: Seq<Token>)
    requires
        in_order(tx, x.len() as int),
    ensures
        plain_text(c, x + y, tx) == plain_text(c, x, tx) + glyphs(y),
{
    let s = x + y;
    let n = x.len() as int;
    let nx = tx.len() as int;
    lemma_end_within(tx, nx, n);
    lemma_rewritten_first(c, x, y, tx, tx, nx);
    let tail = x.subrange(end_of(tx, nx), n);
    assert(s.subrange(end_of(tx, nx), s.len() as int) =~= tail + y);
    lemma_glyphs_concat(tail, y);
    let done = rewritten(c, None, None, x, tx, nx);
    assert(done + (glyphs(tail) + glyphs(y)) =~= done + glyphs(tail) + glyphs(y));
}

/// A line is decoded part by part: where it is parted behind a space, and carries no
/// parcel, what it is rewritten to is what each of its parts is, one behind the other. So
/// every code in it is rewritten, however many there are, and everything else is kept.
pub proof fn law_line_is_decoded_by_parts(c: CatalogView, x: Seq<char>, y: Seq<char>)
    requires
        x.len() > 0,
        x.last() == ' ',
        absent(x + y, PARCEL_MARK@),
    ensures
        decoded_text(c, x + y) == decoded_text(c, x) + decoded_text(c, y),
{
    let n = x.len() as int;
    lemma_absent_parts(x, y, PARCEL_MARK@);
    lemma_plain_line(c, x + y);
    lemma_plain_line(c, x);
    lemma_plain_line(c, y);
    let tx = tokens(c, x, 0);
    let ty = tokens(c, y, 0);
    lemma_tokens_join(c, x, y, 0);
    lemma_tokens_ordered(c, x, 0);
    lemma_tokens_ordered(c, y, 0);
    assert(in_order(tx, n) && in_order(ty, y.len() as int));
    if ty.len() > 0 {
        lemma_joined_codes(c, x, y, tx, ty);
    } else {
        assert(tx + all_moved(ty, n) =~= tx);
        lemma_kept_behind(c, x, y, tx);
    }
}

/// What the decoder makes of a line is told by its catalog and the line alone: a line that
/// it hands back has nothing in it to rewrite.
pub proof fn law_decoded_line(d: &Decoder, line: &str, r: Decoded)
    requires
        call_ensures(Decoder::decode_line, (d, line), r),
    ensures
        match r {
            Decoded::Borrowed(s) => s@ == line@ && decoded_text(d.contents(), line@) == glyphs(
                line@,
            ),
            Decoded::Owned(out) => out@ == decoded_text(d.contents(), line@),
        },
{
}

/// A logged call is shown as it was made: behind who calls whom, the method's name takes
/// the place of the code. Where its parcel was captured and its arguments are known, each
/// value that was written follows in brackets under the argument's name, in place of the
/// raw parcel; then the size, and whether the call is one-way.
pub proof fn law_captured_call_is_shown(
    d: &Decoder,
    ev: &TxEvent,
    parcel: &[u8],
    names: &NameCache,
    errno: Option<i32>,
    line: String,
    text: &str,
    method: Seq<char>,
    args: Seq<ArgView>,
    values: Seq<ValueView>,
    policy: u32,
    source: u32,
    descriptor: Seq<char>,
    rest: Seq<u8>,
    r: Decoded,
)
    requires
        call_ensures(format_event, (ev, Some(parcel), names, errno), line),
        text@ == line@,
        call_ensures(Decoder::decode_line, (d, text), r),
        ev.err_code == 0,
        is_descriptor(event_iface(*ev)),
        method_name(d.contents(), event_iface(*ev), ev.code) == Some(method),
        catalog_args(d.contents(), event_iface(*ev), ev.code) == Some(args),
        args.len() > 0,
        values.len() == args.len(),
        suit(args, values),
        encode16(descriptor).len() <= u32::MAX,
        parcel@ == interface_token(policy, source, descriptor) + marshalled_from(values, 0) + rest,
        forall|j: int|
            0 <= j < caller_text(*ev, names@).len() && occurs_at(text@, CODE_MARK@, j)
                ==> #[trigger] token_at(d.contents(), text@, j) is None,
        caller_keeps_parcel(d.contents(), *ev, Some(parcel@), names@, method),
    ensures
        r matches Decoded::Owned(out) && out@ == glyphs(caller_text(*ev, names@)) + (glyphs(
            event_iface(*ev) + "."@ + method,
        ) + (glyphs(seq!['(']) + (shown_first(args, values, values.len() as int) + glyphs(
            seq![')'],
        )) + glyphs(
            ", "@ + decimal(ev.data_size as nat) + "B"@ + (if ev.flags & 1 == 1 {
                " oneway"@
            } else {
                seq![]
            }),
        ))),
{
    let flags = ev.flags;
    assert(flags & 1 == 1 <==> flags % 2 == 1) by (bit_vector);
    law_logged_call_is_decoded(d.contents(), *ev, Some(parcel@), names@, errno, method);
    let pos = lemma_rendered_until(args, values, policy, source, descriptor, rest);
}

/// A parcel is read wherever it stands in a line: all of its bytes, in either case, up to the
/// first character that is no hexadecimal digit.
pub proof fn law_parcel_is_read_anywhere(
    line: &[char],
    front: Seq<char>,
    count: Seq<char>,
    hex: Seq<char>,
    rest: Seq<char>,
    r: Option<Parcel>,
)
    requires
        call_ensures(parse_parcel, (line,), r),
        line@ == front + " parcel="@ + (count + ":"@ + hex + rest),
        first_behind(front, " parcel="@),
        !count.contains(':'),
        forall|i: int| 0 <= i < hex.len() ==> is_hex_digit(#[trigger] hex[i]),
        rest.len() > 0 ==> !is_hex_digit(rest[0]),
    ensures
        r matches Some(p) && {
            &&& p.start == front.len()
            &&& p.end == line@.len() - rest.len()
            &&& p.bytes@ == from_hex(hex)
        },
{
    lemma_captured_anywhere(line@, front, count, hex, rest);
}

proof fn lemma_captured_anywhere(
    line: Seq<char>,
    front: Seq<char>,
    count: Seq<char>,
    hex: Seq<char>,
    rest: Seq<char>,
)
    requires
        line == front + " parcel="@ + (count + ":"@ + hex + rest),
        first_behind(front, " parcel="@),
        !count.contains(':'),
        forall|i: int| 0 <= i < hex.len() ==> is_hex_digit(#[trigger] hex[i]),
        rest.len() > 0 ==> !is_hex_digit(rest[0]),
    ensures
        captured(line) == Some(
            Captured {
                start: front.len() as int,
                end: line.len() - rest.len(),
                bytes: from_hex(hex),
            },
        ),
{
    reveal_strlit(" parcel=");
    reveal_strlit(":");
    lemma_find_behind(front, PARCEL_MARK@, count + ":"@ + hex + rest);
    let at = front.len() as int + 8;
    let colon = at + count.len();
    assert(line.subrange(colon, colon + 1) =~= seq![':']);
    assert forall|j: int| at <= j < colon implies !occurs_at(line, seq![':'], j) by {
        if occurs_at(line, seq![':'], j) {
            assert(line.subrange(j, j + 1)[0] == line[j]);
            assert(count[j - at] == line[j]);
        }
    }
    lemma_find_is(line, seq![':'], at, colon);
    let end = line.len() - rest.len();
    assert forall|j: int| colon + 1 <= j < end implies CharClass::HexDigit.holds(line[j]) by {
        assert(line[j] == hex[j - colon - 1]);
    }
    if rest.len() > 0 {
        assert(line[end] == rest[0]);
    }
    lemma_run_end_is(line, CharClass::HexDigit, colon + 1, end);
    assert(line.subrange(colon + 1, end) =~= hex);
}

/// Where the arguments of a call are shown from its parcel, the parcel alone is cut out of
/// the line: what stands before it and what stands behind it are kept.
pub proof fn law_parcel_is_cut_out(
    d: &Decoder,
    line: &str,
    iface: Seq<char>,
    code: u32,
    method: Seq<char>,
    mid: Seq<char>,
    bytes: Seq<u8>,
    total: u32,
    rest: Seq<char>,
    args: Seq<ArgView>,
    shown: Seq<Glyph>,
    r: Decoded,
)
    requires
        call_ensures(Decoder::decode_line, (d, line), r),
        is_descriptor(iface),
        method_name(d.contents(), iface, code) == Some(method),
        catalog_args(d.contents(), iface, code) == Some(args),
        args.len() > 0,
        rendered_args(args, bytes) == Some(shown),
        line@ == raw_call(iface, code) + (mid + parcel_token(bytes, total) + rest),
        absent(mid + parcel_token(bytes, total) + rest, CODE_MARK@),
        first_behind(raw_call(iface, code) + mid, PARCEL_MARK@),
        rest.len() > 0 ==> !is_hex_digit(rest[0]),
    ensures
        r matches Decoded::Owned(out) && out@ == glyphs(iface + "."@ + method) + shown + glyphs(
            mid + rest,
        ),
{
    reveal_strlit(".");
    reveal_strlit("/");
    reveal_strlit(":");
    let c = d.contents();
    let s = line@;
    let call = raw_call(iface, code);
    let token = parcel_token(bytes, total);
    let front = call + mid;
    let count = decimal(bytes.len()) + "/"@ + decimal(total as nat);
    let hex = to_hex(bytes);
    lemma_decimal_lacks(bytes.len(), ':');
    lemma_decimal_lacks(total as nat, ':');
    lemma_contains_concat(decimal(bytes.len()), "/"@, ':');
    lemma_contains_concat(decimal(bytes.len()) + "/"@, decimal(total as nat), ':');
    assert(!"/"@.contains(':'));
    lemma_to_hex_digits(bytes);
    law_hex_round_trip(bytes);
    assert(s =~= front + " parcel="@ + (count + ":"@ + hex + rest));
    lemma_captured_anywhere(s, front, count, hex, rest);
    lemma_one_token(c, iface, code, method, mid + token + rest);
    lemma_cut_out(c, s, iface, code, method, mid, token, rest, args, bytes, shown);
}

/// A line whose only code stands at its front, with its parcel further on, is rewritten
/// without the parcel.
proof fn lemma_cut_out(
    c: CatalogView,
    s: Seq<char>,
    iface: Seq<char>,
    code: u32,
    method: Seq<char>,
    mid: Seq<char>,
    token: Seq<char>,
    rest: Seq<char>,
    args: Seq<ArgView>,
    bytes: Seq<u8>,
    shown: Seq<Glyph>,
)
    requires
        s == raw_call(iface, code) + (mid + token + rest),
        tokens(c, s, 0) == seq![front_token(iface, code, method)],
        captured(s) == Some(
            Captured {
                start: (raw_call(iface, code) + mid).len() as int,
                end: s.len() - rest.len(),
                bytes,
            },
        ),
        catalog_args(c, iface, code) == Some(args),
        args.len() > 0,
        rendered_args(args, bytes) == Some(shown),
    ensures
        decoded(c, s) == Some(glyphs(iface + "."@ + method) + shown + glyphs(mid + rest)),
{
    reveal_strlit(".");
    let toks = tokens(c, s, 0);
    let t = front_token(iface, code, method);
    let p = captured(s);
    assert(toks[0] == t);
    assert(call_args(c, p, t) == Some(shown));
    assert(rendered_within(c, p, toks, 1)) by {
        assert(call_args(c, p, toks[0]) is Some);
    }
    assert(!rendered_within(c, p, toks, 0));
    assert(dropped(c, p, toks) == p);
    lemma_cut_parts(s, iface, code, mid, token, rest, p->0);
    assert(rewritten(c, p, p, s, toks, 0) =~= Seq::<Glyph>::empty());
    lemma_glyphs_concat(iface, "."@);
    lemma_glyphs_concat(iface + "."@, method);
    assert("."@ =~= seq!['.']);
    assert(rewritten(c, p, p, s, toks, 1) =~= glyphs(iface + "."@ + method) + shown);
}

/// What is kept of such a line: the interface before the code, and behind it all but the
/// parcel.
proof fn lemma_cut_parts(
    s: Seq<char>,
    iface: Seq<char>,
    code: u32,
    mid: Seq<char>,
    token: Seq<char>,
    rest: Seq<char>,
    p: Captured,
)
    requires
        s == raw_call(iface, code) + (mid + token + rest),
        p.start == (raw_call(iface, code) + mid).len(),
        p.end == s.len() - rest.len(),
    ensures
        kept(s, 0, iface.len() as int, Some(p)) == iface,
        kept(s, raw_call(iface, code).len() as int, s.len() as int, Some(p)) == mid + rest,
{
    let call = raw_call(iface, code);
    let n = call.len() as int;
    assert(s.subrange(0, iface.len() as int) =~= iface);
    assert(kept(s, 0, iface.len() as int, Some(p)) =~= iface);
    assert(s.subrange(n, p.start) =~= mid);
    assert(s.subrange(p.end, s.len() as int) =~= rest);
}

/// Of several calls in a line with a parcel, the arguments are shown behind the first whose
/// arguments are known from it, and behind no other.
pub proof fn law_first_known_call_shows_its_arguments(
    c: CatalogView,
    p: Option<Captured>,
    toks: Seq<Token>,
    i: int,
    j: int,
)
    requires
        0 <= i < toks.len(),
        call_args(c, p, toks[i]) is Some,
        forall|k: int| 0 <= k < i ==> call_args(c, p, #[trigger] toks[k]) is None,
        0 <= j < toks.len(),
    ensures
        args_behind(c, p, toks, i) == call_args(c, p, toks[i])->0,
        j != i ==> args_behind(c, p, toks, j) == Seq::<Glyph>::empty(),
{
    if j > i {
        assert(rendered_within(c, p, toks, j)) by {
            assert(call_args(c, p, toks[i]) is Some);
        }
    }
}

/// The dots before a descriptor are no part of it.
pub proof fn law_leading_dots_are_no_part_of_it(
    line: &[char],
    before: Seq<char>,
    dots: Seq<char>,
    iface: Seq<char>,
    rest: Seq<char>,
    r: usize,
)
    requires
        is_descriptor(iface),
        before.len() > 0 ==> !is_descriptor_char(before.last()),
        forall|i: int| 0 <= i < dots.len() ==> #[trigger] dots[i] == '.',
        line@ == before + dots + iface + rest,
        before.len() + dots.len() + iface.len() <= usize::MAX,
        call_ensures(
            iface_before,
            (line, (before.len() + dots.len() + iface.len()) as usize),
            r,
        ),
    ensures
        r == before.len() + dots.len(),
{
    let s = line@;
    let b = before.len() as int;
    let d = b + dots.len();
    let end = d + iface.len();
    assert forall|j: int| b <= j < end implies CharClass::Descriptor.holds(s[j]) by {
        if j < d {
            assert(s[j] == dots[j - b]);
        } else {
            assert(s[j] == iface[j - d]);
        }
    }
    if b > 0 {
        assert(s[b - 1] == before.last());
    }
    lemma_run_start_is(s, CharClass::Descriptor, end, b);
    assert(s[d] == iface[0]);
    lemma_skips(s, b, d, end, dots);
}

proof fn lemma_skips(s: Seq<char>, from: int, d: int, end: int, dots: Seq<char>)
    requires
        0 <= from <= d < end <= s.len(),
        forall|j: int| from <= j < d ==> #[trigger] s[j] == '.',
        s[d] != '.',
    ensures
        skip_dots(s, from, end) == d,
    decreases d - from,
{
    if from < d {
        assert(s[from] == '.');
        lemma_skips(s, from + 1, d, end, dots);
    }
}

/// A code is digits with a bracket behind them, whatever their number up to 32 bits; with
/// anything else before the bracket, or a number that is larger, it is none.
pub proof fn law_code_is_read(
    line: &[char],
    at: usize,
    front: Seq<char>,
    n: nat,
    c: char,
    rest: Seq<char>,
    r: Option<(u32, usize)>,
)
    requires
        call_ensures(parse_code, (line, at), r),
        at == front.len(),
        line@ == front + decimal(n) + (seq![c] + rest),
        !is_digit(c),
    ensures
        c == ']' && n <= u32::MAX ==> (r matches Some((code, end)) && code == n && end == at
            + decimal(n).len() + 1),
        c != ']' || n > u32::MAX ==> r is None,
{
    let s = line@;
    let d = decimal(n);
    lemma_decimal(n);
    let end = at + d.len();
    assert forall|j: int| at <= j < end implies CharClass::Digit.holds(s[j]) by {
        assert(s[j] == d[j - at]);
    }
    assert(s[end as int] == c);
    lemma_run_end_is(s, CharClass::Digit, at as int, end as int);
    assert(s.subrange(at as int, end as int) =~= d);
}

/// A logged call is decoded behind who calls whom: the method's name takes the place of the
/// code, with the arguments that its captured parcel gives in place of the parcel, and the
/// parcel stays where it gives none.
pub proof fn law_logged_call_is_shown(
    d: &Decoder,
    ev: &TxEvent,
    parcel: Option<&[u8]>,
    names: &NameCache,
    errno: Option<i32>,
    line: String,
    text: &str,
    method: Seq<char>,
    r: Decoded,
)
    requires
        call_ensures(format_event, (ev, parcel, names, errno), line),
        text@ == line@,
        call_ensures(Decoder::decode_line, (d, text), r),
        ev.err_code == 0,
        is_descriptor(event_iface(*ev)),
        method_name(d.contents(), event_iface(*ev), ev.code) == Some(method),
        forall|j: int|
            0 <= j < caller_text(*ev, names@).len() && occurs_at(text@, CODE_MARK@, j)
                ==> #[trigger] token_at(d.contents(), text@, j) is None,
        caller_keeps_parcel(d.contents(), *ev, bytes_of(parcel), names@, method),
    ensures
        r matches Decoded::Owned(out) && out@ == glyphs(caller_text(*ev, names@)) + (glyphs(
            event_iface(*ev) + "."@ + method,
        ) + match shown_args(d.contents(), event_iface(*ev), ev.code, bytes_of(parcel)) {
            Some(args) => args + glyphs(size_text(ev.data_size, ev.oneway())),
            None => glyphs(
                size_text(ev.data_size, ev.oneway()) + optional_token(
                    bytes_of(parcel),
                    ev.data_size,
                ),
            ),
        }),
{
    law_logged_call_is_decoded(d.contents(), *ev, bytes_of(parcel), names@, errno, method);
}

/// A code without an interface before it is left as it is, whatever its number.
pub proof fn law_code_without_interface_is_kept(c: CatalogView, line: Seq<char>, dot: int)
    requires
        0 <= dot <= line.len(),
        dot > 0 ==> !is_descriptor_char(line[dot - 1]),
    ensures
        token_at(c, line, dot) is None,
{
    lemma_run_start_is(line, CharClass::Descriptor, dot, dot);
    assert(line.subrange(dot, dot).len() == 0);
}

} // verus!
