//! Laws of the decoder: what it leaves alone, what it rewrites, and that a prefix does
//! not matter.

use crate::catalog::special_name;
use crate::decode::{
    args_behind, call_args, captured, code_at, decoded, decoded_text, dropped, end_of, iface_start,
    kept, lemma_tokens_advance, lemma_tokens_ordered, method_name, nearest, placed, rendered_within,
    rewritten, rewritten_token, skip_dots, token_at, tokens, CODE_MARK, PARCEL_MARK, Captured,
    CatalogView, Token,
};

use crate::rendering::{glyphs, lemma_glyphs_concat, Glyph};
use crate::text::{
    find_from, is_descriptor_char, lemma_find_first, lemma_find_is, lemma_find_none,
    lemma_find_past, lemma_find_shift, lemma_run_end, lemma_run_start, occurs_at, run_end,
    run_start, CharClass,
};
use vstd::prelude::*;

verus! {

/// Whether `pat` stands nowhere in `s`.
pub open spec fn absent(s: Seq<char>, pat: Seq<char>) -> bool {
    forall|j: int| !occurs_at(s, pat, j)
}

/// A line without a code is left as it is, whatever the catalog.
pub proof fn law_line_without_code_is_kept(c: CatalogView, line: Seq<char>)
    requires
        absent(line, CODE_MARK@),
    ensures
        decoded(c, line) is None,
{
    lemma_find_none(line, CODE_MARK@, 0);
    assert(tokens(c, line, 0).len() == 0);
}

/// Special transactions resolve for every interface, whatever the catalog.
pub proof fn law_special_resolves(c: CatalogView, iface: Seq<char>, code: u32)
    requires
        special_name(code) is Some,
    ensures
        method_name(c, iface, code) == special_name(code),
{
}

/// An unknown code is left as it is: a line whose codes are all unknown is kept.
pub proof fn law_unknown_codes_are_kept(c: CatalogView, line: Seq<char>, from: int)
    requires
        0 <= from,
        forall|dot: int| token_at(c, line, dot) is None,
    ensures
        tokens(c, line, from).len() == 0,
        from == 0 ==> decoded(c, line) is None,
    decreases line.len() - from,
{
    lemma_tokens_advance(c, line, from);
    match find_from(line, CODE_MARK@, from) {
        Some(dot) => {
            assert(token_at(c, line, dot) is None);
            law_unknown_codes_are_kept(c, line, dot + 7);
        },
        None => {},
    }
}

proof fn lemma_run_end_shift(p: Seq<char>, s: Seq<char>, class: CharClass, i: int)
    requires
        0 <= i <= s.len(),
    ensures
        run_end(p + s, class, p.len() + i) == p.len() + run_end(s, class, i),
    decreases s.len() - i,
{
    if i < s.len() {
        assert((p + s)[p.len() + i] == s[i]);
        if class.holds(s[i]) {
            lemma_run_end_shift(p, s, class, i + 1);
        }
    }
}

proof fn lemma_run_start_shift(p: Seq<char>, s: Seq<char>, class: CharClass, i: int)
    requires
        0 <= i <= s.len(),
        p.len() > 0 && run_start(s, class, i) == 0 ==> !class.holds(p.last()),
    ensures
        run_start(p + s, class, p.len() + i) == p.len() + run_start(s, class, i),
    decreases i,
{
    if i > 0 {
        assert((p + s)[p.len() + i - 1] == s[i - 1]);
        if class.holds(s[i - 1]) {
            lemma_run_start_shift(p, s, class, i - 1);
        }
    } else if p.len() > 0 {
        assert((p + s)[p.len() - 1] == p.last());
    }
}

proof fn lemma_skip_dots_shift(p: Seq<char>, s: Seq<char>, from: int, to: int)
    requires
        0 <= from <= to <= s.len(),
    ensures
        skip_dots(p + s, p.len() + from, p.len() + to) == p.len() + skip_dots(s, from, to),
        from <= skip_dots(s, from, to) <= to,
    decreases to - from,
{
    if from < to {
        assert((p + s)[p.len() + from] == s[from]);
        if s[from] == '.' {
            lemma_skip_dots_shift(p, s, from + 1, to);
        }
    }
}

/// Whether what stands before a prefix's end cannot run into a descriptor of the line:
/// no descriptor starts with the line, or the prefix ends in a character that none holds.
pub open spec fn is_apart(p: Seq<char>, line: Seq<char>) -> bool {
    ||| p.len() == 0
    ||| !is_descriptor_char(p.last())
    ||| forall|dot: int|
        occurs_at(line, CODE_MARK@, dot) ==> #[trigger] run_start(line, CharClass::Descriptor, dot)
            != 0
}

/// A token moved on by `n`.
pub open spec fn moved(t: Token, n: int) -> Token {
    Token { dot: t.dot + n, end: t.end + n, ..t }
}

/// Tokens moved on by `n`.
pub open spec fn all_moved(toks: Seq<Token>, n: int) -> Seq<Token> {
    Seq::new(toks.len(), |i: int| moved(toks[i], n))
}

proof fn lemma_token_shift(c: CatalogView, p: Seq<char>, s: Seq<char>, dot: int)
    requires
        occurs_at(s, CODE_MARK@, dot),
        is_apart(p, s),
    ensures
        token_at(c, p + s, p.len() + dot) == match token_at(c, s, dot) {
            Some(t) => Some(moved(t, p.len() as int)),
            None => None,
        },
{
    reveal_strlit(".[code:");
    let n = p.len() as int;
    let at = dot + 7;
    lemma_run_end_shift(p, s, CharClass::Digit, at);
    lemma_run_end(s, CharClass::Digit, at);
    let end = run_end(s, CharClass::Digit, at);
    if end < s.len() {
        assert((p + s)[n + end] == s[end]);
    }
    assert((p + s).subrange(n + at, n + end) =~= s.subrange(at, end));
    assert(code_at(p + s, n + dot + 7) == match code_at(s, dot + 7) {
        Some((code, e)) => Some((code, n + e)),
        None => None,
    });
    lemma_run_start_shift(p, s, CharClass::Descriptor, dot);
    lemma_run_start(s, CharClass::Descriptor, dot);
    let from = run_start(s, CharClass::Descriptor, dot);
    lemma_skip_dots_shift(p, s, from, dot);
    let start = iface_start(s, dot);
    assert(iface_start(p + s, n + dot) == n + start);
    assert((p + s).subrange(n + start, n + dot) =~= s.subrange(start, dot));
}

/// The tokens of a line behind a prefix are those of the line, moved.
pub proof fn lemma_tokens_shift(c: CatalogView, p: Seq<char>, s: Seq<char>, from: int)
    requires
        0 <= from <= s.len(),
        is_apart(p, s),
    ensures
        tokens(c, p + s, p.len() + from) == all_moved(tokens(c, s, from), p.len() as int),
    decreases s.len() - from,
{
    let n = p.len() as int;
    lemma_tokens_advance(c, s, from);
    lemma_tokens_advance(c, p + s, n + from);
    lemma_find_shift(p, s, CODE_MARK@, from);
    lemma_find_first(s, CODE_MARK@, from);
    match find_from(s, CODE_MARK@, from) {
        Some(dot) => {
            lemma_token_shift(c, p, s, dot);
            match token_at(c, s, dot) {
                Some(t) => {
                    lemma_tokens_shift(c, p, s, t.end);
                    assert(all_moved(tokens(c, s, from), n) =~= seq![moved(t, n)] + all_moved(
                        tokens(c, s, t.end),
                        n,
                    ));
                },
                None => {
                    lemma_tokens_shift(c, p, s, dot + 7);
                },
            }
        },
        None => {
            assert(all_moved(tokens(c, s, from), n) =~= Seq::<Token>::empty());
        },
    }
}

/// A captured parcel moved on by `n`.
pub open spec fn parcel_moved(p: Option<Captured>, n: int) -> Option<Captured> {
    match p {
        Some(m) => Some(Captured { start: m.start + n, end: m.end + n, ..m }),
        None => None,
    }
}

proof fn lemma_captured_shift(p: Seq<char>, s: Seq<char>)
    requires
        forall|j: int| 0 <= j < p.len() ==> !occurs_at(p + s, PARCEL_MARK@, j),
    ensures
        captured(p + s) == parcel_moved(captured(s), p.len() as int),
{
    reveal_strlit(" parcel=");
    let n = p.len() as int;
    lemma_find_past(p, s, PARCEL_MARK@);
    lemma_find_first(s, PARCEL_MARK@, 0);
    match find_from(s, PARCEL_MARK@, 0) {
        Some(start) => {
            lemma_find_shift(p, s, seq![':'], start + 8);
            lemma_find_first(s, seq![':'], start + 8);
            match find_from(s, seq![':'], start + 8) {
                Some(colon) => {
                    lemma_run_end_shift(p, s, CharClass::HexDigit, colon + 1);
                    lemma_run_end(s, CharClass::HexDigit, colon + 1);
                    let end = run_end(s, CharClass::HexDigit, colon + 1);
                    assert((p + s).subrange(n + colon + 1, n + end) =~= s.subrange(colon + 1, end));
                },
                None => {},
            }
        },
        None => {},
    }
}

/// Whether two captured parcels give each token the same arguments.
spec fn same_args(
    c: CatalogView,
    p: Option<Captured>,
    q: Option<Captured>,
    toks: Seq<Token>,
) -> bool {
    forall|i: int|
        0 <= i < toks.len() ==> call_args(c, q, #[trigger] toks[i]) == call_args(c, p, toks[i])
}

proof fn lemma_rendered_shift(
    c: CatalogView,
    p: Option<Captured>,
    q: Option<Captured>,
    toks: Seq<Token>,
    k: int,
    n: int,
)
    requires
        0 <= k <= toks.len(),
        same_args(c, p, q, toks),
    ensures
        rendered_within(c, q, all_moved(toks, n), k) == rendered_within(c, p, toks, k),
{
    let moved_toks = all_moved(toks, n);
    assert forall|i: int| 0 <= i < k implies call_args(c, q, #[trigger] moved_toks[i]) == call_args(
        c,
        p,
        toks[i],
    ) by {
        assert(moved_toks[i] == moved(toks[i], n));
        assert(call_args(c, q, toks[i]) == call_args(c, p, toks[i]));
    }
    if rendered_within(c, p, toks, k) {
        let i = choose|i: int| 0 <= i < k && call_args(c, p, #[trigger] toks[i]) is Some;
        assert(call_args(c, q, moved_toks[i]) is Some);
    }
    if rendered_within(c, q, moved_toks, k) {
        let i = choose|i: int| 0 <= i < k && call_args(c, q, #[trigger] moved_toks[i]) is Some;
        assert(call_args(c, p, toks[i]) is Some);
    }
}

proof fn lemma_end_positive(toks: Seq<Token>, k: int, limit: int)
    requires
        0 <= k <= toks.len(),
        forall|i: int| 0 <= i < toks.len() ==> #[trigger] placed(toks, i, 0, limit),
    ensures
        0 <= end_of(toks, k),
        k > 0 ==> end_of(toks, k) <= limit,
    decreases k,
{
    if k > 0 {
        assert(placed(toks, k - 1, 0, limit));
        lemma_end_positive(toks, k - 1, limit);
    }
}

/// What is kept of a line behind a prefix is what is kept of it without.
proof fn lemma_kept_shift(
    p: Seq<char>,
    s: Seq<char>,
    from: int,
    to: int,
    drop: Option<Captured>,
)
    requires
        0 <= from <= to <= s.len(),
        drop matches Some(m) ==> 0 <= m.start <= m.end,
    ensures
        kept(p + s, p.len() + from, p.len() + to, parcel_moved(drop, p.len() as int)) == kept(
            s,
            from,
            to,
            drop,
        ),
        kept(p + s, 0, p.len() + to, parcel_moved(drop, p.len() as int)) == p + kept(
            s,
            0,
            to,
            drop,
        ),
{
    let n = p.len() as int;
    match drop {
        Some(m) => {
            let a = nearest(m.start, from, to);
            let b = nearest(m.end, from, to);
            assert((p + s).subrange(n + from, n + a) =~= s.subrange(from, a));
            assert((p + s).subrange(n + b, n + to) =~= s.subrange(b, to));
            let x = nearest(m.start, 0, to);
            let y = nearest(m.end, 0, to);
            assert((p + s).subrange(0, n + x) =~= p + s.subrange(0, x));
            assert((p + s).subrange(n + y, n + to) =~= s.subrange(y, to));
            assert(kept(p + s, 0, n + to, parcel_moved(drop, n)) =~= p + kept(s, 0, to, drop));
        },
        None => {
            assert((p + s).subrange(n + from, n + to) =~= s.subrange(from, to));
            assert((p + s).subrange(0, n + to) =~= p + s.subrange(0, to));
        },
    }
}

proof fn lemma_args_shift(
    c: CatalogView,
    parcel: Option<Captured>,
    q: Option<Captured>,
    toks: Seq<Token>,
    i: int,
    n: int,
)
    requires
        0 <= i < toks.len(),
        same_args(c, parcel, q, toks),
    ensures
        args_behind(c, q, all_moved(toks, n), i) == args_behind(c, parcel, toks, i),
{
    assert(all_moved(toks, n)[i] == moved(toks[i], n));
    lemma_rendered_shift(c, parcel, q, toks, i, n);
    assert(call_args(c, q, toks[i]) == call_args(c, parcel, toks[i]));
    assert(call_args(c, q, moved(toks[i], n)) == call_args(c, q, toks[i]));
}

/// What is kept before the `i`-th token behind a prefix: the prefix too, before the first.
proof fn lemma_kept_before_shift(
    p: Seq<char>,
    s: Seq<char>,
    drop: Option<Captured>,
    toks: Seq<Token>,
    i: int,
)
    requires
        0 <= i < toks.len(),
        0 <= end_of(toks, i) <= toks[i].dot <= s.len(),
        drop matches Some(m) ==> 0 <= m.start <= m.end,
    ensures
        ({
            let n = p.len() as int;
            let shifted = all_moved(toks, n);
            let before = kept(s, end_of(toks, i), toks[i].dot, drop);
            kept(p + s, end_of(shifted, i), shifted[i].dot, parcel_moved(drop, n)) == if i == 0 {
                p + before
            } else {
                before
            }
        }),
{
    let n = p.len() as int;
    let shifted = all_moved(toks, n);
    assert(shifted[i] == moved(toks[i], n));
    lemma_kept_shift(p, s, end_of(toks, i), toks[i].dot, drop);
    if i > 0 {
        assert(shifted[i - 1] == moved(toks[i - 1], n));
    }
}

proof fn lemma_token_text_shift(
    c: CatalogView,
    p: Seq<char>,
    s: Seq<char>,
    parcel: Option<Captured>,
    q: Option<Captured>,
    drop: Option<Captured>,
    toks: Seq<Token>,
    i: int,
)
    requires
        0 <= i < toks.len(),
        0 <= end_of(toks, i) <= toks[i].dot <= s.len(),
        same_args(c, parcel, q, toks),
        drop matches Some(m) ==> 0 <= m.start <= m.end,
    ensures
        ({
            let n = p.len() as int;
            let shifted = all_moved(toks, n);
            let before = rewritten_token(c, parcel, drop, s, toks, i);
            rewritten_token(c, q, parcel_moved(drop, n), p + s, shifted, i) == if i == 0 {
                glyphs(p) + before
            } else {
                before
            }
        }),
{
    let n = p.len() as int;
    lemma_args_shift(c, parcel, q, toks, i, n);
    lemma_kept_before_shift(p, s, drop, toks, i);
    assert(all_moved(toks, n)[i] == moved(toks[i], n));
    if i == 0 {
        let k = kept(s, end_of(toks, i), toks[i].dot, drop);
        lemma_glyphs_concat(p, k);
        let dot = glyphs(seq!['.']);
        let method = glyphs(toks[i].method);
        let args = args_behind(c, parcel, toks, i);
        assert((glyphs(p) + glyphs(k)) + dot + method + args =~= glyphs(p) + (glyphs(k) + dot
            + method + args));
    }
}

proof fn lemma_rewritten_shift(
    c: CatalogView,
    p: Seq<char>,
    s: Seq<char>,
    parcel: Option<Captured>,
    q: Option<Captured>,
    drop: Option<Captured>,
    toks: Seq<Token>,
    k: int,
)
    requires
        0 < k <= toks.len(),
        forall|i: int| 0 <= i < toks.len() ==> #[trigger] placed(toks, i, 0, s.len() as int),
        same_args(c, parcel, q, toks),
        drop matches Some(m) ==> 0 <= m.start <= m.end,
    ensures
        rewritten(
            c,
            q,
            parcel_moved(drop, p.len() as int),
            p + s,
            all_moved(toks, p.len() as int),
            k,
        ) == glyphs(p) + rewritten(c, parcel, drop, s, toks, k),
    decreases k,
{
    let n = p.len() as int;
    let shifted = all_moved(toks, n);
    let gone = parcel_moved(drop, n);
    assert(placed(toks, k - 1, 0, s.len() as int));
    lemma_end_positive(toks, k - 1, s.len() as int);
    lemma_token_text_shift(c, p, s, parcel, q, drop, toks, k - 1);
    let after = rewritten(c, q, gone, p + s, shifted, k - 1);
    let before = rewritten(c, parcel, drop, s, toks, k - 1);
    let last = rewritten_token(c, parcel, drop, s, toks, k - 1);
    if k == 1 {
        assert(after =~= Seq::<Glyph>::empty());
        assert(before =~= Seq::<Glyph>::empty());
        assert(after + (glyphs(p) + last) =~= glyphs(p) + (before + last));
    } else {
        lemma_rewritten_shift(c, p, s, parcel, q, drop, toks, k - 1);
        assert(after + last =~= glyphs(p) + (before + last));
    }
}

/// Whether a prefix leaves the line's parcel alone: no parcel's mark starts in it, or no
/// arguments are rendered, with it or without.
pub open spec fn keeps_parcel(c: CatalogView, p: Seq<char>, line: Seq<char>) -> bool {
    ||| forall|j: int| 0 <= j < p.len() ==> !occurs_at(p + line, PARCEL_MARK@, j)
    ||| forall|k: int|
        0 <= k < tokens(c, line, 0).len() ==> {
            &&& call_args(c, captured(line), #[trigger] tokens(c, line, 0)[k]) is None
            &&& call_args(c, captured(p + line), tokens(c, line, 0)[k]) is None
        }
}

/// A prefix does not matter: a line behind a timestamp, a marker or the metadata of
/// another log is decoded as it is without, with the prefix before it.
///
/// The prefix must be one itself: no code in it is known, it does not run into a
/// descriptor at the start of the line, and it holds no parcel to render.
pub proof fn law_prefix_is_kept(c: CatalogView, p: Seq<char>, line: Seq<char>)
    requires
        is_apart(p, line),
        forall|j: int|
            0 <= j < p.len() && occurs_at(p + line, CODE_MARK@, j) ==> #[trigger] token_at(
                c,
                p + line,
                j,
            ) is None,
        keeps_parcel(c, p, line),
    ensures
        decoded(c, p + line) == match decoded(c, line) {
            Some(text) => Some(glyphs(p) + text),
            None => None,
        },
        decoded_text(c, p + line) == glyphs(p) + decoded_text(c, line),
{
    let n = p.len() as int;
    let toks = tokens(c, line, 0);
    let k = toks.len() as int;
    let parcel = captured(line);
    let q = captured(p + line);
    lemma_tokens_skip(c, p + line, 0, n);
    lemma_tokens_shift(c, p, line, 0);
    let shifted = tokens(c, p + line, 0);
    assert(shifted == all_moved(toks, n));
    lemma_tokens_ordered(c, line, 0);
    let alone = forall|j: int| 0 <= j < p.len() ==> !occurs_at(p + line, PARCEL_MARK@, j);
    if alone {
        lemma_captured_shift(p, line);
        assert(q == parcel_moved(parcel, n));
    }
    assert(same_args(c, parcel, q, toks));
    lemma_rendered_shift(c, parcel, q, toks, k, n);
    lemma_captured_within(line);
    lemma_glyphs_concat(p, line);
    let drop = dropped(c, parcel, toks);
    assert(dropped(c, q, shifted) == parcel_moved(drop, n));
    if k > 0 {
        assert(shifted[k - 1] == moved(toks[k - 1], n));
        assert(end_of(shifted, k) == n + end_of(toks, k));
        lemma_rewritten_shift(c, p, line, parcel, q, drop, toks, k);
        lemma_end_positive(toks, k, line.len() as int);
        lemma_kept_shift(p, line, end_of(toks, k), line.len() as int, drop);
        assert(decoded(c, p + line)->0 =~= glyphs(p) + decoded(c, line)->0);
    }
}

/// A prefix that ends in a space, and holds neither a code nor a parcel, does not matter,
/// unless the line starts with what that space would make the mark of a parcel.
pub proof fn law_plain_prefix_is_kept(c: CatalogView, p: Seq<char>, line: Seq<char>)
    requires
        p.len() > 0,
        p.last() == ' ',
        absent(p, CODE_MARK@),
        absent(p, PARCEL_MARK@),
        !occurs_at(line, "parcel="@, 0),
    ensures
        decoded_text(c, p + line) == glyphs(p) + decoded_text(c, line),
{
    reveal_strlit(".[code:");
    reveal_strlit(" parcel=");
    reveal_strlit("parcel=");
    let s = p + line;
    let n = p.len() as int;
    assert forall|j: int| 0 <= j < n implies !occurs_at(s, CODE_MARK@, j) by {
        if occurs_at(s, CODE_MARK@, j) {
            let sub = s.subrange(j, j + 7);
            if j + 7 <= n {
                assert(p.subrange(j, j + 7) =~= sub);
                assert(occurs_at(p, CODE_MARK@, j));
            } else {
                assert(sub[n - 1 - j] == s[n - 1]);
            }
        }
    }
    assert forall|j: int| 0 <= j < n implies !occurs_at(s, PARCEL_MARK@, j) by {
        if occurs_at(s, PARCEL_MARK@, j) {
            let sub = s.subrange(j, j + 8);
            if j + 8 <= n {
                assert(p.subrange(j, j + 8) =~= sub);
                assert(occurs_at(p, PARCEL_MARK@, j));
            } else {
                assert(sub[n - 1 - j] == s[n - 1]);
                assert(j == n - 1);
                assert(line.subrange(0, 7) =~= sub.skip(1));
                assert(sub.skip(1) =~= "parcel="@);
            }
        }
    }
    law_prefix_is_kept(c, p, line);
}

/// The scan passes over marks whose code is not known.
pub proof fn lemma_tokens_skip(c: CatalogView, s: Seq<char>, from: int, n: int)
    requires
        0 <= from <= n <= s.len(),
        forall|j: int|
            from <= j < n && occurs_at(s, CODE_MARK@, j) ==> #[trigger] token_at(c, s, j) is None,
    ensures
        tokens(c, s, from) == tokens(c, s, n),
    decreases n - from,
{
    reveal_strlit(".[code:");
    lemma_find_first(s, CODE_MARK@, from);
    lemma_find_first(s, CODE_MARK@, n);
    match find_from(s, CODE_MARK@, from) {
        Some(dot) => {
            if dot >= n {
                lemma_find_is(s, CODE_MARK@, n, dot);
            } else {
                assert(token_at(c, s, dot) is None);
                let next = dot + 7;
                assert(tokens(c, s, from) == tokens(c, s, next));
                if next <= n {
                    lemma_tokens_skip(c, s, next, n);
                } else {
                    // No mark starts inside another.
                    assert forall|j: int| n <= j < next implies !occurs_at(s, CODE_MARK@, j) by {
                        if occurs_at(s, CODE_MARK@, j) {
                            assert(s.subrange(j, j + 7)[0] == s[j]);
                            assert(s.subrange(dot, dot + 7)[j - dot] == s[j]);
                        }
                    }
                    lemma_find_first(s, CODE_MARK@, next);
                    match find_from(s, CODE_MARK@, next) {
                        Some(d) => {
                            lemma_find_is(s, CODE_MARK@, n, d);
                        },
                        None => {
                            lemma_find_none(s, CODE_MARK@, n);
                        },
                    }
                    assert(find_from(s, CODE_MARK@, n) == find_from(s, CODE_MARK@, next));
                    assert(tokens(c, s, n) == tokens(c, s, next));
                }
            }
        },
        None => {
            lemma_find_none(s, CODE_MARK@, n);
        },
    }
}

/// A captured parcel stands within its line.
proof fn lemma_captured_within(s: Seq<char>)
    ensures
        captured(s) matches Some(m) ==> 0 <= m.start && m.start + 8 < m.end && m.end <= s.len(),
{
    reveal_strlit(" parcel=");
    lemma_find_first(s, PARCEL_MARK@, 0);
    match find_from(s, PARCEL_MARK@, 0) {
        Some(start) => {
            lemma_find_first(s, seq![':'], start + 8);
            match find_from(s, seq![':'], start + 8) {
                Some(colon) => {
                    lemma_run_end(s, CharClass::HexDigit, colon + 1);
                },
                None => {},
            }
        },
        None => {},
    }
}

} // verus!
