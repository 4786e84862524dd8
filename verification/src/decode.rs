//! Rewriting transaction codes in log lines into method names.
//!
//! The runtime logs the raw transaction code. Given a catalog, the decoder rewrites
//! each `interface.[code:N]` token in a line into `interface.method`, and renders a
//! captured parcel into the method's arguments. It substitutes tokens in place, so a
//! line may carry any prefix.

use crate::catalog::{
    args_view, catalog_args, catalog_method, special_name, special_transaction, Catalog, MethodView,
};
use crate::hex::{from_hex, hex_bytes};
use crate::parcel::{render_args, rendered_args};
use crate::rendering::{glyphs, lemma_glyphs_concat, Glyph, Rendering};
use crate::text::{
    chars_of, find, find_from, lemma_find_first, lemma_run_end, parse_digits, read_digits, run_end,
    run_start, scan_end, scan_start, CharClass,
};
use vstd::prelude::*;
use vstd::slice::slice_subrange;

verus! {

/// What the runtime writes in the method slot starts with this: `.[code:<N>]`.
pub const CODE_MARK: &'static str = ".[code:";

/// What the runtime appends when parcel capture is on starts with this:
/// ` parcel=<captured>/<total>:<hex>`.
pub const PARCEL_MARK: &'static str = " parcel=";

/// The contents of a catalog.
pub type CatalogView = Map<Seq<char>, Map<u32, MethodView>>;

/// The name of a transaction: special ones resolve for any interface, all others by
/// the catalog.
pub open spec fn method_name(c: CatalogView, iface: Seq<char>, code: u32) -> Option<Seq<char>> {
    match special_name(code) {
        Some(name) => Some(name),
        None => catalog_method(c, iface, code),
    }
}

/// The code that stands at `at` with a `]` behind it, and the position behind that.
pub open spec fn code_at(line: Seq<char>, at: int) -> Option<(u32, int)> {
    let end = run_end(line, CharClass::Digit, at);
    if end < line.len() && line[end] == ']' {
        match parse_digits(line.subrange(at, end), u32::MAX as nat) {
            Some(code) => Some((code as u32, end + 1)),
            None => None,
        }
    } else {
        None
    }
}

/// The first position in `from..to` that holds no dot.
pub open spec fn skip_dots(line: Seq<char>, from: int, to: int) -> int
    decreases to - from,
{
    if from < to && line[from] == '.' {
        skip_dots(line, from + 1, to)
    } else {
        from
    }
}

/// Where the interface descriptor that ends before `end` starts.
pub open spec fn iface_start(line: Seq<char>, end: int) -> int {
    skip_dots(line, run_start(line, CharClass::Descriptor, end), end)
}

/// A transaction code in a line whose method is known.
pub struct Token {
    /// The position of the dot before `[code:`.
    pub dot: int,
    /// The position behind the `]`.
    pub end: int,
    pub iface: Seq<char>,
    pub code: u32,
    pub method: Seq<char>,
}

/// The token whose mark stands at `dot`, where its code, its interface and its method
/// can be told.
pub open spec fn token_at(c: CatalogView, line: Seq<char>, dot: int) -> Option<Token> {
    let iface = line.subrange(iface_start(line, dot), dot);
    match code_at(line, dot + CODE_MARK@.len()) {
        Some((code, end)) => match method_name(c, iface, code) {
            Some(method) => if iface.len() > 0 {
                Some(Token { dot, end, iface, code, method })
            } else {
                None
            },
            None => None,
        },
        None => None,
    }
}

/// The tokens of a line from `from` on.
pub open spec fn tokens(c: CatalogView, line: Seq<char>, from: int) -> Seq<Token>
    decreases line.len() - from,
{
    proof {
        lemma_tokens_advance(c, line, from);
    }
    if from < 0 {
        seq![]
    } else {
        match find_from(line, CODE_MARK@, from) {
            Some(dot) => match token_at(c, line, dot) {
                Some(token) => seq![token] + tokens(c, line, token.end),
                None => tokens(c, line, dot + CODE_MARK@.len()),
            },
            None => seq![],
        }
    }
}

/// The scan for tokens moves forward.
pub proof fn lemma_tokens_advance(c: CatalogView, line: Seq<char>, from: int)
    ensures
        CODE_MARK@.len() == 7,
        0 <= from ==> match find_from(line, CODE_MARK@, from) {
            Some(dot) => {
                &&& from <= dot
                &&& dot + 7 <= line.len()
                &&& token_at(c, line, dot) matches Some(t) ==> t.dot == dot && dot + 7 < t.end
                    <= line.len()
            },
            None => true,
        },
{
    reveal_strlit(".[code:");
    if 0 <= from {
        lemma_find_first(line, CODE_MARK@, from);
        match find_from(line, CODE_MARK@, from) {
            Some(dot) => {
                lemma_run_end(line, CharClass::Digit, dot + 7);
            },
            None => {},
        }
    }
}

/// Whether the `k`-th token stands behind the one before it (the first behind `from`),
/// and ends within `limit`.
pub open spec fn placed(toks: Seq<Token>, k: int, from: int, limit: int) -> bool {
    let before = if k > 0 {
        toks[k - 1].end
    } else {
        from
    };
    before <= toks[k].dot && toks[k].dot + 7 < toks[k].end && toks[k].end <= limit
}

/// Tokens stand one behind the other in the line.
pub proof fn lemma_tokens_ordered(c: CatalogView, s: Seq<char>, from: int)
    requires
        0 <= from <= s.len(),
    ensures
        forall|k: int|
            0 <= k < tokens(c, s, from).len() ==> #[trigger] placed(
                tokens(c, s, from),
                k,
                from,
                s.len() as int,
            ),
    decreases s.len() - from,
{
    lemma_tokens_advance(c, s, from);
    let all = tokens(c, s, from);
    match find_from(s, CODE_MARK@, from) {
        Some(dot) => match token_at(c, s, dot) {
            Some(t) => {
                lemma_tokens_ordered(c, s, t.end);
                let rest = tokens(c, s, t.end);
                assert(all =~= seq![t] + rest);
                assert forall|k: int| 0 <= k < all.len() implies #[trigger] placed(
                    all,
                    k,
                    from,
                    s.len() as int,
                ) by {
                    if k > 0 {
                        assert(placed(rest, k - 1, t.end, s.len() as int));
                        assert(all[k] == rest[k - 1]);
                        if k > 1 {
                            assert(all[k - 1] == rest[k - 2]);
                        }
                    }
                }
            },
            None => {
                lemma_tokens_ordered(c, s, dot + 7);
                assert(all == tokens(c, s, dot + 7));
                assert forall|k: int| 0 <= k < all.len() implies #[trigger] placed(
                    all,
                    k,
                    from,
                    s.len() as int,
                ) by {
                    assert(placed(all, k, dot + 7, s.len() as int));
                }
            },
        },
        None => {},
    }
}

/// A captured parcel in a line.
pub struct Captured {
    /// The position of the token, with the space before it.
    pub start: int,
    /// The position behind the token.
    pub end: int,
    pub bytes: Seq<u8>,
}

/// The captured parcel that a line carries.
pub open spec fn captured(line: Seq<char>) -> Option<Captured> {
    match find_from(line, PARCEL_MARK@, 0) {
        Some(start) => match find_from(line, seq![':'], start + PARCEL_MARK@.len()) {
            Some(colon) => {
                let end = run_end(line, CharClass::HexDigit, colon + 1);
                Some(Captured { start, end, bytes: from_hex(line.subrange(colon + 1, end)) })
            },
            None => None,
        },
        None => None,
    }
}

/// The arguments of a token's call, where the catalog knows them and the line's
/// captured parcel gives them.
pub open spec fn call_args(c: CatalogView, p: Option<Captured>, token: Token) -> Option<
    Seq<Glyph>,
> {
    match (p, catalog_args(c, token.iface, token.code)) {
        (Some(parcel), Some(args)) => if args.len() > 0 {
            rendered_args(args, parcel.bytes)
        } else {
            None
        },
        _ => None,
    }
}

/// Whether one of the first `n` tokens has its arguments rendered.
pub open spec fn rendered_within(
    c: CatalogView,
    p: Option<Captured>,
    toks: Seq<Token>,
    n: int,
) -> bool {
    exists|k: int| 0 <= k < n && call_args(c, p, #[trigger] toks[k]) is Some
}

/// The position behind the first `n` tokens.
pub open spec fn end_of(toks: Seq<Token>, n: int) -> int {
    if n > 0 {
        toks[n - 1].end
    } else {
        0
    }
}

/// The position in `from..=to` that lies nearest to `x`.
pub open spec fn nearest(x: int, from: int, to: int) -> int {
    if x < from {
        from
    } else if x > to {
        to
    } else {
        x
    }
}

/// What is kept of the line from `from` to `to`: all of it but the dropped parcel, or as
/// much of that as stands there.
pub open spec fn kept(line: Seq<char>, from: int, to: int, dropped: Option<Captured>) -> Seq<
    char,
> {
    match dropped {
        Some(m) => line.subrange(from, nearest(m.start, from, to)) + line.subrange(
            nearest(m.end, from, to),
            to,
        ),
        None => line.subrange(from, to),
    }
}

/// The parcel that is dropped from a line: the one that arguments are rendered from.
pub open spec fn dropped(c: CatalogView, p: Option<Captured>, toks: Seq<Token>) -> Option<
    Captured,
> {
    if rendered_within(c, p, toks, toks.len() as int) {
        p
    } else {
        None
    }
}

/// The arguments behind the `i`-th method: those of the first call whose arguments are
/// known, and of no other.
pub open spec fn args_behind(
    c: CatalogView,
    p: Option<Captured>,
    toks: Seq<Token>,
    i: int,
) -> Seq<Glyph> {
    match call_args(c, p, toks[i]) {
        Some(args) if !rendered_within(c, p, toks, i) => args,
        _ => seq![],
    }
}

/// The line from the end of the token before the `i`-th to the end of the `i`-th,
/// rewritten: the code gives way to the method and its arguments, and the parcel `drop`
/// is left out.
pub open spec fn rewritten_token(
    c: CatalogView,
    p: Option<Captured>,
    drop: Option<Captured>,
    line: Seq<char>,
    toks: Seq<Token>,
    i: int,
) -> Seq<Glyph> {
    glyphs(kept(line, end_of(toks, i), toks[i].dot, drop)) + glyphs(seq!['.']) + glyphs(
        toks[i].method,
    ) + args_behind(c, p, toks, i)
}

/// The line up to the end of the `n`-th token, rewritten.
pub open spec fn rewritten(
    c: CatalogView,
    p: Option<Captured>,
    drop: Option<Captured>,
    line: Seq<char>,
    toks: Seq<Token>,
    n: int,
) -> Seq<Glyph>
    decreases n,
{
    if n <= 0 {
        seq![]
    } else {
        rewritten(c, p, drop, line, toks, n - 1) + rewritten_token(c, p, drop, line, toks, n - 1)
    }
}

/// What a line is rewritten to; nothing where it holds no token. The parcel that
/// arguments are rendered from is left out wherever it stands.
pub open spec fn decoded(c: CatalogView, line: Seq<char>) -> Option<Seq<Glyph>> {
    let toks = tokens(c, line, 0);
    let n = toks.len() as int;
    let p = captured(line);
    let drop = dropped(c, p, toks);
    if n == 0 {
        None
    } else {
        Some(
            rewritten(c, p, drop, line, toks, n) + glyphs(
                kept(line, end_of(toks, n), line.len() as int, drop),
            ),
        )
    }
}

/// A line as it is shown decoded.
pub open spec fn decoded_text(c: CatalogView, line: Seq<char>) -> Seq<Glyph> {
    match decoded(c, line) {
        Some(text) => text,
        None => glyphs(line),
    }
}

/// A decoded line.
#[derive(Debug)]
pub enum Decoded<'a> {
    /// Nothing was rewritten: the line itself.
    Borrowed(&'a str),
    /// The rewritten line.
    Owned(Rendering),
}

/// A catalog and the logic to resolve and rewrite transaction codes.
pub struct Decoder {
    catalog: Catalog,
}

/// A captured parcel token located in a line: its span and the decoded bytes.
pub struct Parcel {
    pub start: usize,
    pub end: usize,
    pub bytes: Vec<u8>,
}

impl Parcel {
    /// What the parcel token holds.
    pub open spec fn model(&self) -> Captured {
        Captured { start: self.start as int, end: self.end as int, bytes: self.bytes@ }
    }
}

/// Locates and decodes a ` parcel=<captured>/<total>:<hex>` token, if present.
pub fn parse_parcel(line: &[char]) -> (r: Option<Parcel>)
    ensures
        match (r, captured(line@)) {
            (Some(p), Some(m)) => p.model() == m && p.start <= p.end <= line@.len(),
            (None, None) => true,
            _ => false,
        },
{
    let start: usize = match find(line, PARCEL_MARK, 0) {
        Some(i) => i,
        None => {
            return None;
        },
    };
    proof {
        reveal_strlit(" parcel=");
        reveal_strlit(":");
        assert(":"@ =~= seq![':']);
    }
    let colon: usize = match find(line, ":", start + 8) {
        Some(i) => i,
        None => {
            return None;
        },
    };
    let end: usize = scan_end(line, CharClass::HexDigit, colon + 1);
    Some(Parcel { start, end, bytes: hex_bytes(slice_subrange(line, colon + 1, end)) })
}

/// Parses the `N]` that starts at `at`: the code, and the position behind the `]`.
pub fn parse_code(line: &[char], at: usize) -> (r: Option<(u32, usize)>)
    requires
        at <= line@.len(),
    ensures
        match (r, code_at(line@, at as int)) {
            (Some((code, end)), Some(m)) => code == m.0 && end == m.1 && at < end <= line@.len(),
            (None, None) => true,
            _ => false,
        },
{
    let end: usize = scan_end(line, CharClass::Digit, at);
    if end >= line.len() || line[end] != ']' {
        return None;
    }
    match read_digits(slice_subrange(line, at, end), u32::MAX) {
        Some(code) => Some((code, end + 1)),
        None => None,
    }
}

/// Where the interface descriptor that ends before `end` (the dot of `.[code:`) starts:
/// the run of descriptor characters ending there, without the dots at its front.
pub fn iface_before(line: &[char], end: usize) -> (r: usize)
    requires
        end <= line@.len(),
    ensures
        r <= end,
        r == iface_start(line@, end as int),
{
    let mut start: usize = scan_start(line, CharClass::Descriptor, end);
    while start < end && line[start] == '.'
        invariant
            start <= end <= line@.len(),
            iface_start(line@, end as int) == skip_dots(line@, start as int, end as int),
        decreases end - start,
    {
        start += 1;
    }
    start
}

/// A token found in a line.
struct Found<'a> {
    dot: usize,
    end: usize,
    iface: &'a str,
    code: u32,
    method: &'a str,
}

impl<'a> View for Found<'a> {
    type V = Token;

    closed spec fn view(&self) -> Token {
        Token {
            dot: self.dot as int,
            end: self.end as int,
            iface: self.iface@,
            code: self.code,
            method: self.method@,
        }
    }
}

/// What was found in a line.
spec fn found_view(found: Seq<Found>) -> Seq<Token> {
    Seq::new(found.len(), |i: int| found[i]@)
}

/// What an optional parcel token holds.
spec fn captured_by(p: Option<Parcel>) -> Option<Captured> {
    match p {
        Some(p) => Some(p.model()),
        None => None,
    }
}

/// Appends what is kept of the line from `from` to `to`.
fn push_kept(out: &mut Rendering, line: &[char], from: usize, to: usize, drop: &Option<Parcel>)
    requires
        from <= to <= line@.len(),
        *drop matches Some(p) ==> p.start <= p.end,
    ensures
        final(out)@ == old(out)@ + glyphs(
            kept(line@, from as int, to as int, captured_by(*drop)),
        ),
{
    match drop {
        Some(p) => {
            let start: usize = if p.start < from {
                from
            } else if p.start > to {
                to
            } else {
                p.start
            };
            let end: usize = if p.end < from {
                from
            } else if p.end > to {
                to
            } else {
                p.end
            };
            out.push_chars(line, from, start);
            out.push_chars(line, end, to);
            proof {
                lemma_glyphs_concat(
                    line@.subrange(from as int, start as int),
                    line@.subrange(end as int, to as int),
                );
                assert(out@ =~= old(out)@ + glyphs(
                    kept(line@, from as int, to as int, captured_by(*drop)),
                ));
            }
        },
        None => out.push_chars(line, from, to),
    }
}

/// Where the first rendered call is known, an earlier one is not rendered, and a later one
/// has it within.
proof fn lemma_rendered_at(
    c: CatalogView,
    p: Option<Captured>,
    toks: Seq<Token>,
    at: int,
    i: int,
)
    requires
        0 <= i < toks.len(),
        0 <= at <= toks.len(),
        !rendered_within(c, p, toks, at),
        at < toks.len() ==> call_args(c, p, toks[at]) is Some,
    ensures
        i < at ==> call_args(c, p, toks[i]) is None,
        i <= at ==> !rendered_within(c, p, toks, i),
        i > at ==> rendered_within(c, p, toks, i),
{
    if i < at && call_args(c, p, toks[i]) is Some {
        assert(rendered_within(c, p, toks, at));
    }
    if i <= at && rendered_within(c, p, toks, i) {
        let k = choose|k: int| 0 <= k < i && call_args(c, p, #[trigger] toks[k]) is Some;
        assert(call_args(c, p, toks[k]) is Some);
    }
    if i > at {
        assert(call_args(c, p, toks[at]) is Some);
    }
}

impl Decoder {
    /// The contents of the catalog.
    pub closed spec fn contents(&self) -> CatalogView {
        self.catalog@
    }

    /// Builds a decoder from an already-loaded catalog.
    pub fn new(catalog: Catalog) -> (r: Self)
        ensures
            r.contents() == catalog@,
    {
        Self { catalog }
    }

    /// The underlying catalog.
    pub fn catalog(&self) -> (r: &Catalog)
        ensures
            r@ == self.contents(),
    {
        &self.catalog
    }

    /// Resolves an interface and a code to a method name. Well-known special
    /// transactions (`PING`, `DUMP`, ...) resolve for any interface; everything else is
    /// a catalog lookup. Returns `None` for an unknown code.
    pub fn method(&self, iface: &str, code: u32) -> (r: Option<&str>)
        ensures
            match (r, method_name(self.contents(), iface@, code)) {
                (Some(name), Some(v)) => name@ == v,
                (None, None) => true,
                _ => false,
            },
    {
        match special_transaction(code) {
            Some(name) => Some(name),
            None => self.catalog.method(iface, code),
        }
    }

    /// Renders the arguments of the call `code` of `iface` from a captured parcel, where
    /// they can be told.
    fn args_text(&self, iface: &str, code: u32, parcel: &Option<Parcel>) -> (r: Option<Rendering>)
        ensures
            match (*parcel, catalog_args(self.contents(), iface@, code)) {
                (Some(p), Some(args)) if args.len() > 0 => match rendered_args(args, p.bytes@) {
                    Some(text) => r is Some && r->0@ == text,
                    None => r is None,
                },
                _ => r is None,
            },
    {
        match parcel {
            Some(p) => match self.catalog.args(iface, code) {
                Some(args) => {
                    let mut out: Rendering = Rendering::new();
                    if args.len() > 0 && render_args(&mut out, args, &p.bytes) {
                        proof {
                            let text = rendered_args(args_view(args@), p.bytes@)->0;
                            assert(Seq::<Glyph>::empty() + text =~= text);
                        }
                        Some(out)
                    } else {
                        None
                    }
                },
                None => None,
            },
            None => None,
        }
    }

    /// Finds the tokens of a line whose characters are `c`.
    fn find_tokens<'b>(&'b self, line: &'b str, c: &Vec<char>) -> (r: Vec<Found<'b>>)
        requires
            c@ == line@,
        ensures
            found_view(r@) == tokens(self.contents(), line@, 0),
    {
        let ghost cat = self.contents();
        let ghost toks = tokens(cat, line@, 0);
        let mut out: Vec<Found<'b>> = Vec::new();
        let mut search: usize = 0;
        proof {
            lemma_tokens_advance(cat, line@, 0);
            assert(found_view(out@) + toks =~= toks);
        }
        loop
            invariant
                c@ == line@,
                cat == self.contents(),
                toks == tokens(cat, line@, 0),
                found_view(out@) + tokens(cat, line@, search as int) == toks,
                search <= line@.len(),
                CODE_MARK@.len() == 7,
            decreases line@.len() - search,
        {
            proof {
                lemma_tokens_advance(cat, line@, search as int);
            }
            let dot: usize = match find(c, CODE_MARK, search) {
                Some(i) => i,
                None => {
                    assert(found_view(out@) =~= toks);
                    return out;
                },
            };
            let code_start: usize = dot + 7;
            let from: usize = iface_before(c, dot);
            let ghost found = token_at(cat, line@, dot as int);
            let (code, end): (u32, usize) = match parse_code(c, code_start) {
                Some(x) => x,
                None => {
                    assert(found is None);
                    search = code_start;
                    continue;
                },
            };
            if from == dot {
                assert(found is None);
                search = code_start;
                continue;
            }
            let iface: &'b str = line.substring_char(from, dot);
            let method: &'b str = match self.method(iface, code) {
                Some(m) => m,
                None => {
                    assert(found is None);
                    search = code_start;
                    continue;
                },
            };
            let ghost before = out@;
            let token: Found<'b> = Found { dot, end, iface, code, method };
            let ghost view = token@;
            out.push(token);
            search = end;
            proof {
                assert(found == Some(view));
                let rest = tokens(cat, line@, end as int);
                assert(found_view(out@) =~= found_view(before).push(view));
                assert(found_view(out@) + rest =~= found_view(before) + (seq![view] + rest));
            }
        }
    }

    /// The first call whose arguments can be told from the captured parcel, and its
    /// arguments.
    fn first_args(&self, found: &Vec<Found>, parcel: &Option<Parcel>) -> (r: Option<
        (usize, Rendering),
    >)
        ensures
            ({
                let toks = found_view(found@);
                let p = captured_by(*parcel);
                match r {
                    Some((k, text)) => {
                        &&& k < toks.len()
                        &&& call_args(self.contents(), p, toks[k as int]) == Some(text@)
                        &&& !rendered_within(self.contents(), p, toks, k as int)
                    },
                    None => !rendered_within(self.contents(), p, toks, toks.len() as int),
                }
            }),
    {
        let ghost toks = found_view(found@);
        let ghost p = captured_by(*parcel);
        let mut i: usize = 0;
        while i < found.len()
            invariant
                i <= found@.len(),
                toks == found_view(found@),
                p == captured_by(*parcel),
                !rendered_within(self.contents(), p, toks, i as int),
            decreases found@.len() - i,
        {
            assert(toks[i as int] == found@[i as int]@);
            match self.args_text(found[i].iface, found[i].code, parcel) {
                Some(text) => {
                    return Some((i, text));
                },
                None => {},
            }
            assert(call_args(self.contents(), p, toks[i as int]) is None);
            i += 1;
        }
        None
    }

    /// Rewrites every `interface.[code:N]` token in `line` whose method is known,
    /// leaving the rest of the line, and any unknown codes, exactly as they are. When
    /// the line carries a captured parcel (` parcel=<captured>/<total>:<hex>`) and the
    /// resolved method has known argument types, the arguments are rendered after the
    /// method name (`method(a=1, b="x")`) and the raw parcel token is dropped from the
    /// output, wherever it stands.
    ///
    /// Returns [`Decoded::Borrowed`] when nothing changed.
    pub fn decode_line<'a>(&self, line: &'a str) -> (r: Decoded<'a>)
        ensures
            match (r, decoded(self.contents(), line@)) {
                (Decoded::Borrowed(s), None) => s@ == line@,
                (Decoded::Owned(out), Some(text)) => out@ == text,
                _ => false,
            },
    {
        let c: Vec<char> = chars_of(line);
        let ghost cat = self.contents();
        let ghost p = captured(line@);
        let found: Vec<Found> = self.find_tokens(line, &c);
        if found.len() == 0 {
            assert(found_view(found@).len() == 0);
            return Decoded::Borrowed(line);
        }
        let parcel: Option<Parcel> = parse_parcel(&c);
        let ghost toks = found_view(found@);
        assert(captured_by(parcel) == p);
        let first: Option<(usize, Rendering)> = self.first_args(&found, &parcel);
        let (at, args, drop): (usize, Rendering, Option<Parcel>) = match first {
            Some((k, text)) => {
                assert(call_args(cat, p, toks[k as int]) is Some);
                (k, text, parcel)
            },
            None => (found.len(), Rendering::new(), None),
        };
        let ghost left_out = dropped(cat, p, toks);
        assert(captured_by(drop) == left_out);
        let ghost shown = args@;
        let mut args: Option<Rendering> = Some(args);
        let mut out: Rendering = Rendering::new();
        let mut copied: usize = 0;
        let mut i: usize = 0;
        proof {
            lemma_tokens_ordered(cat, line@, 0);
        }
        while i < found.len()
            invariant
                c@ == line@,
                cat == self.contents(),
                p == captured(line@),
                toks == found_view(found@),
                toks == tokens(cat, line@, 0),
                i <= found@.len(),
                copied == end_of(toks, i as int),
                copied <= c@.len(),
                forall|k: int|
                    0 <= k < toks.len() ==> #[trigger] placed(toks, k, 0, line@.len() as int),
                captured_by(drop) == left_out,
                drop matches Some(x) ==> x.start <= x.end,
                at <= found@.len(),
                at < found@.len() ==> call_args(cat, p, toks[at as int]) == Some(shown),
                !rendered_within(cat, p, toks, at as int),
                i <= at ==> args is Some && args->0@ == shown,
                out@ == rewritten(cat, p, left_out, line@, toks, i as int),
            decreases found@.len() - i,
        {
            let ghost before = out@;
            let ghost t = toks[i as int];
            proof {
                assert(placed(toks, i as int, 0, line@.len() as int));
                assert(t == found@[i as int]@);
                lemma_rendered_at(cat, p, toks, at as int, i as int);
            }
            push_kept(&mut out, &c, copied, found[i].dot, &drop);
            out.push('.');
            out.push_str(found[i].method);
            if i == at {
                match args {
                    Some(text) => out.append(text),
                    None => {},
                }
                args = None;
                assert(out@ =~= rewritten(cat, p, left_out, line@, toks, i + 1));
            } else {
                assert(out@ =~= rewritten(cat, p, left_out, line@, toks, i + 1));
            }
            copied = found[i].end;
            i += 1;
        }
        push_kept(&mut out, &c, copied, c.len(), &drop);
        Decoded::Owned(out)
    }
}

} // verus!
