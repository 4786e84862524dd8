//! Binder `Parcel` reader for offline argument decoding.
//!
//! The probe captures raw parcel bytes from offset 0 (the interface-token header plus
//! the marshalled arguments) up to a cap. This reader skips the header, then
//! unmarshals arguments following Binder's rules (little-endian, 4-byte alignment).
//! The payload may be partial, so every read stops at the captured end and the caller
//! marks the tail.
//!
//! Only fixed-layout types are decoded (integers, floats, `String16`). A type whose
//! size the catalog does not tell (binders, arrays, parcelables) ends decoding for
//! that call, because nothing behind it can be located.

use crate::bytes::{as_signed32, as_signed64, le32, le64, read_u32, read_u64, signed32, signed64};
use crate::catalog::{args_view, Arg, ArgView};
use crate::rendering::{glyphs, lemma_glyphs_concat, Glyph, Rendering};
use crate::text::{
    chars_of, lemma_run_end, occurs_at, same_text, scan_end, scan_start, signed_decimal,
    starts_with, string_of, trim, trim_start, CharClass,
};
use crate::utf16::{decode16, push_utf16, read_units, units_le};
use vstd::prelude::*;
use vstd::slice::slice_subrange;

verus! {

/// `'SYST'` (little-endian): the magic that an interface token holds at parcel offset 8.
pub const HEADER_MAGIC: u32 = 0x5359_5354;

/// The longest string argument that is shown whole, in characters.
pub const MAX_SHOWN: usize = 120;

/// `n` rounded up to a multiple of 4, the parcel's alignment unit.
pub open spec fn rounded4(n: int) -> int {
    (n + 3) / 4 * 4
}

/// Rounds `n` up to the next multiple of 4 (the parcel's alignment unit).
pub fn round4(n: u64) -> (r: u64)
    requires
        n + 3 <= u64::MAX,
    ensures
        r == rounded4(n as int),
{
    (n + 3) / 4 * 4
}

/// The bytes that a `String16` of `units` code units takes behind its length: the
/// units and a terminator, padded.
pub open spec fn string16_size(units: int) -> int {
    rounded4((units + 1) * 2)
}

/// The offset of the first argument, where the parcel starts with an interface token.
pub open spec fn args_offset(parcel: Seq<u8>) -> Option<int> {
    if parcel.len() >= 16 && le32(parcel, 8) == HEADER_MAGIC {
        Some(16 + string16_size(le32(parcel, 12) as int))
    } else {
        None
    }
}

/// What a `String16` at `pos` reads as.
pub enum String16 {
    /// The captured bytes end before the length does.
    NoLength,
    /// The captured bytes end before the characters do.
    NoChars,
    /// A null string.
    Null,
    /// The text, and the offset behind the padding.
    Text(Seq<char>, int),
}

/// The `String16` at `pos`.
pub open spec fn string16_at(parcel: Seq<u8>, pos: int) -> String16 {
    if pos + 4 > parcel.len() {
        String16::NoLength
    } else {
        let len = signed32(le32(parcel, pos));
        let end = pos + 4 + string16_size(len);
        if len < 0 {
            String16::Null
        } else if end > parcel.len() {
            String16::NoChars
        } else {
            String16::Text(decode16(units_le(parcel.subrange(pos + 4, pos + 4 + 2 * len))), end)
        }
    }
}

/// A cursor over captured parcel bytes.
pub struct ParcelReader<'a> {
    buf: &'a [u8],
    pos: u64,
    truncated: bool,
}

impl<'a> ParcelReader<'a> {
    /// The captured bytes.
    pub closed spec fn data(&self) -> Seq<u8> {
        self.buf@
    }

    /// The offset of the cursor; it may lie behind the captured bytes.
    pub closed spec fn at(&self) -> int {
        self.pos as int
    }

    /// Whether a read ran off the end of the captured bytes.
    pub closed spec fn cut(&self) -> bool {
        self.truncated
    }

    /// A cursor at the start of `buf`.
    pub fn new(buf: &'a [u8]) -> (r: Self)
        ensures
            r.data() == buf@,
            r.at() == 0,
            !r.cut(),
    {
        Self { buf, pos: 0, truncated: false }
    }

    /// True if any read ran off the end of the captured bytes.
    pub fn truncated(&self) -> (r: bool)
        ensures
            r == self.cut(),
    {
        self.truncated
    }

    /// Positions the cursor at the first argument, just past the interface-token header:
    /// magic at offset 8, UTF-16 length (code units) at 12, descriptor at 16 (padded to
    /// 4, with its terminator). Returns false if the header is no AIDL token: then
    /// there are no decodable arguments.
    pub fn seek_args(&mut self) -> (r: bool)
        ensures
            final(self).data() == old(self).data(),
            final(self).cut() == old(self).cut(),
            match args_offset(old(self).data()) {
                Some(offset) => r && final(self).at() == offset,
                None => !r && final(self).at() == old(self).at(),
            },
    {
        let magic: u32 = match self.peek_u32(8) {
            Some(m) => m,
            None => {
                return false;
            },
        };
        if magic != HEADER_MAGIC {
            return false;
        }
        let units: u32 = match self.peek_u32(12) {
            Some(u) => u,
            None => {
                return false;
            },
        };
        let str_bytes: u64 = round4((units as u64 + 1) * 2);
        self.pos = 16 + str_bytes;
        true
    }

    /// Reads the 32-bit number at offset `off` without moving the cursor.
    pub fn peek_u32(&self, off: usize) -> (r: Option<u32>)
        ensures
            match r {
                Some(n) => off + 4 <= self.data().len() && n == le32(self.data(), off as int),
                None => off + 4 > self.data().len(),
            },
    {
        if off <= self.buf.len() && 4 <= self.buf.len() - off {
            Some(read_u32(self.buf, off))
        } else {
            None
        }
    }

    /// Whether `n` more bytes were captured behind the cursor.
    pub open spec fn has(&self, n: int) -> bool {
        self.at() + n <= self.data().len()
    }

    /// Whether this cursor is `before`, moved on by `n` bytes.
    pub open spec fn moved(&self, before: &Self, n: int) -> bool {
        self.data() == before.data() && self.at() == before.at() + n && self.cut() == before.cut()
    }

    /// Whether this cursor is `before`, moved on by `n` bytes and marked as truncated.
    pub open spec fn ran_off(&self, before: &Self, n: int) -> bool {
        self.data() == before.data() && self.at() == before.at() + n && self.cut()
    }

    /// Consumes `n` bytes at the cursor, or marks truncation and returns `None`.
    pub fn take(&mut self, n: u64) -> (r: Option<&'a [u8]>)
        ensures
            match r {
                Some(s) => {
                    &&& old(self).has(n as int)
                    &&& s@ == old(self).data().subrange(old(self).at(), old(self).at() + n)
                    &&& final(self).moved(old(self), n as int)
                },
                None => !old(self).has(n as int) && final(self).ran_off(old(self), 0),
            },
    {
        let len: u64 = self.buf.len() as u64;
        if self.pos <= len && n <= len - self.pos {
            let end: u64 = self.pos + n;
            let s: &'a [u8] = slice_subrange(self.buf, self.pos as usize, end as usize);
            self.pos = end;
            Some(s)
        } else {
            self.truncated = true;
            None
        }
    }

    /// Reads an `int32`.
    pub fn read_i32(&mut self) -> (r: Option<i32>)
        ensures
            match r {
                Some(n) => {
                    &&& old(self).has(4)
                    &&& n == signed32(le32(old(self).data(), old(self).at()))
                    &&& final(self).moved(old(self), 4)
                },
                None => !old(self).has(4) && final(self).ran_off(old(self), 0),
            },
    {
        match self.read_f32() {
            Some(b) => Some(as_signed32(b)),
            None => None,
        }
    }

    /// Reads an `int64`.
    pub fn read_i64(&mut self) -> (r: Option<i64>)
        ensures
            match r {
                Some(n) => {
                    &&& old(self).has(8)
                    &&& n == signed64(le64(old(self).data(), old(self).at()))
                    &&& final(self).moved(old(self), 8)
                },
                None => !old(self).has(8) && final(self).ran_off(old(self), 0),
            },
    {
        match self.read_f64() {
            Some(b) => Some(as_signed64(b)),
            None => None,
        }
    }

    /// Reads a 32-bit float, as its bit pattern.
    pub fn read_f32(&mut self) -> (r: Option<u32>)
        ensures
            match r {
                Some(n) => {
                    &&& old(self).has(4)
                    &&& n == le32(old(self).data(), old(self).at())
                    &&& final(self).moved(old(self), 4)
                },
                None => !old(self).has(4) && final(self).ran_off(old(self), 0),
            },
    {
        match self.take(4) {
            Some(b) => Some(read_u32(b, 0)),
            None => None,
        }
    }

    /// Reads a 64-bit float, as its bit pattern.
    pub fn read_f64(&mut self) -> (r: Option<u64>)
        ensures
            match r {
                Some(n) => {
                    &&& old(self).has(8)
                    &&& n == le64(old(self).data(), old(self).at())
                    &&& final(self).moved(old(self), 8)
                },
                None => !old(self).has(8) && final(self).ran_off(old(self), 0),
            },
    {
        match self.take(8) {
            Some(b) => Some(read_u64(b, 0)),
            None => None,
        }
    }

    /// Reads a `String16`: an `int32` code-unit count (negative for null), then
    /// `(len + 1) * 2` bytes (characters and terminator) padded to 4. Returns `None` on
    /// truncation, `Some(None)` for null.
    pub fn read_string16(&mut self) -> (r: Option<Option<String>>)
        ensures
            match string16_at(old(self).data(), old(self).at()) {
                String16::NoLength => r is None && final(self).ran_off(old(self), 0),
                String16::NoChars => r is None && final(self).ran_off(old(self), 4),
                String16::Null => r == Some(None::<String>) && final(self).moved(old(self), 4),
                String16::Text(text, end) => {
                    &&& r is Some && r->0 is Some
                    &&& r->0->0@ == text
                    &&& final(self).moved(old(self), end - old(self).at())
                },
            },
    {
        let len: i32 = match self.read_i32() {
            Some(n) => n,
            None => {
                return None;
            },
        };
        if len < 0 {
            return Some(None);
        }
        let padded: u64 = round4((len as u64 + 1) * 2);
        let bytes: &'a [u8] = match self.take(padded) {
            Some(b) => b,
            None => {
                return None;
            },
        };
        let ghost data = old(self).data();
        let ghost at = old(self).at();
        assert(2 * len <= bytes.len());
        let units: Vec<u16> = read_units(slice_subrange(bytes, 0, 2 * (len as usize)));
        proof {
            assert(bytes@.subrange(0, 2 * len) =~= data.subrange(at + 4, at + 4 + 2 * len));
        }
        let mut chars: Vec<char> = Vec::new();
        push_utf16(&mut chars, &units);
        let s: String = string_of(&chars, 0, chars.len());
        proof {
            assert(Seq::<char>::empty() + decode16(units@) =~= decode16(units@));
            assert(chars@.subrange(0, chars@.len() as int) =~= chars@);
        }
        Some(Some(s))
    }
}

/// The characters of a leading decoration of an AIDL type: a direction or an
/// annotation, with the space behind it.
pub open spec fn decoration(t: Seq<char>) -> Seq<char> {
    if occurs_at(t, "in "@, 0) {
        "in "@
    } else if occurs_at(t, "out "@, 0) {
        "out "@
    } else if occurs_at(t, "inout "@, 0) {
        "inout "@
    } else if occurs_at(t, "@nullable "@, 0) {
        "@nullable "@
    } else if occurs_at(t, "@utf8InCpp "@, 0) {
        "@utf8InCpp "@
    } else {
        seq![]
    }
}

/// `t` without its leading decorations.
pub open spec fn undecorated(t: Seq<char>) -> Seq<char>
    decreases t.len(),
{
    let n = decoration(t).len();
    if 0 < n <= t.len() {
        let rest = t.skip(n as int);
        proof {
            lemma_run_end(rest, CharClass::White, 0);
        }
        undecorated(trim_start(rest))
    } else {
        t
    }
}

/// The base type of an AIDL argument type.
pub open spec fn base_type_of(ty: Seq<char>) -> Seq<char> {
    undecorated(trim(ty))
}

/// Strips AIDL argument decorations down to the base type: the direction (`in`, `out`,
/// `inout`) and leading `@nullable` and `@utf8InCpp` annotations.
pub fn base_type(ty: &str) -> (r: &str)
    ensures
        r@ == base_type_of(ty@),
{
    let c: Vec<char> = chars_of(ty);
    let mut from: usize = scan_end(&c, CharClass::White, 0);
    let ghost lead = c@.skip(from as int);
    let rest: &[char] = slice_subrange(c.as_slice(), from, c.len());
    let to: usize = from + scan_start(rest, CharClass::White, rest.len());
    proof {
        reveal_strlit("in ");
        reveal_strlit("out ");
        reveal_strlit("inout ");
        reveal_strlit("@nullable ");
        reveal_strlit("@utf8InCpp ");
        assert(c@.subrange(from as int, c@.len() as int) =~= lead);
        assert(c@.subrange(from as int, to as int) =~= trim(ty@));
    }
    loop
        invariant
            c@ == ty@,
            from <= to <= c@.len(),
            undecorated(c@.subrange(from as int, to as int)) == base_type_of(ty@),
            "in "@.len() == 3,
            "out "@.len() == 4,
            "inout "@.len() == 6,
            "@nullable "@.len() == 10,
            "@utf8InCpp "@.len() == 11,
        decreases to - from,
    {
        let t: &[char] = slice_subrange(c.as_slice(), from, to);
        let n: usize = if starts_with(t, "in ") {
            3
        } else if starts_with(t, "out ") {
            4
        } else if starts_with(t, "inout ") {
            6
        } else if starts_with(t, "@nullable ") {
            10
        } else if starts_with(t, "@utf8InCpp ") {
            11
        } else {
            0
        };
        assert(n == decoration(t@).len());
        if n == 0 {
            return ty.substring_char(from, to);
        }
        let rest: &[char] = slice_subrange(t, n, t.len());
        let white: usize = scan_end(rest, CharClass::White, 0);
        from = from + n + white;
        proof {
            assert(rest@ =~= t@.skip(n as int));
            assert(c@.subrange(from as int, to as int) =~= trim_start(rest@));
        }
    }
}

/// What an argument looks like in a parcel.
#[derive(Clone, Copy, PartialEq, Eq, Structural, Debug)]
pub enum ArgKind {
    Boolean,
    /// A number in 32 bits; `byte`, `char` and `short` are widened to it.
    Integer,
    Long,
    Single,
    Double,
    /// A `String16`.
    Text,
    /// A type without a fixed layout.
    Opaque,
}

/// What an argument of base type `base` looks like in a parcel.
pub open spec fn kind_of(base: Seq<char>) -> ArgKind {
    if base == "boolean"@ {
        ArgKind::Boolean
    } else if base == "int"@ || base == "byte"@ || base == "char"@ || base == "short"@ {
        ArgKind::Integer
    } else if base == "long"@ {
        ArgKind::Long
    } else if base == "float"@ {
        ArgKind::Single
    } else if base == "double"@ {
        ArgKind::Double
    } else if base == "String"@ || base == "CharSequence"@ {
        ArgKind::Text
    } else {
        ArgKind::Opaque
    }
}

/// Tells what an argument of base type `base` looks like in a parcel.
pub fn arg_kind(base: &str) -> (r: ArgKind)
    ensures
        r == kind_of(base@),
{
    if same_text(base, "boolean") {
        ArgKind::Boolean
    } else if same_text(base, "int") || same_text(base, "byte") || same_text(base, "char")
        || same_text(base, "short") {
        ArgKind::Integer
    } else if same_text(base, "long") {
        ArgKind::Long
    } else if same_text(base, "float") {
        ArgKind::Single
    } else if same_text(base, "double") {
        ArgKind::Double
    } else if same_text(base, "String") || same_text(base, "CharSequence") {
        ArgKind::Text
    } else {
        ArgKind::Opaque
    }
}

/// One character of a string argument, as it is shown.
pub open spec fn shown_char(c: char) -> Seq<char> {
    if c == '"' {
        "\\\""@
    } else if c == '\\' {
        "\\\\"@
    } else if c == '\n' {
        "\\n"@
    } else if c == '\r' {
        "\\r"@
    } else if c == '\t' {
        "\\t"@
    } else if (c as u32) < 0x20 {
        seq!['.']
    } else {
        seq![c]
    }
}

/// The characters of a string argument, as they are shown.
pub open spec fn shown_chars(s: Seq<char>) -> Seq<char>
    decreases s.len(),
{
    if s.len() == 0 {
        seq![]
    } else {
        shown_chars(s.drop_last()) + shown_char(s.last())
    }
}

/// A string argument as it is shown: quotes and control characters escaped, and what
/// lies behind the first [`MAX_SHOWN`] characters replaced by an ellipsis.
pub open spec fn shown(s: Seq<char>) -> Seq<char> {
    if s.len() > MAX_SHOWN {
        shown_chars(s.take(MAX_SHOWN as int)) + seq!['\u{2026}']
    } else {
        shown_chars(s)
    }
}

/// Appends `s` with control characters and quotes escaped, and clamps very long
/// strings so that a single argument cannot dominate the line.
pub fn push_escaped(out: &mut Rendering, s: &str)
    ensures
        final(out)@ == old(out)@ + glyphs(shown(s@)),
{
    let c: Vec<char> = chars_of(s);
    let n: usize = if c.len() > MAX_SHOWN {
        MAX_SHOWN
    } else {
        c.len()
    };
    let mut i: usize = 0;
    assert(old(out)@ + glyphs(shown_chars(c@.take(0))) =~= old(out)@);
    while i < n
        invariant
            i <= n <= c@.len(),
            out@ == old(out)@ + glyphs(shown_chars(c@.take(i as int))),
        decreases n - i,
    {
        let ghost before = out@;
        match c[i] {
            '"' => out.push_str("\\\""),
            '\\' => out.push_str("\\\\"),
            '\n' => out.push_str("\\n"),
            '\r' => out.push_str("\\r"),
            '\t' => out.push_str("\\t"),
            x => if (x as u32) < 0x20 {
                out.push('.')
            } else {
                out.push(x)
            },
        }
        proof {
            let done = c@.take(i as int);
            assert(c@.take(i + 1).drop_last() =~= done);
            assert(out@ == before + glyphs(shown_char(c@[i as int])));
            lemma_glyphs_concat(shown_chars(done), shown_char(c@[i as int]));
            assert(out@ =~= old(out)@ + glyphs(shown_chars(c@.take(i + 1))));
        }
        i += 1;
    }
    if c.len() > MAX_SHOWN {
        out.push('\u{2026}');
        proof {
            lemma_glyphs_concat(shown_chars(c@.take(MAX_SHOWN as int)), seq!['\u{2026}']);
            assert(out@ =~= old(out)@ + glyphs(shown(s@)));
        }
    } else {
        assert(c@.take(n as int) =~= c@);
    }
}

/// The value of an argument.
#[derive(Debug)]
pub enum ArgValue {
    Boolean(bool),
    Integer(i32),
    Long(i64),
    /// A 32-bit float, by its bit pattern.
    Single(u32),
    /// A 64-bit float, by its bit pattern.
    Double(u64),
    Text(String),
    /// A null string.
    Null,
}

/// What an [`ArgValue`] says.
pub enum ValueView {
    Boolean(bool),
    Integer(i32),
    Long(i64),
    Single(u32),
    Double(u64),
    Text(Seq<char>),
    Null,
}

impl View for ArgValue {
    type V = ValueView;

    open spec fn view(&self) -> ValueView {
        match *self {
            ArgValue::Boolean(b) => ValueView::Boolean(b),
            ArgValue::Integer(n) => ValueView::Integer(n),
            ArgValue::Long(n) => ValueView::Long(n),
            ArgValue::Single(bits) => ValueView::Single(bits),
            ArgValue::Double(bits) => ValueView::Double(bits),
            ArgValue::Text(s) => ValueView::Text(s@),
            ArgValue::Null => ValueView::Null,
        }
    }
}

/// The argument value at `pos`, and the offset behind it; nothing where the captured
/// bytes end before the value does.
pub open spec fn value_at(kind: ArgKind, parcel: Seq<u8>, pos: int) -> Option<(ValueView, int)> {
    let size: int = if kind == ArgKind::Long || kind == ArgKind::Double {
        8
    } else {
        4
    };
    if pos + size > parcel.len() {
        None
    } else {
        match kind {
            ArgKind::Boolean => Some((ValueView::Boolean(le32(parcel, pos) != 0), pos + 4)),
            ArgKind::Integer => Some(
                (ValueView::Integer(signed32(le32(parcel, pos)) as i32), pos + 4),
            ),
            ArgKind::Long => Some((ValueView::Long(signed64(le64(parcel, pos)) as i64), pos + 8)),
            ArgKind::Single => Some((ValueView::Single(le32(parcel, pos) as u32), pos + 4)),
            ArgKind::Double => Some((ValueView::Double(le64(parcel, pos) as u64), pos + 8)),
            ArgKind::Text => match string16_at(parcel, pos) {
                String16::Text(text, end) => Some((ValueView::Text(text), end)),
                String16::Null => Some((ValueView::Null, pos + 4)),
                _ => None,
            },
            ArgKind::Opaque => None,
        }
    }
}

/// An argument value as it is shown.
pub open spec fn shown_value(v: ValueView) -> Seq<Glyph> {
    match v {
        ValueView::Boolean(b) => if b {
            glyphs("true"@)
        } else {
            glyphs("false"@)
        },
        ValueView::Integer(n) => glyphs(signed_decimal(n as int)),
        ValueView::Long(n) => glyphs(signed_decimal(n as int)),
        ValueView::Single(bits) => seq![Glyph::Single(bits)],
        ValueView::Double(bits) => seq![Glyph::Double(bits)],
        ValueView::Text(s) => glyphs(seq!['"']) + glyphs(shown(s)) + glyphs(seq!['"']),
        ValueView::Null => glyphs("null"@),
    }
}

/// What stands between an argument and the one before it.
pub open spec fn separator(i: int) -> Seq<Glyph> {
    if i > 0 {
        glyphs(", "@)
    } else {
        seq![]
    }
}

/// The rendering of the arguments from the `i`-th on, which starts at `pos`, up to
/// the closing bracket. It ends early at the first argument that has no fixed layout,
/// and where the captured bytes end.
pub open spec fn args_from(args: Seq<ArgView>, i: int, parcel: Seq<u8>, pos: int) -> Seq<Glyph>
    decreases args.len() - i,
{
    if i >= args.len() {
        glyphs(seq![')'])
    } else {
        let base = base_type_of(args[i].ty);
        let label = separator(i) + glyphs(args[i].name) + glyphs(seq!['=']);
        if kind_of(base) == ArgKind::Opaque {
            label + glyphs(seq!['<']) + glyphs(base) + glyphs(seq!['>']) + glyphs(
                ", \u{2026}(unparsed)"@,
            ) + glyphs(seq![')'])
        } else {
            match value_at(kind_of(base), parcel, pos) {
                Some((value, next)) => label + shown_value(value) + args_from(
                    args,
                    i + 1,
                    parcel,
                    next,
                ),
                None => separator(i) + glyphs("\u{2026}(truncated)"@) + glyphs(seq![')']),
            }
        }
    }
}

/// The arguments `args` as the captured `parcel` gives them, in brackets; nothing where
/// the parcel carries no interface token.
pub open spec fn rendered_args(args: Seq<ArgView>, parcel: Seq<u8>) -> Option<Seq<Glyph>> {
    match args_offset(parcel) {
        Some(offset) => Some(glyphs(seq!['(']) + args_from(args, 0, parcel, offset)),
        None => None,
    }
}

impl<'a> ParcelReader<'a> {
    /// Reads the argument value at the cursor; nothing where the captured bytes end
    /// before the value does.
    pub fn read_value(&mut self, kind: ArgKind) -> (r: Option<ArgValue>)
        requires
            kind != ArgKind::Opaque,
        ensures
            final(self).data() == old(self).data(),
            match (r, value_at(kind, old(self).data(), old(self).at())) {
                (Some(v), Some((value, next))) => {
                    &&& v@ == value
                    &&& final(self).moved(old(self), next - old(self).at())
                },
                (None, None) => final(self).cut(),
                _ => false,
            },
    {
        match kind {
            ArgKind::Boolean => match self.read_i32() {
                Some(v) => Some(ArgValue::Boolean(v != 0)),
                None => None,
            },
            ArgKind::Integer => match self.read_i32() {
                Some(v) => Some(ArgValue::Integer(v)),
                None => None,
            },
            ArgKind::Long => match self.read_i64() {
                Some(v) => Some(ArgValue::Long(v)),
                None => None,
            },
            ArgKind::Single => match self.read_f32() {
                Some(bits) => Some(ArgValue::Single(bits)),
                None => None,
            },
            ArgKind::Double => match self.read_f64() {
                Some(bits) => Some(ArgValue::Double(bits)),
                None => None,
            },
            ArgKind::Text => match self.read_string16() {
                Some(Some(s)) => Some(ArgValue::Text(s)),
                Some(None) => Some(ArgValue::Null),
                None => None,
            },
            ArgKind::Opaque => None,
        }
    }
}

/// Appends an argument value as it is shown.
pub fn push_value(out: &mut Rendering, v: &ArgValue)
    ensures
        final(out)@ == old(out)@ + shown_value(v@),
{
    match v {
        ArgValue::Boolean(b) => if *b {
            out.push_str("true")
        } else {
            out.push_str("false")
        },
        ArgValue::Integer(n) => out.push_number(*n as i64),
        ArgValue::Long(n) => out.push_number(*n),
        ArgValue::Single(bits) => out.push_single(*bits),
        ArgValue::Double(bits) => out.push_double(*bits),
        ArgValue::Text(s) => {
            out.push('"');
            push_escaped(out, s);
            out.push('"');
            assert(out@ =~= old(out)@ + shown_value(v@));
        },
        ArgValue::Null => out.push_str("null"),
    }
}

/// Renders the `i`-th argument, whose value stands at the cursor. Returns whether the next
/// one can follow; else the rendering is complete, with its note and closing bracket.
fn render_arg(out: &mut Rendering, r: &mut ParcelReader, arg: &Arg, i: usize) -> (more: bool)
    ensures
        final(r).data() == old(r).data(),
        ({
            let base = base_type_of(arg.ty@);
            let label = separator(i as int) + glyphs(arg.name@) + glyphs(seq!['=']);
            let value = value_at(kind_of(base), old(r).data(), old(r).at());
            if kind_of(base) == ArgKind::Opaque {
                &&& !more
                &&& final(out)@ == old(out)@ + (label + glyphs(seq!['<']) + glyphs(base) + glyphs(
                    seq!['>'],
                ) + glyphs(", \u{2026}(unparsed)"@) + glyphs(seq![')']))
            } else {
                match value {
                    Some((v, next)) => {
                        &&& more
                        &&& final(out)@ == old(out)@ + (label + shown_value(v))
                        &&& final(r).at() == next
                    },
                    None => {
                        &&& !more
                        &&& final(out)@ == old(out)@ + (separator(i as int) + glyphs(
                            "\u{2026}(truncated)"@,
                        ) + glyphs(seq![')']))
                    },
                }
            }
        }),
{
    let base: &str = base_type(&arg.ty);
    let kind: ArgKind = arg_kind(base);
    let value: Option<ArgValue> = if kind == ArgKind::Opaque {
        None
    } else {
        r.read_value(kind)
    };
    if i > 0 {
        out.push_str(", ");
    }
    assert(out@ =~= old(out)@ + separator(i as int));
    if kind != ArgKind::Opaque && value.is_none() {
        out.push_str("\u{2026}(truncated)");
        out.push(')');
        assert(out@ =~= old(out)@ + (separator(i as int) + glyphs("\u{2026}(truncated)"@)
            + glyphs(seq![')'])));
        return false;
    }
    out.push_str(&arg.name);
    out.push('=');
    let ghost label = separator(i as int) + glyphs(arg.name@) + glyphs(seq!['=']);
    assert(out@ =~= old(out)@ + label);
    match value {
        Some(v) => {
            push_value(out, &v);
            assert(out@ =~= old(out)@ + (label + shown_value(v@)));
            true
        },
        None => {
            out.push('<');
            out.push_str(base);
            out.push('>');
            out.push_str(", \u{2026}(unparsed)");
            out.push(')');
            assert(out@ =~= old(out)@ + (label + glyphs(seq!['<']) + glyphs(base@) + glyphs(
                seq!['>'],
            ) + glyphs(", \u{2026}(unparsed)"@) + glyphs(seq![')'])));
            false
        },
    }
}

/// Renders the arguments of one call from its captured parcel bytes into `(a=1, b="x")`
/// form, appended to `out`. Decoding stops early, with a trailing note, at the first
/// argument whose type has no fixed wire layout (binder, array, parcelable) or where
/// the captured payload runs out; either way the rest cannot be unmarshalled.
///
/// `parcel` is the raw bytes from offset 0. Returns `false` (leaving `out` unchanged) if
/// the payload carries no interface token, so the caller can fall back to the raw form.
pub fn render_args(out: &mut Rendering, args: &[Arg], parcel: &[u8]) -> (ok: bool)
    ensures
        match rendered_args(args_view(args@), parcel@) {
            Some(text) => ok && final(out)@ == old(out)@ + text,
            None => !ok && final(out)@ == old(out)@,
        },
{
    let mut r: ParcelReader = ParcelReader::new(parcel);
    if !r.seek_args() {
        return false;
    }
    let ghost views = args_view(args@);
    let ghost goal = old(out)@ + rendered_args(views, parcel@)->0;
    out.push('(');
    assert(out@ + args_from(views, 0, parcel@, r.at()) =~= goal);
    let mut i: usize = 0;
    while i < args.len()
        invariant
            i <= args@.len(),
            r.data() == parcel@,
            views == args_view(args@),
            out@ + args_from(views, i as int, parcel@, r.at()) == goal,
            goal == old(out)@ + rendered_args(views, parcel@)->0,
            rendered_args(views, parcel@) is Some,
        decreases args@.len() - i,
    {
        let ghost before = out@;
        assert(views[i as int] == args@[i as int]@);
        if !render_arg(out, &mut r, &args[i], i) {
            return true;
        }
        assert(out@ + args_from(views, i + 1, parcel@, r.at()) =~= goal);
        i += 1;
    }
    out.push(')');
    true
}

/// The rendering of the arguments from the `i`-th up to the `k`-th, where all of them are
/// there.
pub open spec fn args_between(
    args: Seq<ArgView>,
    i: int,
    k: int,
    parcel: Seq<u8>,
    pos: int,
) -> Seq<Glyph>
    decreases k - i,
{
    if i >= k {
        seq![]
    } else {
        match value_at(kind_of(base_type_of(args[i].ty)), parcel, pos) {
            Some((value, next)) => separator(i) + glyphs(args[i].name) + glyphs(seq!['='])
                + shown_value(value) + args_between(args, i + 1, k, parcel, next),
            None => seq![],
        }
    }
}

/// What is read from a part of a parcel is what is read from the whole.
proof fn lemma_value_of_part(kind: ArgKind, parcel: Seq<u8>, n: int, pos: int)
    requires
        0 <= n <= parcel.len(),
        0 <= pos,
        value_at(kind, parcel.take(n), pos) is Some,
    ensures
        value_at(kind, parcel.take(n), pos) == value_at(kind, parcel, pos),
        match value_at(kind, parcel.take(n), pos) {
            Some((_, next)) => pos <= next,
            None => true,
        },
{
    let part = parcel.take(n);
    let size: int = if kind == ArgKind::Long || kind == ArgKind::Double {
        8
    } else {
        4
    };
    assert(pos + size <= n);
    assert forall|j: int| pos <= j < pos + size implies part[j] == parcel[j] by {}
    assert(le32(part, pos) == le32(parcel, pos));
    if size == 8 {
        assert(le64(part, pos) == le64(parcel, pos));
    }
    if kind == ArgKind::Text {
        let len = signed32(le32(parcel, pos));
        if len >= 0 {
            assert(part.subrange(pos + 4, pos + 4 + 2 * len) =~= parcel.subrange(
                pos + 4,
                pos + 4 + 2 * len,
            ));
        }
    }
}

/// A capture that ends early is honest: from the first `n` bytes of a parcel either the
/// same is rendered as from the whole, or the arguments up to some `k`-th just as the
/// whole has them, and then the mark of truncation.
pub proof fn law_truncation_is_marked(
    args: Seq<ArgView>,
    i: int,
    parcel: Seq<u8>,
    n: int,
    pos: int,
) -> (k: int)
    requires
        0 <= i <= args.len(),
        0 <= n <= parcel.len(),
        0 <= pos,
    ensures
        i <= k <= args.len(),
        if k == args.len() {
            args_from(args, i, parcel.take(n), pos) == args_from(args, i, parcel, pos)
        } else {
            args_from(args, i, parcel.take(n), pos) == args_between(args, i, k, parcel, pos)
                + separator(k) + glyphs("\u{2026}(truncated)"@) + glyphs(seq![')'])
        },
    decreases args.len() - i,
{
    let part = parcel.take(n);
    let kind = kind_of(base_type_of(args[i].ty));
    if i == args.len() || kind == ArgKind::Opaque {
        args.len() as int
    } else {
        match value_at(kind, part, pos) {
            None => {
                assert(args_between(args, i, i, parcel, pos) =~= Seq::<Glyph>::empty());
                assert(args_from(args, i, part, pos) =~= args_between(args, i, i, parcel, pos)
                    + separator(i) + glyphs("\u{2026}(truncated)"@) + glyphs(seq![')']));
                i
            },
            Some((value, next)) => {
                lemma_value_of_part(kind, parcel, n, pos);
                let k = law_truncation_is_marked(args, i + 1, parcel, n, next);
                if k < args.len() {
                    assert(args_from(args, i, part, pos) =~= args_between(args, i, k, parcel, pos)
                        + separator(k) + glyphs("\u{2026}(truncated)"@) + glyphs(seq![')']));
                }
                k
            },
        }
    }
}

} // verus!
