//! Laws of rendered calls: how the decoder shows the arguments that were written.

use crate::bytes::{le32, le64, lemma_le32_read, lemma_le_bounds, signed32, signed64, to_le32};
use crate::catalog::{args_view, Arg, ArgView};
use crate::json::{json_char, json_read, json_text, law_json_round_trip};
use crate::marshal::{
    fits, interface_token, law_token_is_skipped, law_value_round_trip, marshalled, marshalled_from,
    marshalled_text,
};
use crate::parcel::{
    arg_kind, args_from, base_type, base_type_of, decoration, kind_of, push_value, render_args,
    rendered_args, separator, shown_char, shown_chars, shown_value, value_at, ArgKind, ArgValue,
    ParcelReader, ValueView,
};
use crate::rendering::{glyphs, Glyph, Rendering};
use crate::text::{
    is_white, law_numbers_are_told_apart, lemma_run_end_is, lemma_trim_keeps, occurs_at,
    signed_decimal, trim_start, CharClass,
};
use crate::text_laws::law_white_space_around_is_trimmed;
use crate::utf16::{bytes_le, encode16};
use vstd::prelude::*;

verus! {

/// A text in which each control character that has no escape of its own is a dot.
pub open spec fn dotted(s: Seq<char>) -> Seq<char> {
    Seq::new(s.len(), |i: int| dot_for(s[i]))
}

/// A dot for a control character that has no escape of its own.
pub open spec fn dot_for(c: char) -> char {
    if (c as u32) < 0x20 && c != '\n' && c != '\r' && c != '\t' {
        '.'
    } else {
        c
    }
}

proof fn lemma_shown_is_escaped(s: Seq<char>)
    ensures
        shown_chars(s) == json_text(dotted(s)),
    decreases s.len(),
{
    if s.len() > 0 {
        lemma_shown_is_escaped(s.drop_last());
        assert(dotted(s).drop_last() =~= dotted(s.drop_last()));
        let c = s.last();
        assert(dotted(s).last() == dot_for(c));
        assert('.' as u32 == 0x2e);
        assert(shown_char(c) == json_char(dot_for(c)));
    } else {
        assert(dotted(s) =~= s);
    }
}

/// A string argument stands between quotes, and reading its escapes gives it back, but for
/// a dot in place of each other control character: no quote and no line break in it is ever
/// shown bare. Of one longer than the limit the first characters are shown so, with an
/// ellipsis behind them.
pub proof fn law_text_is_shown(s: Seq<char>) -> (inner: Seq<char>)
    ensures
        json_read(inner) == Some(
            dotted(
                if s.len() <= 120 {
                    s
                } else {
                    s.take(120)
                },
            ),
        ),
        shown_value(ValueView::Text(s)) == glyphs(seq!['"']) + glyphs(
            if s.len() <= 120 {
                inner
            } else {
                inner + seq!['\u{2026}']
            },
        ) + glyphs(seq!['"']),
{
    let t = if s.len() <= 120 {
        s
    } else {
        s.take(120)
    };
    lemma_shown_is_escaped(t);
    law_json_round_trip(dotted(t));
    shown_chars(t)
}

/// A number is shown in decimal, as itself: every digit of it, whether it takes 32 bits or
/// 64. A truth value is shown as its word, a null string as `null`, and a float by all its
/// bits.
pub proof fn law_plain_values_are_shown(n: i32, m: i64, single: u32, double: u64)
    ensures
        shown_value(ValueView::Integer(n)) == glyphs(signed_decimal(n as int)),
        shown_value(ValueView::Long(m)) == glyphs(signed_decimal(m as int)),
        shown_value(ValueView::Boolean(true)) == glyphs("true"@),
        shown_value(ValueView::Boolean(false)) == glyphs("false"@),
        shown_value(ValueView::Null) == glyphs("null"@),
        shown_value(ValueView::Single(single)) == seq![Glyph::Single(single)],
        shown_value(ValueView::Double(double)) == seq![Glyph::Double(double)],
{
}

/// What is appended for a value is the value as it is shown: a number in the decimal digits
/// that stand for it, and so on.
pub proof fn law_values_are_appended(out: &mut Rendering, v: &ArgValue)
    requires
        call_ensures(push_value, (out, v), ()),
    ensures
        final(out)@ == old(out)@ + shown_value(v@),
        *v matches ArgValue::Integer(n) ==> final(out)@ == old(out)@ + glyphs(
            signed_decimal(n as int),
        ),
        *v matches ArgValue::Long(n) ==> final(out)@ == old(out)@ + glyphs(
            signed_decimal(n as int),
        ),
        *v matches ArgValue::Boolean(b) ==> final(out)@ == old(out)@ + glyphs(
            if b {
                "true"@
            } else {
                "false"@
            },
        ),
{
}

/// Two different numbers are never shown alike.
pub proof fn law_shown_numbers_differ(a: i64, b: i64, c: i32, d: i32)
    ensures
        a != b ==> shown_value(ValueView::Long(a)) != shown_value(ValueView::Long(b)),
        c != d ==> shown_value(ValueView::Integer(c)) != shown_value(ValueView::Integer(d)),
{
    law_numbers_are_told_apart(a as int, b as int);
    law_numbers_are_told_apart(c as int, d as int);
    lemma_glyphs_differ(signed_decimal(a as int), signed_decimal(b as int));
    lemma_glyphs_differ(signed_decimal(c as int), signed_decimal(d as int));
}

proof fn lemma_glyphs_differ(a: Seq<char>, b: Seq<char>)
    ensures
        glyphs(a) == glyphs(b) ==> a == b,
{
    if glyphs(a) == glyphs(b) {
        assert(a.len() == glyphs(a).len() && b.len() == glyphs(b).len());
        assert forall|i: int| 0 <= i < a.len() implies a[i] == b[i] by {
            assert(glyphs(a)[i] == Glyph::Char(a[i]));
            assert(glyphs(b)[i] == Glyph::Char(b[i]));
        }
        assert(a =~= b);
    }
}

/// The first `n` arguments with the values given: `name=value`, with a comma and a space
/// before all but the first.
pub open spec fn shown_first(args: Seq<ArgView>, values: Seq<ValueView>, n: int) -> Seq<Glyph>
    decreases n,
{
    if n <= 0 {
        seq![]
    } else {
        shown_first(args, values, n - 1) + (if n > 1 {
            glyphs(", "@)
        } else {
            seq![]
        }) + glyphs(args[n - 1].name) + glyphs(seq!['=']) + shown_value(values[n - 1])
    }
}

/// Whether the first arguments can have these values.
pub open spec fn suit(args: Seq<ArgView>, values: Seq<ValueView>) -> bool {
    &&& values.len() <= args.len()
    &&& forall|k: int|
        0 <= k < values.len() ==> fits(kind_of(base_type_of(args[k].ty)), #[trigger] values[k])
}

/// The arguments whose values were written are shown, and reading goes on behind them.
proof fn lemma_args_until(
    args: Seq<ArgView>,
    values: Seq<ValueView>,
    i: int,
    parcel: Seq<u8>,
    pos: int,
)
    requires
        suit(args, values),
        0 <= i <= values.len(),
        0 <= pos,
        pos + marshalled_from(values, i).len() <= parcel.len(),
        parcel.subrange(pos, pos + marshalled_from(values, i).len()) == marshalled_from(values, i),
    ensures
        shown_first(args, values, i) + args_from(args, i, parcel, pos) == shown_first(
            args,
            values,
            values.len() as int,
        ) + args_from(
            args,
            values.len() as int,
            parcel,
            pos + marshalled_from(values, i).len(),
        ),
    decreases values.len() - i,
{
    if i < values.len() {
        let m = marshalled(values[i]);
        let rest = marshalled_from(values, i + 1);
        let all = marshalled_from(values, i);
        let kind = kind_of(base_type_of(args[i].ty));
        assert(fits(kind, values[i]));
        assert(parcel.subrange(pos, pos + m.len()) =~= all.subrange(0, m.len() as int));
        assert(all.subrange(0, m.len() as int) =~= m);
        law_value_round_trip(kind, values[i], parcel, pos);
        let next = pos + m.len();
        assert(parcel.subrange(next, next + rest.len()) =~= all.subrange(
            m.len() as int,
            all.len() as int,
        ));
        assert(all.subrange(m.len() as int, all.len() as int) =~= rest);
        lemma_args_until(args, values, i + 1, parcel, next);
        lemma_step(
            shown_first(args, values, i),
            separator(i),
            glyphs(args[i].name),
            glyphs(seq!['=']),
            shown_value(values[i]),
            args_from(args, i + 1, parcel, next),
        );
    }
}

proof fn lemma_step(
    done: Seq<Glyph>,
    sep: Seq<Glyph>,
    name: Seq<Glyph>,
    eq: Seq<Glyph>,
    value: Seq<Glyph>,
    rest: Seq<Glyph>,
)
    ensures
        done + (sep + name + eq + value + rest) == (done + sep + name + eq + value) + rest,
{
    assert(done + (sep + name + eq + value + rest) =~= (done + sep + name + eq + value) + rest);
}

/// What the arguments from the first on are shown as, behind an interface token and the
/// values of the first few.
pub proof fn lemma_rendered_until(
    args: Seq<ArgView>,
    values: Seq<ValueView>,
    policy: u32,
    source: u32,
    descriptor: Seq<char>,
    rest: Seq<u8>,
) -> (pos: int)
    requires
        suit(args, values),
        encode16(descriptor).len() <= u32::MAX,
    ensures
        ({
            let parcel = interface_token(policy, source, descriptor) + marshalled_from(values, 0)
                + rest;
            &&& pos == parcel.len() - rest.len()
            &&& rendered_args(args, parcel) == Some(
                glyphs(seq!['(']) + (shown_first(args, values, values.len() as int) + args_from(
                    args,
                    values.len() as int,
                    parcel,
                    pos,
                )),
            )
        }),
{
    let token = interface_token(policy, source, descriptor);
    let body = marshalled_from(values, 0);
    let parcel = token + body + rest;
    assert(parcel =~= token + (body + rest));
    law_token_is_skipped(policy, source, descriptor, body + rest);
    let pos = token.len() as int;
    assert(parcel.subrange(pos, pos + body.len()) =~= body);
    lemma_args_until(args, values, 0, parcel, pos);
    let from = args_from(args, 0, parcel, pos);
    assert(shown_first(args, values, 0) + from =~= from);
    pos + body.len()
}

/// A call that was captured whole is rendered with every value that was written, in order
/// and under the argument's name, in brackets, whatever follows in the parcel.
pub proof fn law_call_is_rendered(
    out: &mut Rendering,
    args: &[Arg],
    values: Seq<ValueView>,
    policy: u32,
    source: u32,
    descriptor: Seq<char>,
    rest: Seq<u8>,
    parcel: &[u8],
    ok: bool,
)
    requires
        encode16(descriptor).len() <= u32::MAX,
        values.len() == args@.len(),
        suit(args_view(args@), values),
        parcel@ == interface_token(policy, source, descriptor) + marshalled_from(values, 0) + rest,
        call_ensures(render_args, (out, args, parcel), ok),
    ensures
        ok,
        final(out)@ == old(out)@ + (glyphs(seq!['(']) + (shown_first(
            args_view(args@),
            values,
            values.len() as int,
        ) + glyphs(seq![')']))),
{
    let pos = lemma_rendered_until(args_view(args@), values, policy, source, descriptor, rest);
}

/// An argument without a fixed layout ends the rendering: those before it are shown, it is
/// named with its type, and the rest is marked as unparsed.
pub proof fn law_opaque_argument_ends_the_call(
    out: &mut Rendering,
    args: &[Arg],
    values: Seq<ValueView>,
    policy: u32,
    source: u32,
    descriptor: Seq<char>,
    rest: Seq<u8>,
    parcel: &[u8],
    ok: bool,
)
    requires
        encode16(descriptor).len() <= u32::MAX,
        values.len() < args@.len(),
        suit(args_view(args@), values),
        kind_of(base_type_of(args@[values.len() as int].ty@)) == ArgKind::Opaque,
        parcel@ == interface_token(policy, source, descriptor) + marshalled_from(values, 0) + rest,
        call_ensures(render_args, (out, args, parcel), ok),
    ensures
        ok,
        ({
            let k = values.len() as int;
            final(out)@ == old(out)@ + (glyphs(seq!['(']) + (shown_first(
                args_view(args@),
                values,
                k,
            ) + ((if k > 0 {
                glyphs(", "@)
            } else {
                seq![]
            }) + glyphs(args@[k].name@) + glyphs(seq!['=']) + glyphs(seq!['<']) + glyphs(
                base_type_of(args@[k].ty@),
            ) + glyphs(seq!['>']) + glyphs(", \u{2026}(unparsed)"@) + glyphs(seq![')']))))
        }),
{
    let k = values.len() as int;
    let pos = lemma_rendered_until(args_view(args@), values, policy, source, descriptor, rest);
    assert(args_view(args@)[k] == args@[k]@);
}

/// A value of which the end is missing is not read.
proof fn lemma_cut_value(kind: ArgKind, v: ValueView, parcel: Seq<u8>, pos: int)
    requires
        0 <= pos <= parcel.len(),
        fits(kind, v),
        parcel.len() - pos < marshalled(v).len(),
        parcel.skip(pos) == marshalled(v).take(parcel.len() - pos),
    ensures
        value_at(kind, parcel, pos) is None,
{
    if v is Text {
        let s = v->Text_0;
        let units = encode16(s);
        let m = marshalled(v);
        if pos + 4 <= parcel.len() {
            assert(parcel.subrange(pos, pos + 4) =~= parcel.skip(pos).subrange(0, 4));
            assert(m.take(parcel.len() - pos).subrange(0, 4) =~= m.subrange(0, 4));
            assert(m.subrange(0, 4) =~= to_le32(units.len()));
            lemma_le32_read(parcel, pos, units.len());
        }
    }
}

/// A capture that ends within a value shows the values before it, and then says that it was
/// truncated.
pub proof fn law_cut_call_says_so(
    out: &mut Rendering,
    args: &[Arg],
    values: Seq<ValueView>,
    next: ValueView,
    n: int,
    policy: u32,
    source: u32,
    descriptor: Seq<char>,
    parcel: &[u8],
    ok: bool,
)
    requires
        encode16(descriptor).len() <= u32::MAX,
        values.len() < args@.len(),
        suit(args_view(args@), values),
        fits(kind_of(base_type_of(args@[values.len() as int].ty@)), next),
        0 <= n < marshalled(next).len(),
        parcel@ == interface_token(policy, source, descriptor) + marshalled_from(values, 0)
            + marshalled(next).take(n),
        call_ensures(render_args, (out, args, parcel), ok),
    ensures
        ok,
        ({
            let k = values.len() as int;
            final(out)@ == old(out)@ + (glyphs(seq!['(']) + (shown_first(
                args_view(args@),
                values,
                k,
            ) + ((if k > 0 {
                glyphs(", "@)
            } else {
                seq![]
            }) + glyphs("\u{2026}(truncated)"@) + glyphs(seq![')']))))
        }),
{
    let k = values.len() as int;
    let rest = marshalled(next).take(n);
    let pos = lemma_rendered_until(args_view(args@), values, policy, source, descriptor, rest);
    assert(args_view(args@)[k] == args@[k]@);
    let kind = kind_of(base_type_of(args@[k].ty@));
    assert(parcel@.skip(pos) =~= rest);
    lemma_cut_value(kind, next, parcel@, pos);
}

/// The types with a fixed layout, and what each is read as; no other type has one.
pub proof fn law_types_have_layouts(base: &str, r: ArgKind)
    requires
        call_ensures(arg_kind, (base,), r),
    ensures
        base@ == "boolean"@ ==> r == ArgKind::Boolean,
        base@ == "byte"@ ==> r == ArgKind::Integer,
        base@ == "char"@ ==> r == ArgKind::Integer,
        base@ == "short"@ ==> r == ArgKind::Integer,
        base@ == "int"@ ==> r == ArgKind::Integer,
        base@ == "long"@ ==> r == ArgKind::Long,
        base@ == "float"@ ==> r == ArgKind::Single,
        base@ == "double"@ ==> r == ArgKind::Double,
        base@ == "String"@ ==> r == ArgKind::Text,
        base@ == "CharSequence"@ ==> r == ArgKind::Text,
        r != ArgKind::Opaque ==> {
            ||| base@ == "boolean"@ || base@ == "byte"@ || base@ == "char"@ || base@ == "short"@
            ||| base@ == "int"@ || base@ == "long"@ || base@ == "float"@ || base@ == "double"@
            ||| base@ == "String"@ || base@ == "CharSequence"@
        },
{
    reveal_strlit("boolean");
    reveal_strlit("byte");
    reveal_strlit("char");
    reveal_strlit("short");
    reveal_strlit("int");
    reveal_strlit("long");
    reveal_strlit("float");
    reveal_strlit("double");
    reveal_strlit("String");
    reveal_strlit("CharSequence");
    assert("boolean"@[0] == 'b' && "byte"@[0] == 'b' && "char"@[0] == 'c' && "short"@[0] == 's');
    assert("int"@[0] == 'i' && "long"@[0] == 'l' && "float"@[0] == 'f' && "double"@[0] == 'd');
    assert("String"@[0] == 'S' && "CharSequence"@[0] == 'C');
    assert("boolean"@[1] == 'o' && "byte"@[1] == 'y');
}

/// A direction or an annotation before a type does not matter, nor does white space around
/// or behind it; the type goes by what it is without.
pub proof fn law_decorations_are_stripped(
    ty: &str,
    plain: &str,
    before: Seq<char>,
    mark: Seq<char>,
    blanks: Seq<char>,
    after: Seq<char>,
    r: &str,
    bare: &str,
)
    requires
        forall|i: int| 0 <= i < before.len() ==> is_white(#[trigger] before[i]),
        forall|i: int| 0 <= i < blanks.len() ==> is_white(#[trigger] blanks[i]),
        forall|i: int| 0 <= i < after.len() ==> is_white(#[trigger] after[i]),
        mark == "in "@ || mark == "out "@ || mark == "inout "@ || mark == "@nullable "@ || mark
            == "@utf8InCpp "@,
        plain@.len() > 0,
        !is_white(plain@[0]),
        !is_white(plain@.last()),
        ty@ == before + (mark + (blanks + plain@)) + after,
        call_ensures(base_type, (ty,), r),
        call_ensures(base_type, (plain,), bare),
    ensures
        r@ == bare@,
{
    reveal_strlit("in ");
    reveal_strlit("out ");
    reveal_strlit("inout ");
    reveal_strlit("@nullable ");
    reveal_strlit("@utf8InCpp ");
    let t = mark + (blanks + plain@);
    assert(!is_white(mark[0]));
    assert(t[0] == mark[0] && t.last() == plain@.last());
    law_white_space_around_is_trimmed(before, t, after);
    lemma_trim_keeps(plain@);
    assert(t.subrange(0, mark.len() as int) =~= mark);
    assert(occurs_at(t, mark, 0));
    assert forall|i: int| 0 <= i < mark.len() implies t[i] == mark[i] by {}
    assert(decoration(t) == mark) by {
        if occurs_at(t, "in "@, 0) {
            assert(t.subrange(0, 3)[2] == ' ' && t.subrange(0, 3)[0] == 'i');
        }
        if occurs_at(t, "out "@, 0) {
            assert(t.subrange(0, 4)[0] == 'o');
        }
        if occurs_at(t, "inout "@, 0) {
            assert(t.subrange(0, 6)[2] == 'o' && t.subrange(0, 6)[0] == 'i');
        }
        if occurs_at(t, "@nullable "@, 0) {
            assert(t.subrange(0, 10)[1] == 'n' && t.subrange(0, 10)[0] == '@');
        }
        if occurs_at(t, "@utf8InCpp "@, 0) {
            assert(t.subrange(0, 11)[1] == 'u' && t.subrange(0, 11)[0] == '@');
        }
    }
    let rest = blanks + plain@;
    assert(t.skip(mark.len() as int) =~= rest);
    assert forall|j: int| 0 <= j < blanks.len() implies CharClass::White.holds(rest[j]) by {
        assert(rest[j] == blanks[j]);
    }
    assert(rest[blanks.len() as int] == plain@[0]);
    lemma_run_end_is(rest, CharClass::White, 0, blanks.len() as int);
    assert(trim_start(rest) =~= plain@);
}

/// A type without a decoration is its own base type.
pub proof fn law_plain_type_is_kept(ty: &str, r: &str)
    requires
        ty@.len() > 0,
        !is_white(ty@[0]),
        !is_white(ty@.last()),
        !occurs_at(ty@, "in "@, 0),
        !occurs_at(ty@, "out "@, 0),
        !occurs_at(ty@, "inout "@, 0),
        !occurs_at(ty@, "@nullable "@, 0),
        !occurs_at(ty@, "@utf8InCpp "@, 0),
        call_ensures(base_type, (ty,), r),
    ensures
        r@ == ty@,
{
    lemma_trim_keeps(ty@);
}

/// A parcel that does not start with an interface token gives no arguments, and nothing is
/// written for it.
pub proof fn law_parcel_without_a_token_is_refused(
    out: &mut Rendering,
    args: &[Arg],
    parcel: &[u8],
    ok: bool,
)
    requires
        call_ensures(render_args, (out, args, parcel), ok),
    ensures
        ok <==> parcel@.len() >= 16 && le32(parcel@, 8) == 0x5359_5354,
        !ok ==> final(out)@ == old(out)@,
{
}

/// Any number but 0 reads as true, and any string whose length is negative as null.
pub proof fn law_loose_values_are_read(
    r: &mut ParcelReader,
    kind: ArgKind,
    v: Option<ArgValue>,
)
    requires
        call_ensures(ParcelReader::read_value, (r, kind), v),
        old(r).at() + 4 <= old(r).data().len(),
    ensures
        kind == ArgKind::Boolean ==> v == Some(
            ArgValue::Boolean(le32(old(r).data(), old(r).at()) != 0),
        ),
        kind == ArgKind::Text && signed32(le32(old(r).data(), old(r).at())) < 0 ==> v == Some(
            ArgValue::Null,
        ),
        kind == ArgKind::Boolean || (kind == ArgKind::Text && signed32(
            le32(old(r).data(), old(r).at()),
        ) < 0) ==> final(r).at() == old(r).at() + 4,
{
}

/// Numbers are read from where the reader stands, low byte first, and it moves on by their
/// size; where too few bytes are left, nothing is read, the reader stays, and says that it
/// ran off.
pub proof fn law_numbers_are_read_in_place(
    a: &mut ParcelReader,
    word: Option<i32>,
    b: &mut ParcelReader,
    long: Option<i64>,
    c: &mut ParcelReader,
    single: Option<u32>,
    d: &mut ParcelReader,
    double: Option<u64>,
)
    requires
        call_ensures(ParcelReader::read_i32, (a,), word),
        call_ensures(ParcelReader::read_i64, (b,), long),
        call_ensures(ParcelReader::read_f32, (c,), single),
        call_ensures(ParcelReader::read_f64, (d,), double),
    ensures
        word is Some <==> old(a).at() + 4 <= old(a).data().len(),
        word matches Some(n) ==> n == signed32(le32(old(a).data(), old(a).at())) && final(a).at()
            == old(a).at() + 4 && final(a).cut() == old(a).cut(),
        word is None ==> final(a).cut() && final(a).at() == old(a).at(),
        long is Some <==> old(b).at() + 8 <= old(b).data().len(),
        long matches Some(n) ==> n == signed64(le64(old(b).data(), old(b).at())) && final(b).at()
            == old(b).at() + 8 && final(b).cut() == old(b).cut(),
        long is None ==> final(b).cut() && final(b).at() == old(b).at(),
        single is Some <==> old(c).at() + 4 <= old(c).data().len(),
        single matches Some(n) ==> n == le32(old(c).data(), old(c).at()) && final(c).at() == old(
            c).at() + 4 && final(c).cut() == old(c).cut(),
        single is None ==> final(c).cut() && final(c).at() == old(c).at(),
        double is Some <==> old(d).at() + 8 <= old(d).data().len(),
        double matches Some(n) ==> n == le64(old(d).data(), old(d).at()) && final(d).at() == old(
            d).at() + 8 && final(d).cut() == old(d).cut(),
        double is None ==> final(d).cut() && final(d).at() == old(d).at(),
        final(a).data() == old(a).data() && final(b).data() == old(b).data(),
        final(c).data() == old(c).data() && final(d).data() == old(d).data(),
{
}

/// A value of a fixed size is the number at the reader's place, in as many bytes as its
/// kind takes.
pub proof fn law_values_are_read_in_place(r: &mut ParcelReader, kind: ArgKind, v: Option<ArgValue>)
    requires
        call_ensures(ParcelReader::read_value, (r, kind), v),
        old(r).at() >= 0,
        kind != ArgKind::Opaque,
    ensures
        ({
            let b = old(r).data();
            let at = old(r).at();
            let wide = kind == ArgKind::Long || kind == ArgKind::Double;
            let size: int = if wide {
                8
            } else {
                4
            };
            &&& final(r).data() == b
            &&& kind != ArgKind::Text ==> (v is Some <==> at + size <= b.len())
            &&& kind != ArgKind::Text && v is Some ==> final(r).at() == at + size
            &&& v is None ==> final(r).cut()
            &&& kind == ArgKind::Integer && v is Some ==> (v->0 matches ArgValue::Integer(n) && n
                == signed32(le32(b, at)))
            &&& kind == ArgKind::Long && v is Some ==> (v->0 matches ArgValue::Long(n) && n
                == signed64(le64(b, at)))
            &&& kind == ArgKind::Single && v is Some ==> (v->0 matches ArgValue::Single(n) && n
                == le32(b, at))
            &&& kind == ArgKind::Double && v is Some ==> (v->0 matches ArgValue::Double(n) && n
                == le64(b, at))
        }),
{
    lemma_le_bounds(old(r).data(), old(r).at());
    if v is Some && kind != ArgKind::Text {
        let value = v->0;
        let (shown, next) = value_at(kind, old(r).data(), old(r).at())->0;
        assert(value@ == shown);
    }
}

/// A string in a parcel is the number of its code units, the units, a zero behind them, and
/// zeros up to a multiple of four bytes.
pub proof fn law_string_in_a_parcel(s: Seq<char>, i: int)
    requires
        encode16(s).len() <= i32::MAX,
    ensures
        ({
            let m = marshalled_text(s);
            let n = encode16(s).len();
            &&& m.len() % 4 == 0
            &&& 4 + 2 * (n + 1) <= m.len() < 4 + 2 * (n + 1) + 4
            &&& le32(m, 0) == n
            &&& 0 <= i < n ==> m[4 + 2 * i] + 256 * m[4 + 2 * i + 1] == encode16(s)[i]
            &&& 4 + 2 * n <= i < m.len() ==> m[i] == 0
        }),
{
    let units = encode16(s);
    let m = marshalled_text(s);
    let n = units.len() as int;
    assert(m.subrange(0, 4) =~= to_le32(units.len()));
    lemma_le32_read(m, 0, units.len());
    if 0 <= i < n {
        let b = bytes_le(units);
        assert(m[4 + 2 * i] == b[2 * i]);
        assert(m[4 + 2 * i + 1] == b[2 * i + 1]);
    }
}

/// An interface token is two words, the magic, and the descriptor as a string.
pub proof fn law_token_in_a_parcel(policy: u32, source: u32, descriptor: Seq<char>)
    ensures
        ({
            let t = interface_token(policy, source, descriptor);
            &&& le32(t, 0) == policy
            &&& le32(t, 4) == source
            &&& le32(t, 8) == 0x5359_5354
            &&& t.skip(12) == marshalled_text(descriptor)
        }),
{
    let t = interface_token(policy, source, descriptor);
    assert(t.subrange(0, 4) =~= to_le32(policy as nat));
    lemma_le32_read(t, 0, policy as nat);
    assert(t.subrange(4, 8) =~= to_le32(source as nat));
    lemma_le32_read(t, 4, source as nat);
    assert(t.subrange(8, 12) =~= to_le32(0x5359_5354));
    lemma_le32_read(t, 8, 0x5359_5354);
    assert(t.skip(12) =~= marshalled_text(descriptor));
}

/// A reader finds the first argument right behind the interface token, and the strings that
/// were written where they stand; it stays where there is no token.
pub proof fn law_reader_finds_its_way(
    a: &mut ParcelReader,
    found: bool,
    b: &mut ParcelReader,
    policy: u32,
    source: u32,
    s: Seq<char>,
    rest: Seq<u8>,
    text: Option<Option<String>>,
)
    requires
        call_ensures(ParcelReader::seek_args, (a,), found),
        call_ensures(ParcelReader::read_string16, (b,), text),
        encode16(s).len() <= i32::MAX,
        old(a).data() == interface_token(policy, source, s) + rest,
        old(b).at() >= 0,
        old(b).at() + marshalled_text(s).len() <= old(b).data().len(),
        old(b).data().subrange(old(b).at(), old(b).at() + marshalled_text(s).len())
            == marshalled_text(s),
    ensures
        found,
        final(a).at() == interface_token(policy, source, s).len(),
        text is Some && text->0 is Some && text->0->0@ == s,
        final(b).at() == old(b).at() + marshalled_text(s).len(),
        !final(b).cut() || old(b).cut(),
{
    law_token_is_skipped(policy, source, s, rest);
    law_value_round_trip(ArgKind::Text, ValueView::Text(s), old(b).data(), old(b).at());
}

} // verus!
