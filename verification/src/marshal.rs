//! How Binder writes a call into a parcel, and that the reader gives it back.

use crate::bytes::{
    lemma_le32_read, lemma_le64_read, lemma_signed_patterns, pattern32, pattern64, signed32,
    signed64, to_le32, to_le64,
};
use crate::catalog::ArgView;
use crate::parcel::{
    args_from, args_offset, base_type_of, kind_of, rendered_args, separator, shown_value,
    string16_at, string16_size, value_at, HEADER_MAGIC, ArgKind, String16, ValueView,
};
use crate::rendering::{glyphs, Glyph};
use crate::utf16::{bytes_le, encode16, law_units_round_trip, law_utf16_round_trip};
use vstd::prelude::*;

verus! {

/// A `String16` in a parcel: the count of its code units, the units, a terminator and
/// the padding.
pub open spec fn marshalled_text(s: Seq<char>) -> Seq<u8> {
    let units = encode16(s);
    to_le32(units.len()) + bytes_le(units) + Seq::new(
        (string16_size(units.len() as int) - 2 * units.len()) as nat,
        |i: int| 0u8,
    )
}

/// An argument value in a parcel.
pub open spec fn marshalled(v: ValueView) -> Seq<u8> {
    match v {
        ValueView::Boolean(b) => to_le32(
            if b {
                1
            } else {
                0
            },
        ),
        ValueView::Integer(n) => to_le32(pattern32(n as int)),
        ValueView::Long(n) => to_le64(pattern64(n as int)),
        ValueView::Single(bits) => to_le32(bits as nat),
        ValueView::Double(bits) => to_le64(bits as nat),
        ValueView::Text(s) => marshalled_text(s),
        ValueView::Null => to_le32(pattern32(-1)),
    }
}

/// The argument values from the `i`-th on, one behind the other.
pub open spec fn marshalled_from(values: Seq<ValueView>, i: int) -> Seq<u8>
    decreases values.len() - i,
{
    if i < 0 || i >= values.len() {
        seq![]
    } else {
        marshalled(values[i]) + marshalled_from(values, i + 1)
    }
}

/// An interface token: two words that readers skip, the magic and the descriptor.
pub open spec fn interface_token(policy: u32, source: u32, descriptor: Seq<char>) -> Seq<u8> {
    to_le32(policy as nat) + to_le32(source as nat) + to_le32(HEADER_MAGIC as nat)
        + marshalled_text(descriptor)
}

/// Whether `v` can be the value of an argument that is read as `kind`, and is short
/// enough for its length to be written.
pub open spec fn fits(kind: ArgKind, v: ValueView) -> bool {
    match v {
        ValueView::Boolean(_) => kind == ArgKind::Boolean,
        ValueView::Integer(_) => kind == ArgKind::Integer,
        ValueView::Long(_) => kind == ArgKind::Long,
        ValueView::Single(_) => kind == ArgKind::Single,
        ValueView::Double(_) => kind == ArgKind::Double,
        ValueView::Text(s) => kind == ArgKind::Text && encode16(s).len() <= i32::MAX,
        ValueView::Null => kind == ArgKind::Text,
    }
}

/// The arguments from the `i`-th on with the values given, as they are shown.
pub open spec fn shown_from(args: Seq<ArgView>, values: Seq<ValueView>, i: int) -> Seq<Glyph>
    decreases args.len() - i,
{
    if i >= args.len() {
        glyphs(seq![')'])
    } else {
        separator(i) + glyphs(args[i].name) + glyphs(seq!['=']) + shown_value(values[i])
            + shown_from(args, values, i + 1)
    }
}

proof fn lemma_text_read(parcel: Seq<u8>, pos: int, s: Seq<char>)
    requires
        0 <= pos,
        encode16(s).len() <= i32::MAX,
        pos + marshalled_text(s).len() <= parcel.len(),
        parcel.subrange(pos, pos + marshalled_text(s).len()) == marshalled_text(s),
    ensures
        string16_at(parcel, pos) == String16::Text(s, pos + marshalled_text(s).len()),
{
    let units = encode16(s);
    let m = marshalled_text(s);
    let len = units.len() as int;
    assert(parcel.subrange(pos, pos + 4) =~= m.subrange(0, 4));
    assert(m.subrange(0, 4) =~= to_le32(units.len()));
    lemma_le32_read(parcel, pos, units.len());
    assert(parcel.subrange(pos + 4, pos + 4 + 2 * len) =~= m.subrange(4, 4 + 2 * len));
    assert(m.subrange(4, 4 + 2 * len) =~= bytes_le(units));
    law_units_round_trip(units);
    law_utf16_round_trip(s);
}

/// Reading a value back from where it was written gives that value, and leaves the
/// cursor behind it.
pub proof fn law_value_round_trip(kind: ArgKind, v: ValueView, parcel: Seq<u8>, pos: int)
    requires
        0 <= pos,
        fits(kind, v),
        pos + marshalled(v).len() <= parcel.len(),
        parcel.subrange(pos, pos + marshalled(v).len()) == marshalled(v),
    ensures
        value_at(kind, parcel, pos) == Some((v, pos + marshalled(v).len())),
{
    lemma_signed_patterns();
    match v {
        ValueView::Boolean(b) => {
            lemma_le32_read(
                parcel,
                pos,
                if b {
                    1
                } else {
                    0
                },
            );
        },
        ValueView::Integer(n) => {
            lemma_le32_read(parcel, pos, pattern32(n as int));
            assert(signed32(pattern32(n as int)) == n);
        },
        ValueView::Long(n) => {
            lemma_le64_read(parcel, pos, pattern64(n as int));
            assert(signed64(pattern64(n as int)) == n);
        },
        ValueView::Single(bits) => {
            lemma_le32_read(parcel, pos, bits as nat);
        },
        ValueView::Double(bits) => {
            lemma_le64_read(parcel, pos, bits as nat);
        },
        ValueView::Text(s) => {
            lemma_text_read(parcel, pos, s);
        },
        ValueView::Null => {
            lemma_le32_read(parcel, pos, pattern32(-1));
            assert(signed32(pattern32(-1i32 as int)) == -1i32);
        },
    }
}

proof fn lemma_args_read(
    args: Seq<ArgView>,
    values: Seq<ValueView>,
    i: int,
    parcel: Seq<u8>,
    pos: int,
)
    requires
        args.len() == values.len(),
        forall|k: int|
            0 <= k < args.len() ==> fits(kind_of(base_type_of(#[trigger] args[k].ty)), values[k]),
        0 <= i <= args.len(),
        0 <= pos,
        pos + marshalled_from(values, i).len() <= parcel.len(),
        parcel.subrange(pos, pos + marshalled_from(values, i).len()) == marshalled_from(values, i),
    ensures
        args_from(args, i, parcel, pos) == shown_from(args, values, i),
    decreases args.len() - i,
{
    if i < args.len() {
        let m = marshalled(values[i]);
        let rest = marshalled_from(values, i + 1);
        let all = marshalled_from(values, i);
        let kind = kind_of(base_type_of(args[i].ty));
        assert(fits(kind, values[i]));
        assert(parcel.subrange(pos, pos + m.len()) =~= all.subrange(0, m.len() as int));
        assert(all.subrange(0, m.len() as int) =~= m);
        law_value_round_trip(kind, values[i], parcel, pos);
        let next = pos + m.len();
        assert(parcel.subrange(next, next + rest.len()) =~= all.subrange(
            m.len() as int,
            all.len() as int,
        ));
        assert(all.subrange(m.len() as int, all.len() as int) =~= rest);
        lemma_args_read(args, values, i + 1, parcel, next);
    }
}

/// A parcel that starts with an interface token has its arguments right behind it.
pub proof fn law_token_is_skipped(
    policy: u32,
    source: u32,
    descriptor: Seq<char>,
    rest: Seq<u8>,
)
    requires
        encode16(descriptor).len() <= u32::MAX,
    ensures
        args_offset(interface_token(policy, source, descriptor) + rest) == Some(
            interface_token(policy, source, descriptor).len() as int,
        ),
{
    let parcel = interface_token(policy, source, descriptor) + rest;
    let units = encode16(descriptor);
    assert(parcel.subrange(8, 12) =~= to_le32(HEADER_MAGIC as nat));
    lemma_le32_read(parcel, 8, HEADER_MAGIC as nat);
    assert(parcel.subrange(12, 16) =~= to_le32(units.len()));
    lemma_le32_read(parcel, 12, units.len());
}

/// A call that was captured whole is rendered with the values that were written: each
/// argument's name and value in order, whatever follows in the parcel.
pub proof fn law_args_round_trip(
    args: Seq<ArgView>,
    values: Seq<ValueView>,
    policy: u32,
    source: u32,
    descriptor: Seq<char>,
    rest: Seq<u8>,
)
    requires
        encode16(descriptor).len() <= u32::MAX,
        args.len() == values.len(),
        forall|k: int|
            0 <= k < args.len() ==> fits(kind_of(base_type_of(#[trigger] args[k].ty)), values[k]),
    ensures
        rendered_args(
            args,
            interface_token(policy, source, descriptor) + marshalled_from(values, 0) + rest,
        ) == Some(glyphs(seq!['(']) + shown_from(args, values, 0)),
{
    let token = interface_token(policy, source, descriptor);
    let body = marshalled_from(values, 0);
    let parcel = token + body + rest;
    assert(parcel =~= token + (body + rest));
    law_token_is_skipped(policy, source, descriptor, body + rest);
    let pos = token.len() as int;
    assert(parcel.subrange(pos, pos + body.len()) =~= body);
    lemma_args_read(args, values, 0, parcel, pos);
}

} // verus!
