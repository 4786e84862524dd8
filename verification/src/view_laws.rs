//! Laws of the views: each shows what its value holds.

use crate::catalog::{args_view, Arg, Method};
use crate::control::RuntimeState;
use crate::filter::{ops_view, FilterCtl, FilterOp, OpView};
use crate::options::{CommandView, DecodeCommand};
use crate::parcel::{ArgValue, ValueView};
use crate::record::{Label, LabelView, Record};
use crate::rendering::{flatten, glyphs, Glyph, Piece, Rendering};
use crate::text::{text_of, texts};
use vstd::prelude::*;

verus! {

/// Texts and lists of them are shown as they are.
pub proof fn law_texts_are_shown(list: Seq<String>, one: Option<String>, s: Seq<char>)
    ensures
        texts(list).len() == list.len(),
        forall|i: int| 0 <= i < list.len() ==> #[trigger] texts(list)[i] == list[i]@,
        one matches Some(t) ==> text_of(one) == Some(t@),
        one is None ==> text_of(one) is None,
        glyphs(s).len() == s.len(),
        forall|i: int| 0 <= i < s.len() ==> #[trigger] glyphs(s)[i] == Glyph::Char(s[i]),
{
}

/// The state is shown by its fields.
pub proof fn law_state_is_shown(r: RuntimeState)
    ensures
        r@.capturing == r.capturing,
        r@.discovering == r.discovering,
        r@.sink == r.sink,
        r@.dlt_on == r.dlt_on,
        r@.errors_on == r.errors_on,
        r@.parcel_on == r.parcel_on,
        r@.parcel_max == r.parcel_max,
        r@.dlt_port == r.dlt_port,
        r@.captured == r.captured,
        r@.emitted == r.emitted,
        r@.observed == r.observed@,
        r@.filter.on == r.filter.on,
        r@.filter.active == texts(r.filter.active@),
{
}

/// A filter and its updates are shown by their names, their switch and their keys.
pub proof fn law_filter_is_shown(f: FilterCtl, ops: Seq<FilterOp>, i: int)
    requires
        0 <= i < ops.len(),
    ensures
        f@.on == f.on,
        f@.active == texts(f.active@),
        ops_view(ops).len() == ops.len(),
        ops_view(ops)[i] == match ops[i] {
            FilterOp::Remove(key) => OpView::Remove(key.0@),
            FilterOp::Insert(key) => OpView::Insert(key.0@),
            FilterOp::Switch(on) => OpView::Switch(on),
        },
{
}

/// An argument and a method are shown by their names, their types and their arguments.
pub proof fn law_methods_are_shown(a: Arg, m: Method, args: Seq<Arg>, i: int)
    requires
        0 <= i < args.len(),
    ensures
        a@.name == a.name@,
        a@.ty == a.ty@,
        args_view(args).len() == args.len(),
        args_view(args)[i].name == args[i].name@,
        args_view(args)[i].ty == args[i].ty@,
        m@.name == m.name@,
        m.args is None <==> m@.args is None,
        m.args matches Some(list) ==> m@.args == Some(args_view(list@)),
{
}

/// A value is shown as what it is.
pub proof fn law_value_is_itself(v: ArgValue)
    ensures
        match v {
            ArgValue::Boolean(b) => v@ == ValueView::Boolean(b),
            ArgValue::Integer(n) => v@ == ValueView::Integer(n),
            ArgValue::Long(n) => v@ == ValueView::Long(n),
            ArgValue::Single(bits) => v@ == ValueView::Single(bits),
            ArgValue::Double(bits) => v@ == ValueView::Double(bits),
            ArgValue::Text(s) => v@ == ValueView::Text(s@),
            ArgValue::Null => v@ == ValueView::Null,
        },
{
}

/// A record is shown by its fields.
pub proof fn law_record_is_shown(r: Record)
    ensures
        r@.src == r.src@,
        r@.src_pid == r.src_pid,
        r@.dst == r.dst@,
        r@.dst_pid == r.dst_pid,
        r@.size == r.size,
        r@.oneway == r.oneway,
        r@.label == match r.label {
            Label::Aidl { iface, code } => LabelView::Aidl { iface: iface@, code },
            Label::Reply { code } => LabelView::Reply { code },
            Label::NonAidl { code } => LabelView::NonAidl { code },
        },
{
}

/// A command is shown by what it asks for.
pub proof fn law_command_is_shown(c: DecodeCommand)
    ensures
        c@ == match c {
            DecodeCommand::Run { catalog, files } => CommandView::Run {
                catalog: catalog@,
                files: texts(files@),
            },
            DecodeCommand::Help => CommandView::Help,
            DecodeCommand::NoPath => CommandView::NoPath,
            DecodeCommand::UnknownFlag(flag) => CommandView::UnknownFlag(flag@),
            DecodeCommand::NoCatalog => CommandView::NoCatalog,
        },
{
}

/// A rendering is its pieces one behind the other: the characters of a text as they are, and
/// each float by its own bits.
pub proof fn law_pieces_are_the_rendering(out: Rendering, pieces: Vec<Piece>, p: Seq<Piece>)
    requires
        call_ensures(Rendering::into_pieces, (out,), pieces),
        p.len() > 0,
    ensures
        flatten(pieces@) == out@,
        flatten(Seq::<Piece>::empty()) == Seq::<Glyph>::empty(),
        flatten(p) == flatten(p.drop_last()) + (match p.last() {
            Piece::Text(s) => glyphs(s@),
            Piece::Single(bits) => seq![Glyph::Single(bits)],
            Piece::Double(bits) => seq![Glyph::Double(bits)],
        }),
{
}

} // verus!
