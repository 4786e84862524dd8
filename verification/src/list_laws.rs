//! Laws of lists: comma-separated names, and the order of what was observed.

use crate::event::IfaceKey;
use crate::filter::{
    after_op, keys_of, law_filter_is_replaced, listed, ops_view, split_names, updated, FilterCtl,
    FilterOp, FilterOutcome, KernelFilter, OpView,
};
use crate::iface::iface_key;
use crate::observed::{comes_before, lemma_precedes_total, precedes, Observed};
use crate::text::{
    find_from, is_white, lemma_find_behind, lemma_find_first, lemma_find_is, lemma_find_none,
    lemma_first_char_absent, occurs_at, texts,
};
use crate::text_laws::law_white_space_around_is_trimmed;
use crate::utf16::{bytes_le, encode16};
use vstd::prelude::*;

verus! {

/// Two lists with a comma between them are the names of the one and then of the other.
pub proof fn law_lists_are_joined_by_commas(a: Seq<char>, b: Seq<char>)
    ensures
        listed(a + ","@ + b) == listed(a) + listed(b),
    decreases a.len(),
{
    reveal_strlit(",");
    let s = a + ","@ + b;
    lemma_find_first(a, ","@, 0);
    match find_from(a, ","@, 0) {
        Some(i) => {
            assert(a.subrange(i, i + 1)[0] == a[i]);
            assert(s.subrange(i, i + 1) =~= ","@);
            assert forall|j: int| 0 <= j < i implies !occurs_at(s, ","@, j) by {
                if occurs_at(s, ","@, j) {
                    assert(s.subrange(j, j + 1)[0] == a[j]);
                    assert(a.subrange(j, j + 1) =~= ","@);
                    assert(occurs_at(a, ","@, j));
                }
            }
            lemma_find_is(s, ","@, 0, i);
            law_lists_are_joined_by_commas(a.skip(i + 1), b);
            assert(s.take(i) =~= a.take(i));
            assert(s.skip(i + 1) =~= a.skip(i + 1) + ","@ + b);
            assert(listed(s) =~= listed(a) + listed(b));
        },
        None => {
            assert(!a.contains(',')) by {
                if a.contains(',') {
                    let j = choose|j: int| 0 <= j < a.len() && a[j] == ',';
                    assert(a.subrange(j, j + 1) =~= ","@);
                    assert(occurs_at(a, ","@, j));
                }
            }
            lemma_first_char_absent(a, ","@);
            lemma_find_behind(a, ","@, b);
        },
    }
}

/// A name without a comma is a list of one, without the white space around it; white space
/// alone lists nothing.
pub proof fn law_one_name_is_listed(before: Seq<char>, name: Seq<char>, after: Seq<char>)
    requires
        forall|i: int| 0 <= i < before.len() ==> is_white(#[trigger] before[i]),
        forall|i: int| 0 <= i < after.len() ==> is_white(#[trigger] after[i]),
        name.len() > 0 ==> !is_white(name[0]) && !is_white(name.last()),
        !name.contains(','),
    ensures
        name.len() > 0 ==> listed(before + name + after) == seq![name],
        name.len() == 0 ==> listed(before + name + after) == Seq::<Seq<char>>::empty(),
{
    reveal_strlit(",");
    let s = before + name + after;
    assert forall|j: int| 0 <= j implies !occurs_at(s, ","@, j) by {
        if occurs_at(s, ","@, j) {
            assert(s.subrange(j, j + 1)[0] == s[j]);
            if j < before.len() {
                assert(s[j] == before[j]);
            } else if j < before.len() + name.len() {
                assert(s[j] == name[j - before.len()]);
            } else {
                assert(s[j] == after[j - before.len() - name.len()]);
            }
        }
    }
    lemma_find_none(s, ","@, 0);
    law_white_space_around_is_trimmed(before, name, after);
}

/// Names with commas between them.
pub open spec fn joined(names: Seq<Seq<char>>) -> Seq<char>
    decreases names.len(),
{
    if names.len() == 0 {
        seq![]
    } else if names.len() == 1 {
        names[0]
    } else {
        joined(names.drop_last()) + ","@ + names.last()
    }
}

/// Names that are written with commas between them are read back, each as it is and in
/// their order.
pub proof fn law_joined_names_are_listed(names: Seq<Seq<char>>, list: &[char], r: Vec<String>)
    requires
        forall|i: int|
            0 <= i < names.len() ==> (#[trigger] names[i]).len() > 0 && !names[i].contains(',')
                && !is_white(names[i][0]) && !is_white(names[i].last()),
        list@ == joined(names),
        call_ensures(split_names, (list,), r),
    ensures
        texts(r@) == names,
{
    lemma_joined(names);
}

proof fn lemma_joined(names: Seq<Seq<char>>)
    requires
        forall|i: int|
            0 <= i < names.len() ==> (#[trigger] names[i]).len() > 0 && !names[i].contains(',')
                && !is_white(names[i][0]) && !is_white(names[i].last()),
    ensures
        listed(joined(names)) == names,
    decreases names.len(),
{
    let none = Seq::<char>::empty();
    if names.len() == 0 {
        law_one_name_is_listed(none, none, none);
        assert(none + none + none =~= none);
        assert(names =~= Seq::<Seq<char>>::empty());
    } else {
        let last = names.last();
        assert(last == names[names.len() - 1]);
        law_one_name_is_listed(none, last, none);
        assert(none + last + none =~= last);
        if names.len() == 1 {
            assert(names =~= seq![last]);
        } else {
            let front = names.drop_last();
            assert forall|i: int| 0 <= i < front.len() implies (#[trigger] front[i]).len() > 0
                && !front[i].contains(',') && !is_white(front[i][0]) && !is_white(
                front[i].last(),
            ) by {
                assert(front[i] == names[i]);
            }
            lemma_joined(front);
            law_lists_are_joined_by_commas(joined(front), last);
            assert(front + seq![last] =~= names);
        }
    }
}

/// Texts are in the order of their first difference: by the smaller character there, and a
/// text before what goes on behind it.
pub proof fn law_order_of_texts(a: &str, b: &str, k: int, r: bool)
    requires
        call_ensures(comes_before, (a, b), r),
        0 <= k <= a@.len(),
        k <= b@.len(),
        a@.take(k) == b@.take(k),
        k < a@.len() && k < b@.len() ==> a@[k] != b@[k],
    ensures
        k < a@.len() && k < b@.len() ==> r == ((a@[k] as u32) < (b@[k] as u32)),
        k == a@.len() ==> r == (k < b@.len()),
        k == b@.len() ==> !r,
{
    lemma_first_difference(a@, b@, k);
}

proof fn lemma_char_order(x: char, y: char)
    ensures
        (x < y) == ((x as u32) < (y as u32)),
{
}

proof fn lemma_first_difference(a: Seq<char>, b: Seq<char>, k: int)
    requires
        0 <= k <= a.len(),
        k <= b.len(),
        a.take(k) == b.take(k),
        k < a.len() && k < b.len() ==> a[k] != b[k],
    ensures
        precedes(a, b) == if k < a.len() && k < b.len() {
            (a[k] as u32) < (b[k] as u32)
        } else {
            k == a.len() && k < b.len()
        },
    decreases k,
{
    if k > 0 {
        assert(a[0] == a.take(k)[0]);
        assert(b[0] == b.take(k)[0]);
        let x = a.skip(1);
        let y = b.skip(1);
        assert(x.take(k - 1) =~= a.take(k).skip(1));
        assert(y.take(k - 1) =~= b.take(k).skip(1));
        lemma_first_difference(x, y, k - 1);
        if k < a.len() && k < b.len() {
            assert(x[k - 1] == a[k] && y[k - 1] == b[k]);
        }
    } else if a.len() > 0 && b.len() > 0 {
        lemma_char_order(a[0], b[0]);
    }
}

/// The updates that are planned replace the filter: where the kernel wants the keys of the
/// active interfaces, after all of them it wants those of the new names and no other, and
/// filters exactly where there is one. The switch comes last.
pub proof fn law_plan_replaces_the_filter(
    ctl: &FilterCtl,
    names: &Vec<String>,
    k: KernelFilter,
    r: Vec<FilterOp>,
)
    requires
        call_ensures(FilterCtl::plan, (ctl, names), r),
        k.wanted == keys_of(texts(ctl.active@)),
    ensures
        r@.len() == ctl.active@.len() + names@.len() + 1,
        updated(k, ops_view(r@)).wanted == keys_of(texts(names@)),
        updated(k, ops_view(r@)).on == (names@.len() > 0),
        ops_view(r@).last() == OpView::Switch(names@.len() > 0),
{
    assert(ops_view(r@).len() == r@.len());
    law_filter_is_replaced(k, texts(ctl.active@), texts(names@));
}

/// An update that is tried tells how the run went: a removal never does, an addition only
/// where it fails, with the number of names before it, and the switch always.
pub proof fn law_updates_tell_how_it_went(
    op: &FilterOp,
    inserted: usize,
    ok: bool,
    r: Option<FilterOutcome>,
)
    requires
        call_ensures(after_op, (op, inserted, ok), r),
    ensures
        *op is Remove ==> r is None,
        *op is Insert && ok ==> r is None,
        *op is Insert && !ok ==> r == Some(FilterOutcome::InsertFailed(inserted)),
        *op is Switch && ok ==> r == Some(FilterOutcome::Applied),
        *op is Switch && !ok ==> r == Some(FilterOutcome::SwitchFailed),
{
}

/// Once all updates were made, the names are active in the order given, and the kernel
/// filters exactly where there is one. Where one failed, what was done before it holds, the
/// switch is as it was, and that is an error.
pub proof fn law_filter_is_as_applied(
    ctl: &mut FilterCtl,
    names: &Vec<String>,
    outcome: FilterOutcome,
    r: Result<(), String>,
)
    requires
        outcome matches FilterOutcome::InsertFailed(k) ==> k < names@.len(),
        call_ensures(FilterCtl::apply, (ctl, names, outcome), r),
    ensures
        r is Ok <==> outcome == FilterOutcome::Applied,
        outcome == FilterOutcome::Applied ==> texts(final(ctl).active@) == texts(names@) && final(
            ctl).on == (names@.len() > 0),
        outcome == FilterOutcome::SwitchFailed ==> texts(final(ctl).active@) == texts(names@)
            && final(ctl).on == old(ctl).on,
        outcome matches FilterOutcome::InsertFailed(k) ==> texts(final(ctl).active@) == texts(
            names@,
        ).take(k as int) && final(ctl).on == old(ctl).on,
{
    let after = final(ctl)@;
}

/// The key of a name is its UTF-16 code units, the low byte of each first, as far as the
/// buffer goes, with zeros behind them.
pub proof fn law_key_is_the_name(name: &str, r: IfaceKey, i: int)
    requires
        call_ensures(iface_key, (name,), r),
        0 <= i < 128,
    ensures
        ({
            let units = encode16(name@);
            &&& i < units.len() ==> r.0@[2 * i] + 256 * r.0@[2 * i + 1] == units[i]
            &&& i >= units.len() ==> r.0@[2 * i] == 0 && r.0@[2 * i + 1] == 0
        }),
{
    let units = encode16(name@);
    let b = bytes_le(units);
    if i < units.len() {
        assert(b[2 * i] == units[i] % 256 && b[2 * i + 1] == units[i] / 256);
    }
}

/// What was observed holds each name once: adding one that is there changes nothing, and
/// adding another keeps all that are there.
pub proof fn law_names_are_observed_once(o: &mut Observed, name: &str, other: Seq<char>, r: bool)
    requires
        old(o).wf(),
        call_ensures(Observed::insert, (o, name), r),
    ensures
        r == !old(o)@.contains(name@),
        final(o)@.contains(name@),
        old(o)@.contains(other) ==> final(o)@.contains(other),
        final(o)@.contains(other) ==> old(o)@.contains(other) || other == name@,
        !r ==> final(o)@ == old(o)@,
        forall|i: int, j: int|
            0 <= i < j < final(o)@.len() ==> #[trigger] final(o)@[i] != #[trigger] final(o)@[j],
{
    assert forall|i: int, j: int| 0 <= i < j < final(o)@.len() implies #[trigger] final(o)@[i]
        != #[trigger] final(o)@[j] by {
        lemma_precedes_total(final(o)@[i], final(o)@[j]);
    }
}

} // verus!
