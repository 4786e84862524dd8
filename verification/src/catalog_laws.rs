//! Laws of the catalog: what is put into it is found in it.

use crate::catalog::{
    args_view, builds, contents, entries_view, first_unusable, first_unusable_method,
    interfaces_by_name, methods_by_code, special_transaction, Arg, ArgView, Catalog, CatalogError,
    Method, MethodView,
};
use crate::catalog_json::{
    arg_list_view, bare_codes, bare_entries, codes_hold_object, document_view, field, field_from,
    holds_object, json_args, json_codes, json_document, json_entries, json_list, json_method,
    json_names, json_string, json_table, table_view,
};
use crate::decode::Decoder;
use vstd::prelude::*;

verus! {

/// An entry of an interface: a code, and the method where it is usable.
pub type CodeEntry = (u32, Option<MethodView>);

/// Whether the `k`-th entry is the last for its code.
pub open spec fn last_for_code(codes: Seq<CodeEntry>, k: int) -> bool {
    0 <= k < codes.len() && forall|j: int|
        k < j < codes.len() ==> (#[trigger] codes[j]).0 != codes[k].0
}

/// Whether the `i`-th interface is the last of its name.
pub open spec fn last_of_name(entries: Seq<(Seq<char>, Seq<CodeEntry>)>, i: int) -> bool {
    0 <= i < entries.len() && forall|j: int|
        i < j < entries.len() ==> (#[trigger] entries[j]).0 != entries[i].0
}

/// Whether every entry is usable.
pub open spec fn all_usable(entries: Seq<(Seq<char>, Seq<CodeEntry>)>) -> bool {
    forall|i: int, k: int|
        0 <= i < entries.len() && 0 <= k < entries[i].1.len() ==> (
        #[trigger] entries[i].1[k]).1 is Some
}

proof fn lemma_method_found(codes: Seq<CodeEntry>, k: int)
    requires
        last_for_code(codes, k),
        codes[k].1 is Some,
    ensures
        methods_by_code(codes).contains_key(codes[k].0),
        methods_by_code(codes)[codes[k].0] == codes[k].1->0,
    decreases codes.len(),
{
    if k < codes.len() - 1 {
        let front = codes.drop_last();
        assert forall|j: int| k < j < front.len() implies (#[trigger] front[j]).0
            != front[k].0 by {
            assert(front[j] == codes[j]);
        }
        assert(codes[codes.len() - 1].0 != codes[k].0);
        lemma_method_found(front, k);
    }
}

proof fn lemma_no_method(codes: Seq<CodeEntry>, code: u32)
    requires
        forall|j: int| 0 <= j < codes.len() ==> (#[trigger] codes[j]).0 != code,
    ensures
        !methods_by_code(codes).contains_key(code),
    decreases codes.len(),
{
    if codes.len() > 0 {
        let front = codes.drop_last();
        assert forall|j: int| 0 <= j < front.len() implies (#[trigger] front[j]).0 != code by {
            assert(front[j] == codes[j]);
        }
        lemma_no_method(front, code);
        assert(codes[codes.len() - 1].0 != code);
    }
}

proof fn lemma_interface_found(entries: Seq<(Seq<char>, Seq<CodeEntry>)>, i: int)
    requires
        last_of_name(entries, i),
    ensures
        interfaces_by_name(entries).contains_key(entries[i].0),
        interfaces_by_name(entries)[entries[i].0] == methods_by_code(entries[i].1),
    decreases entries.len(),
{
    if i < entries.len() - 1 {
        let front = entries.drop_last();
        assert forall|j: int| i < j < front.len() implies (#[trigger] front[j]).0
            != front[i].0 by {
            assert(front[j] == entries[j]);
        }
        assert(entries[entries.len() - 1].0 != entries[i].0);
        lemma_interface_found(front, i);
    }
}

proof fn lemma_no_interface(entries: Seq<(Seq<char>, Seq<CodeEntry>)>, iface: Seq<char>)
    requires
        forall|j: int| 0 <= j < entries.len() ==> (#[trigger] entries[j]).0 != iface,
    ensures
        !interfaces_by_name(entries).contains_key(iface),
    decreases entries.len(),
{
    if entries.len() > 0 {
        let front = entries.drop_last();
        assert forall|j: int| 0 <= j < front.len() implies (#[trigger] front[j]).0 != iface by {
            assert(front[j] == entries[j]);
        }
        lemma_no_interface(front, iface);
        assert(entries[entries.len() - 1].0 != iface);
    }
}

proof fn lemma_usable_codes(codes: Seq<CodeEntry>, from: int)
    requires
        0 <= from,
        forall|k: int| from <= k < codes.len() ==> (#[trigger] codes[k]).1 is Some,
    ensures
        first_unusable(codes, from) is None,
    decreases codes.len() - from,
{
    if from < codes.len() {
        assert(codes[from].1 is Some);
        lemma_usable_codes(codes, from + 1);
    }
}

proof fn lemma_unusable_code(codes: Seq<CodeEntry>, from: int, k: int)
    requires
        0 <= from <= k < codes.len(),
        codes[k].1 is None,
        forall|j: int| from <= j < k ==> (#[trigger] codes[j]).1 is Some,
    ensures
        first_unusable(codes, from) == Some(k),
    decreases k - from,
{
    if from < k {
        assert(codes[from].1 is Some);
        lemma_unusable_code(codes, from + 1, k);
    }
}

proof fn lemma_all_usable(entries: Seq<(Seq<char>, Seq<CodeEntry>)>, from: int)
    requires
        0 <= from,
        all_usable(entries),
    ensures
        first_unusable_method(entries, from) is None,
    decreases entries.len() - from,
{
    if from < entries.len() {
        let codes = entries[from].1;
        assert forall|k: int| 0 <= k < codes.len() implies (#[trigger] codes[k]).1 is Some by {
            assert(entries[from].1[k].1 is Some);
        }
        lemma_usable_codes(codes, 0);
        lemma_all_usable(entries, from + 1);
    }
}

/// Whether the `k`-th entry of the `i`-th interface is the first that is unusable.
pub open spec fn first_bad(entries: Seq<(Seq<char>, Seq<CodeEntry>)>, i: int, k: int) -> bool {
    &&& 0 <= i < entries.len()
    &&& 0 <= k < entries[i].1.len()
    &&& entries[i].1[k].1 is None
    &&& forall|j: int| 0 <= j < k ==> (#[trigger] entries[i].1[j]).1 is Some
    &&& forall|h: int, j: int|
        0 <= h < i && 0 <= j < entries[h].1.len() ==> (#[trigger] entries[h].1[j]).1 is Some
}

proof fn lemma_first_bad(entries: Seq<(Seq<char>, Seq<CodeEntry>)>, from: int, i: int, k: int)
    requires
        first_bad(entries, i, k),
        0 <= from <= i,
    ensures
        first_unusable_method(entries, from) == Some((entries[i].0, entries[i].1[k].0)),
    decreases i - from,
{
    let codes = entries[from].1;
    if from < i {
        assert forall|j: int| 0 <= j < codes.len() implies (#[trigger] codes[j]).1 is Some by {
            assert(entries[from].1[j].1 is Some);
        }
        lemma_usable_codes(codes, 0);
        lemma_first_bad(entries, from + 1, i, k);
    } else {
        assert forall|j: int| 0 <= j < k implies (#[trigger] codes[j]).1 is Some by {
            assert(entries[i].1[j].1 is Some);
        }
        lemma_unusable_code(codes, 0, k);
    }
}

/// What holds of a catalog that is built from entries: where all of them are usable, each
/// is found under its interface and its code, unless a later one has the same; nothing else
/// is found. Where one is not, the first such is the error.
pub open spec fn is_built_from(
    r: Result<Map<Seq<char>, Map<u32, MethodView>>, CatalogError>,
    entries: Seq<(Seq<char>, Seq<CodeEntry>)>,
) -> bool {
    &&& all_usable(entries) ==> (r matches Ok(c) && {
        &&& forall|i: int, k: int|
            last_of_name(entries, i) && last_for_code(entries[i].1, k) ==> {
                &&& c.contains_key(entries[i].0)
                &&& c[entries[i].0].contains_key((#[trigger] entries[i].1[k]).0)
                &&& c[entries[i].0][entries[i].1[k].0] == entries[i].1[k].1->0
            }
        &&& forall|iface: Seq<char>|
            (forall|j: int| 0 <= j < entries.len() ==> (#[trigger] entries[j]).0 != iface)
                ==> !#[trigger] c.contains_key(iface)
        &&& forall|i: int, code: u32|
            last_of_name(entries, i) && (forall|j: int|
                0 <= j < entries[i].1.len() ==> (#[trigger] entries[i].1[j]).0 != code)
                ==> !#[trigger] c[entries[i].0].contains_key(code)
    })
    &&& forall|i: int, k: int| #[trigger]
        first_bad(entries, i, k) ==> (r matches Err(CatalogError::Entry { iface, code }) && iface@
            == entries[i].0 && code == entries[i].1[k].0)
}

proof fn lemma_built(
    entries: Seq<(Seq<char>, Seq<CodeEntry>)>,
    r: Result<Map<Seq<char>, Map<u32, MethodView>>, CatalogError>,
)
    requires
        builds(entries, r),
    ensures
        is_built_from(r, entries),
{
    if all_usable(entries) {
        lemma_all_usable(entries, 0);
        let c = interfaces_by_name(entries);
        assert(r == Ok::<Map<Seq<char>, Map<u32, MethodView>>, CatalogError>(c));
        assert forall|i: int, k: int|
            last_of_name(entries, i) && last_for_code(entries[i].1, k) implies {
            &&& c.contains_key(entries[i].0)
            &&& c[entries[i].0].contains_key((#[trigger] entries[i].1[k]).0)
            &&& c[entries[i].0][entries[i].1[k].0] == entries[i].1[k].1->0
        } by {
            lemma_interface_found(entries, i);
            assert(entries[i].1[k].1 is Some);
            lemma_method_found(entries[i].1, k);
        }
        assert forall|iface: Seq<char>|
            (forall|j: int| 0 <= j < entries.len() ==> (#[trigger] entries[j]).0
                != iface) implies !#[trigger] c.contains_key(iface) by {
            lemma_no_interface(entries, iface);
        }
        assert forall|i: int, code: u32|
            last_of_name(entries, i) && (forall|j: int|
                0 <= j < entries[i].1.len() ==> (#[trigger] entries[i].1[j]).0
                    != code) implies !#[trigger] c[entries[i].0].contains_key(code) by {
            lemma_interface_found(entries, i);
            lemma_no_method(entries[i].1, code);
        }
    }
    assert forall|i: int, k: int| #[trigger] first_bad(entries, i, k) implies (r matches Err(
        CatalogError::Entry { iface, code },
    ) && iface@ == entries[i].0 && code == entries[i].1[k].0) by {
        lemma_first_bad(entries, 0, i, k);
    }
}

/// A catalog holds what it was built from.
pub proof fn law_catalog_holds_its_entries(
    entries: Vec<(String, Vec<(u32, Option<Method>)>)>,
    r: Result<Catalog, CatalogError>,
)
    requires
        call_ensures(Catalog::from_entries, (entries,), r),
    ensures
        is_built_from(contents(r), entries_view(entries@)),
{
    lemma_built(entries_view(entries@), contents(r));
}

/// What the catalog holds of a code is what it tells: the method's name, and its arguments
/// where they are known; nothing of an interface or a code that it does not hold.
pub proof fn law_catalog_tells_what_it_holds(
    c: &Catalog,
    iface: &str,
    code: u32,
    name: Option<&str>,
    args: Option<&[Arg]>,
)
    requires
        call_ensures(Catalog::method, (c, iface, code), name),
        call_ensures(Catalog::args, (c, iface, code), args),
    ensures
        ({
            let known = c@.contains_key(iface@) && c@[iface@].contains_key(code);
            &&& known ==> name is Some && name->0@ == c@[iface@][code].name
            &&& known ==> (match c@[iface@][code].args {
                Some(v) => args is Some && args_view(args->0@) == v,
                None => args is None,
            })
            &&& !known ==> name is None && args is None
        }),
{
}

/// Four characters packed into a transaction code, the first in the highest byte.
pub open spec fn packed(a: char, b: char, c: char, d: char) -> int {
    0x100_0000 * (a as u32) + 0x1_0000 * (b as u32) + 0x100 * (c as u32) + (d as u32)
}

/// The transactions that every Binder object answers go by the four characters of their
/// codes, and there is no other.
pub proof fn law_special_transactions(code: u32, r: Option<&'static str>)
    requires
        call_ensures(special_transaction, (code,), r),
    ensures
        code == packed('_', 'N', 'T', 'F') ==> r is Some && r->0@ == "INTERFACE"@,
        code == packed('_', 'D', 'M', 'P') ==> r is Some && r->0@ == "DUMP"@,
        code == packed('_', 'P', 'N', 'G') ==> r is Some && r->0@ == "PING"@,
        code == packed('_', 'S', 'P', 'R') ==> r is Some && r->0@ == "SYSPROPS"@,
        code == packed('_', 'C', 'M', 'D') ==> r is Some && r->0@ == "SHELL_CMD"@,
        r is Some ==> {
            ||| code == packed('_', 'N', 'T', 'F') || code == packed('_', 'D', 'M', 'P')
            ||| code == packed('_', 'P', 'N', 'G') || code == packed('_', 'S', 'P', 'R')
            ||| code == packed('_', 'C', 'M', 'D')
        },
{
}

/// The decoder names a special transaction for every interface, and any other as its
/// catalog does.
pub proof fn law_decoder_names_methods(
    d: &Decoder,
    iface: &str,
    code: u32,
    special: Option<&'static str>,
    r: Option<&str>,
)
    requires
        call_ensures(special_transaction, (code,), special),
        call_ensures(Decoder::method, (d, iface, code), r),
    ensures
        special matches Some(name) ==> r is Some && r->0@ == name@,
        special is None ==> ({
            let c = d.contents();
            let known = c.contains_key(iface@) && c[iface@].contains_key(code);
            &&& known ==> r is Some && r->0@ == c[iface@][code].name
            &&& !known ==> r is None
        }),
{
}

/// An argument is made of its name and its type, and of nothing less.
pub proof fn law_argument_needs_name_and_type(
    name: Option<String>,
    ty: Option<String>,
    r: Option<Arg>,
)
    requires
        call_ensures(Arg::from_parts, (name, ty), r),
    ensures
        r is Some <==> name is Some && ty is Some,
        r matches Some(a) ==> a.name@ == name->0@ && a.ty@ == ty->0@,
{
}

/// An entry that is a name is a method without arguments to tell; an object is the method of
/// its name, with the arguments that it lists, or none where it lists none. An object
/// without a name, with something else than a list, or with an unusable argument is no
/// method.
pub proof fn law_method_of_its_parts(
    bare: Option<String>,
    name: Option<String>,
    args: Option<Option<Vec<Option<Arg>>>>,
    r: Option<Method>,
)
    requires
        call_ensures(Method::from_parts, (bare, name, args), r),
    ensures
        bare matches Some(n) ==> (r matches Some(m) && m.name@ == n@ && m.args is None),
        bare is None && name is None ==> r is None,
        bare is None && args == Some(None::<Vec<Option<Arg>>>) ==> r is None,
        bare is None && args is None ==> (name matches Some(n) ==> (r matches Some(m) && m.name@
            == n@ && m.args is Some && m.args->0@.len() == 0)),
        bare is None ==> (name matches Some(n) ==> (args matches Some(Some(list)) ==> {
            &&& (forall|i: int| 0 <= i < list@.len() ==> (#[trigger] list@[i]) is Some) ==> (
            r matches Some(m) && m.name@ == n@ && m.args is Some && m.args->0@.len() == list@.len()
                && (forall|i: int|
                0 <= i < list@.len() ==> (#[trigger] m.args->0@[i])@ == list@[i]->0@))
            &&& (exists|i: int| 0 <= i < list@.len() && (#[trigger] list@[i]) is None) ==> r is None
        })),
{
    if bare is None && name is Some {
        if args is None {
            let m = r->0;
            assert(args_view(m.args->0@).len() == m.args->0@.len());
        }
        if args is Some && args->0 is Some {
            let list = args->0->0@;
            let views = arg_list_view(list);
            if forall|i: int| 0 <= i < list.len() ==> (#[trigger] list[i]) is Some {
                assert forall|i: int| 0 <= i < views.len() implies (
                #[trigger] views[i]) is Some by {
                    assert(list[i] is Some);
                }
                let a = r->0.args->0@;
                assert(args_view(a).len() == a.len());
                assert forall|i: int| 0 <= i < a.len() implies (#[trigger] a[i])@
                    == list[i]->0@ by {
                    assert(args_view(a)[i] == a[i]@);
                    assert(views[i] == Some(list[i]->0@));
                }
            }
            if exists|i: int| 0 <= i < list.len() && (#[trigger] list[i]) is None {
                let i = choose|i: int| 0 <= i < list.len() && (#[trigger] list[i]) is None;
                assert(views[i] is None);
            }
        }
    }
}

/// A field of a table is the value of the first entry of that key; there is none where no
/// entry has it.
pub proof fn law_field_is_found(
    table: &Vec<(String, String)>,
    key: &str,
    i: int,
    r: Option<&str>,
)
    requires
        call_ensures(field, (table, key), r),
    ensures
        0 <= i < table@.len() && table_view(table@)[i].0 == key@ && (forall|j: int|
            0 <= j < i ==> (#[trigger] table_view(table@)[j]).0 != key@) ==> r is Some && r->0@
            == table_view(table@)[i].1,
        (forall|j: int| 0 <= j < table@.len() ==> (#[trigger] table_view(table@)[j]).0 != key@)
            ==> r is None,
{
    let t = table_view(table@);
    if 0 <= i < t.len() && t[i].0 == key@ && (forall|j: int|
        0 <= j < i ==> (#[trigger] t[j]).0 != key@) {
        lemma_field(t, key@, 0, i);
    }
    if forall|j: int| 0 <= j < t.len() ==> (#[trigger] t[j]).0 != key@ {
        lemma_no_field(t, key@, 0);
    }
}

proof fn lemma_field(t: Seq<(Seq<char>, Seq<char>)>, key: Seq<char>, from: int, i: int)
    requires
        0 <= from <= i < t.len(),
        t[i].0 == key,
        forall|j: int| from <= j < i ==> (#[trigger] t[j]).0 != key,
    ensures
        field_from(t, key, from) == Some(t[i].1),
    decreases i - from,
{
    if from < i {
        assert(t[from].0 != key);
        lemma_field(t, key, from + 1, i);
    }
}

proof fn lemma_no_field(t: Seq<(Seq<char>, Seq<char>)>, key: Seq<char>, from: int)
    requires
        0 <= from,
        forall|j: int| from <= j < t.len() ==> (#[trigger] t[j]).0 != key,
    ensures
        field_from(t, key, from) is None,
    decreases t.len() - from,
{
    if from < t.len() {
        assert(t[from].0 != key);
        lemma_no_field(t, key, from + 1);
    }
}

/// A document of names alone is a catalog of those names, each under its interface and its
/// code, without arguments to tell.
pub proof fn law_names_are_loaded(
    json: &str,
    doc: Seq<(Seq<char>, Seq<(u32, Seq<char>)>)>,
    i: int,
    k: int,
    r: Result<Catalog, CatalogError>,
)
    requires
        call_ensures(Catalog::from_json, (json,), r),
        json_names(json@) == Some(doc),
        0 <= i < doc.len(),
        forall|j: int| i < j < doc.len() ==> (#[trigger] doc[j]).0 != doc[i].0,
        0 <= k < doc[i].1.len(),
        forall|j: int| k < j < doc[i].1.len() ==> (#[trigger] doc[i].1[j]).0 != doc[i].1[k].0,
    ensures
        r matches Ok(c) && {
            &&& c@.contains_key(doc[i].0)
            &&& c@[doc[i].0].contains_key(doc[i].1[k].0)
            &&& c@[doc[i].0][doc[i].1[k].0] == (MethodView { name: doc[i].1[k].1, args: None })
        },
{
    let entries = bare_entries(doc);
    lemma_built(entries, contents(r));
    assert(all_usable(entries));
    assert forall|j: int| i < j < entries.len() implies (#[trigger] entries[j]).0
        != entries[i].0 by {
        assert(doc[j].0 != doc[i].0);
    }
    let codes = entries[i].1;
    assert(codes == bare_codes(doc[i].1));
    assert forall|j: int| k < j < codes.len() implies (#[trigger] codes[j]).0 != codes[k].0 by {
        assert(doc[i].1[j].0 != doc[i].1[k].0);
    }
    assert(last_of_name(entries, i) && last_for_code(entries[i].1, k));
    assert(entries[i].1[k].0 == doc[i].1[k].0);
}

/// A document with a method object is a catalog of what its entries describe, where each of
/// them describes a method.
pub proof fn law_methods_are_loaded(
    json: &str,
    doc: Seq<(Seq<char>, Seq<(u32, Seq<char>)>)>,
    h: int,
    o: int,
    i: int,
    k: int,
    r: Result<Catalog, CatalogError>,
)
    requires
        call_ensures(Catalog::from_json, (json,), r),
        json_names(json@) is None,
        json_document(json@) == Some(doc),
        0 <= h < doc.len(),
        0 <= o < doc[h].1.len(),
        json_table(doc[h].1[o].1) is Some,
        forall|a: int, b: int|
            0 <= a < doc.len() && 0 <= b < doc[a].1.len() ==> json_method(
                (#[trigger] doc[a].1[b]).1,
            ) is Some,
        0 <= i < doc.len(),
        forall|j: int| i < j < doc.len() ==> (#[trigger] doc[j]).0 != doc[i].0,
        0 <= k < doc[i].1.len(),
        forall|j: int| k < j < doc[i].1.len() ==> (#[trigger] doc[i].1[j]).0 != doc[i].1[k].0,
    ensures
        r matches Ok(c) && {
            &&& c@.contains_key(doc[i].0)
            &&& c@[doc[i].0].contains_key(doc[i].1[k].0)
            &&& json_method(doc[i].1[k].1) == Some(c@[doc[i].0][doc[i].1[k].0])
        },
{
    let entries = json_entries(doc);
    assert(codes_hold_object(doc[h].1)) by {
        assert(json_table((doc[h].1[o]).1) is Some);
    }
    assert(holds_object(doc));
    lemma_built(entries, contents(r));
    assert forall|a: int, b: int| 0 <= a < entries.len() && 0 <= b < entries[a].1.len() implies (
    #[trigger] entries[a].1[b]).1 is Some by {
        assert(entries[a].1 == json_codes(doc[a].1));
        assert(json_method(doc[a].1[b].1) is Some);
    }
    assert forall|j: int| i < j < entries.len() implies (#[trigger] entries[j]).0
        != entries[i].0 by {
        assert(doc[j].0 != doc[i].0);
    }
    let codes = entries[i].1;
    assert(codes == json_codes(doc[i].1));
    assert forall|j: int| k < j < codes.len() implies (#[trigger] codes[j]).0 != codes[k].0 by {
        assert(doc[i].1[j].0 != doc[i].1[k].0);
    }
    assert(last_of_name(entries, i) && last_for_code(entries[i].1, k));
    assert(entries[i].1[k].0 == doc[i].1[k].0);
    assert(json_method(doc[i].1[k].1) is Some);
}

/// A text that is no document, or holds neither names alone nor a method object, is refused
/// as a document.
pub proof fn law_other_texts_are_refused(json: &str, r: Result<Catalog, CatalogError>)
    requires
        call_ensures(Catalog::from_json, (json,), r),
        json_names(json@) is None,
        json_document(json@) matches Some(doc) ==> forall|i: int, k: int|
            0 <= i < doc.len() && 0 <= k < doc[i].1.len() ==> json_table(
                (#[trigger] doc[i].1[k]).1,
            ) is None,
    ensures
        r is Err && r->Err_0 is Document,
{
    if json_document(json@) is Some {
        let doc = json_document(json@)->0;
        if holds_object(doc) {
            let i = choose|i: int| 0 <= i < doc.len() && codes_hold_object((#[trigger] doc[i]).1);
            let k = choose|k: int|
                0 <= k < doc[i].1.len() && json_table((#[trigger] doc[i].1[k]).1) is Some;
            assert(json_table(doc[i].1[k].1) is None);
        }
    }
}

/// An entry that is a JSON string is a method of that name. An entry that is a JSON object
/// has its name from `name` and its arguments from `args`, each from its own `name` and
/// `type`; without `args` it has none.
pub proof fn law_entry_is_described(
    raw: &str,
    table: Seq<(Seq<char>, Seq<char>)>,
    name: Seq<char>,
    raws: Seq<Seq<char>>,
    args: Seq<ArgView>,
    r: Option<Method>,
)
    requires
        call_ensures(Method::from_json, (raw,), r),
    ensures
        json_string(raw@) == Some(name) ==> (r matches Some(m) && m@ == (MethodView {
            name,
            args: None,
        })),
        json_string(raw@) is None && json_table(raw@) is None ==> r is None,
        json_string(raw@) is None && json_table(raw@) == Some(table) && has_text(
            table,
            "name"@,
            name,
        ) ==> {
            &&& field_from(table, "args"@, 0) is None ==> (r matches Some(m) && m@ == (MethodView {
                name,
                args: Some(seq![]),
            }))
            &&& (field_from(table, "args"@, 0) matches Some(list) && json_list(list) == Some(raws)
                && are_args(raws, args)) ==> (r matches Some(m) && m@ == (MethodView {
                name,
                args: Some(args),
            }))
        },
{
    if json_string(raw@) is None && json_table(raw@) == Some(table) && has_text(
        table,
        "name"@,
        name,
    ) {
        if field_from(table, "args"@, 0) is Some && json_list(field_from(table, "args"@, 0)->0)
            == Some(raws) && are_args(raws, args) {
            let list = json_args(raws);
            assert forall|i: int| 0 <= i < list.len() implies #[trigger] list[i]
                == Some(args[i]) by {
                assert(has_text(json_table(raws[i])->0, "name"@, args[i].name));
            }
            assert(Seq::new(list.len(), |i: int| list[i]->0) =~= args);
        }
    }
}

/// Whether the string `text` stands at `key` in a table.
pub open spec fn has_text(
    table: Seq<(Seq<char>, Seq<char>)>,
    key: Seq<char>,
    text: Seq<char>,
) -> bool {
    field_from(table, key, 0) matches Some(raw) && json_string(raw) == Some(text)
}

/// Whether the items of an array are objects with these names and types.
pub open spec fn are_args(raws: Seq<Seq<char>>, args: Seq<ArgView>) -> bool {
    &&& raws.len() == args.len()
    &&& forall|i: int|
        0 <= i < raws.len() ==> {
            &&& json_table(#[trigger] raws[i]) is Some
            &&& has_text(json_table(raws[i])->0, "name"@, args[i].name)
            &&& has_text(json_table(raws[i])->0, "type"@, args[i].ty)
        }
}

/// A catalog of names alone holds each of them.
pub proof fn law_name_table_is_held(
    names: Vec<(String, Vec<(u32, String)>)>,
    r: Result<Catalog, CatalogError>,
)
    requires
        call_ensures(Catalog::from_names, (names,), r),
    ensures
        r is Ok,
        is_built_from(contents(r), bare_entries(document_view(names@))),
{
    let entries = bare_entries(document_view(names@));
    lemma_built(entries, contents(r));
    assert(all_usable(entries));
}

/// A decoder has the catalog that it is made of, and is loaded from the same texts as a
/// catalog, with the same contents.
pub proof fn law_decoder_has_its_catalog(
    json: &str,
    d: Result<Decoder, CatalogError>,
    catalog: Catalog,
    made: Decoder,
    c: Result<Catalog, CatalogError>,
)
    requires
        call_ensures(Decoder::from_catalog_json, (json,), d),
        call_ensures(Catalog::from_json, (json,), c),
        call_ensures(Decoder::new, (catalog,), made),
    ensures
        made.contents() == catalog@,
        d is Ok <==> c is Ok,
        d is Ok ==> d->Ok_0.contents() == c->Ok_0@,
{
}

/// A catalog counts its interfaces, and is empty where it has none.
pub proof fn law_catalog_counts_interfaces(c: &Catalog, none: Catalog, n: usize, empty: bool)
    requires
        call_ensures(Catalog::empty, (), none),
        call_ensures(Catalog::len, (c,), n),
        call_ensures(Catalog::is_empty, (c,), empty),
    ensures
        none@ == Map::<Seq<char>, Map<u32, MethodView>>::empty(),
        n == c@.len(),
        empty == c@.is_empty(),
{
}

} // verus!
