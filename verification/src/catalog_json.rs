//! Loading a catalog from JSON.
//!
//! A catalog is an object of interfaces, each an object by transaction code. An entry
//! is a method name, or an object with the method's name and its arguments:
//!
//! ```json
//! {
//!   "android.app.IActivityManager": { "1": "getTasks" },
//!   "android.os.IPowerManager": {
//!     "1": { "name": "acquireWakeLock", "args": [{ "name": "flags", "type": "int" }] }
//!   }
//! }
//! ```

use crate::catalog::{
    args_view, builds, codes_view, contents, entries_view, option_view, Arg, ArgView, Catalog,
    CatalogError, Method, MethodView,
};
use crate::decode::Decoder;
use crate::text::{same_text, text_of, texts};
use serde_json::value::RawValue;
use std::collections::BTreeMap;
use vstd::prelude::*;

verus! {

/// What a table of strings holds.
pub open spec fn table_view(v: Seq<(String, String)>) -> Seq<(Seq<char>, Seq<char>)> {
    Seq::new(v.len(), |i: int| (v[i].0@, v[i].1@))
}

/// What the entries of an interface hold.
pub open spec fn raw_codes_view(v: Seq<(u32, String)>) -> Seq<(u32, Seq<char>)> {
    Seq::new(v.len(), |i: int| (v[i].0, v[i].1@))
}

/// What the interfaces of a document hold.
pub open spec fn document_view(v: Seq<(String, Vec<(u32, String)>)>) -> Seq<
    (Seq<char>, Seq<(u32, Seq<char>)>),
> {
    Seq::new(v.len(), |i: int| (v[i].0@, raw_codes_view(v[i].1@)))
}

/// What `serde_json::from_str` reads from `text` as an object of objects by number, each
/// value left as JSON text.
pub uninterp spec fn json_document(text: Seq<char>) -> Option<
    Seq<(Seq<char>, Seq<(u32, Seq<char>)>)>,
>;

/// What `serde_json::from_str` reads from `text` as an object of objects by number, each
/// value a string.
pub uninterp spec fn json_names(text: Seq<char>) -> Option<
    Seq<(Seq<char>, Seq<(u32, Seq<char>)>)>,
>;

/// What `serde_json::from_str` reads from `text` as a string.
pub uninterp spec fn json_string(text: Seq<char>) -> Option<Seq<char>>;

/// What `serde_json::from_str` reads from `text` as an object, each value left as JSON
/// text.
pub uninterp spec fn json_table(text: Seq<char>) -> Option<Seq<(Seq<char>, Seq<char>)>>;

/// What `serde_json::from_str` reads from `text` as an array, each item left as JSON
/// text.
pub uninterp spec fn json_list(text: Seq<char>) -> Option<Seq<Seq<char>>>;

/// Reads a JSON object of objects by number with `serde_json::from_str`, the values kept
/// as `RawValue` text, both objects in key order. The result depends on `text` alone.
#[verifier::external_body]
fn read_document(text: &str) -> (r: Option<Vec<(String, Vec<(u32, String)>)>>)
    ensures
        match r {
            Some(d) => json_document(text@) == Some(document_view(d@)),
            None => json_document(text@) is None,
        },
{
    let read: Option<BTreeMap<String, BTreeMap<u32, Box<RawValue>>>> =
        serde_json::from_str(text).ok();
    read.map(
        |d|
            d.into_iter().map(
                |(k, m)| (k, m.into_iter().map(|(c, v)| (c, v.get().to_owned())).collect()),
            ).collect(),
    )
}

/// Reads a JSON object of objects by number with `serde_json::from_str`, where every value
/// is a string, both objects in key order. The result depends on `text` alone.
#[verifier::external_body]
fn read_names(text: &str) -> (r: Result<Vec<(String, Vec<(u32, String)>)>, serde_json::Error>)
    ensures
        match r {
            Ok(d) => json_names(text@) == Some(document_view(d@)),
            Err(_) => json_names(text@) is None,
        },
{
    let read: Result<BTreeMap<String, BTreeMap<u32, String>>, serde_json::Error> =
        serde_json::from_str(text);
    read.map(|d| d.into_iter().map(|(k, m)| (k, m.into_iter().collect())).collect())
}

/// Reads a JSON string with `serde_json::from_str`. The result depends on `text` alone.
#[verifier::external_body]
fn read_string(text: &str) -> (r: Option<String>)
    ensures
        match r {
            Some(s) => json_string(text@) == Some(s@),
            None => json_string(text@) is None,
        },
{
    serde_json::from_str::<String>(text).ok()
}

/// Reads a JSON object with `serde_json::from_str`, the values kept as `RawValue` text,
/// in key order. The result depends on `text` alone.
#[verifier::external_body]
fn read_table(text: &str) -> (r: Option<Vec<(String, String)>>)
    ensures
        match r {
            Some(t) => json_table(text@) == Some(table_view(t@)),
            None => json_table(text@) is None,
        },
{
    let read: Option<BTreeMap<String, Box<RawValue>>> = serde_json::from_str(text).ok();
    read.map(|t| t.into_iter().map(|(k, v)| (k, v.get().to_owned())).collect())
}

/// Reads a JSON array with `serde_json::from_str`, the items kept as `RawValue` text. The
/// result depends on `text` alone.
#[verifier::external_body]
fn read_list(text: &str) -> (r: Option<Vec<String>>)
    ensures
        match r {
            Some(l) => json_list(text@) == Some(texts(l@)),
            None => json_list(text@) is None,
        },
{
    let read: Option<Vec<Box<RawValue>>> = serde_json::from_str(text).ok();
    read.map(|l| l.into_iter().map(|v| v.get().to_owned()).collect())
}

/// The value at `key` in a table.
pub open spec fn field_from(table: Seq<(Seq<char>, Seq<char>)>, key: Seq<char>, i: int) -> Option<
    Seq<char>,
>
    decreases table.len() - i,
{
    if i < 0 || i >= table.len() {
        None
    } else if table[i].0 == key {
        Some(table[i].1)
    } else {
        field_from(table, key, i + 1)
    }
}

/// The string at `key` in a table.
pub open spec fn text_field(table: Seq<(Seq<char>, Seq<char>)>, key: Seq<char>) -> Option<
    Seq<char>,
> {
    match field_from(table, key, 0) {
        Some(raw) => json_string(raw),
        None => None,
    }
}

/// The argument that its name and its type make, where both are there.
pub open spec fn arg_of(name: Option<Seq<char>>, ty: Option<Seq<char>>) -> Option<ArgView> {
    match (name, ty) {
        (Some(name), Some(ty)) => Some(ArgView { name, ty }),
        _ => None,
    }
}

/// The argument that a JSON text describes.
pub open spec fn json_arg(raw: Seq<char>) -> Option<ArgView> {
    match json_table(raw) {
        Some(table) => arg_of(text_field(table, "name"@), text_field(table, "type"@)),
        None => None,
    }
}

/// A list of arguments, where every one of them is usable.
pub open spec fn all_args(list: Seq<Option<ArgView>>) -> Option<Seq<ArgView>> {
    if forall|i: int| 0 <= i < list.len() ==> (#[trigger] list[i]) is Some {
        Some(Seq::new(list.len(), |i: int| list[i]->0))
    } else {
        None
    }
}

/// The method that the parts of an entry make. `bare` is the entry where it is a string;
/// else `name` is the string at `name`, and `args` says whether there is anything at
/// `args`, whether that is a list, and what its items are.
pub open spec fn method_of(
    bare: Option<Seq<char>>,
    name: Option<Seq<char>>,
    args: Option<Option<Seq<Option<ArgView>>>>,
) -> Option<MethodView> {
    match (bare, name, args) {
        (Some(name), _, _) => Some(MethodView { name, args: None }),
        (None, Some(name), None) => Some(MethodView { name, args: Some(seq![]) }),
        (None, Some(name), Some(Some(list))) => match all_args(list) {
            Some(args) => Some(MethodView { name, args: Some(args) }),
            None => None,
        },
        _ => None,
    }
}

/// The items of an array of arguments.
pub open spec fn json_args(raws: Seq<Seq<char>>) -> Seq<Option<ArgView>> {
    Seq::new(raws.len(), |i: int| json_arg(raws[i]))
}

/// What stands at `args` in an entry's table.
pub open spec fn args_field(table: Seq<(Seq<char>, Seq<char>)>) -> Option<
    Option<Seq<Option<ArgView>>>,
> {
    match field_from(table, "args"@, 0) {
        Some(raw) => match json_list(raw) {
            Some(raws) => Some(Some(json_args(raws))),
            None => Some(None),
        },
        None => None,
    }
}

/// The method that a JSON text describes.
pub open spec fn json_method(raw: Seq<char>) -> Option<MethodView> {
    match (json_string(raw), json_table(raw)) {
        (None, Some(table)) => method_of(None, text_field(table, "name"@), args_field(table)),
        (bare, _) => method_of(bare, None, None),
    }
}

/// The entries of one interface, read.
pub open spec fn json_codes(raws: Seq<(u32, Seq<char>)>) -> Seq<(u32, Option<MethodView>)> {
    Seq::new(raws.len(), |i: int| (raws[i].0, json_method(raws[i].1)))
}

/// The entries of a document, read.
pub open spec fn json_entries(doc: Seq<(Seq<char>, Seq<(u32, Seq<char>)>)>) -> Seq<
    (Seq<char>, Seq<(u32, Option<MethodView>)>),
> {
    Seq::new(doc.len(), |i: int| (doc[i].0, json_codes(doc[i].1)))
}

/// The method that a name alone makes.
pub open spec fn bare_method(name: Seq<char>) -> Option<MethodView> {
    Some(MethodView { name, args: None })
}

/// The entries of one interface that are names alone.
pub open spec fn bare_codes(names: Seq<(u32, Seq<char>)>) -> Seq<(u32, Option<MethodView>)> {
    Seq::new(names.len(), |i: int| (names[i].0, bare_method(names[i].1)))
}

/// The entries of a document in which every entry is a name.
pub open spec fn bare_entries(doc: Seq<(Seq<char>, Seq<(u32, Seq<char>)>)>) -> Seq<
    (Seq<char>, Seq<(u32, Option<MethodView>)>),
> {
    Seq::new(doc.len(), |i: int| (doc[i].0, bare_codes(doc[i].1)))
}

/// Whether one of the entries of an interface is an object.
pub open spec fn codes_hold_object(raws: Seq<(u32, Seq<char>)>) -> bool {
    exists|k: int| 0 <= k < raws.len() && json_table((#[trigger] raws[k]).1) is Some
}

/// Whether one of the entries of a document is an object.
pub open spec fn holds_object(doc: Seq<(Seq<char>, Seq<(u32, Seq<char>)>)>) -> bool {
    exists|i: int| 0 <= i < doc.len() && codes_hold_object((#[trigger] doc[i]).1)
}

/// Whether loading a catalog from `json` comes out as `r`: a document in which every value
/// is a name is read as such, and one with a method object by its entries.
pub open spec fn loads(
    json: Seq<char>,
    r: Result<Map<Seq<char>, Map<u32, MethodView>>, CatalogError>,
) -> bool {
    match (json_names(json), json_document(json)) {
        (Some(names), _) => builds(bare_entries(names), r),
        (None, Some(doc)) if holds_object(doc) => builds(json_entries(doc), r),
        _ => r is Err && r->Err_0 is Document,
    }
}

/// The value at `key` in a table.
pub fn field<'a>(table: &'a Vec<(String, String)>, key: &str) -> (r: Option<&'a str>)
    ensures
        match (r, field_from(table_view(table@), key@, 0)) {
            (Some(s), Some(v)) => s@ == v,
            (None, None) => true,
            _ => false,
        },
{
    let ghost view = table_view(table@);
    let mut i: usize = 0;
    while i < table.len()
        invariant
            i <= table@.len(),
            view == table_view(table@),
            field_from(view, key@, 0) == field_from(view, key@, i as int),
        decreases table@.len() - i,
    {
        assert(view[i as int] == (table@[i as int].0@, table@[i as int].1@));
        if same_text(&table[i].0, key) {
            return Some(table[i].1.as_str());
        }
        i += 1;
    }
    None
}

/// The string at `key` in a table.
fn string_field(table: &Vec<(String, String)>, key: &str) -> (r: Option<String>)
    ensures
        match (r, text_field(table_view(table@), key@)) {
            (Some(s), Some(v)) => s@ == v,
            (None, None) => true,
            _ => false,
        },
{
    match field(table, key) {
        Some(raw) => read_string(raw),
        None => None,
    }
}

/// What an optional argument says.
pub open spec fn arg_view(a: Option<Arg>) -> Option<ArgView> {
    match a {
        Some(a) => Some(a@),
        None => None,
    }
}

/// What a list of optional arguments says.
pub open spec fn arg_list_view(list: Seq<Option<Arg>>) -> Seq<Option<ArgView>> {
    Seq::new(list.len(), |i: int| arg_view(list[i]))
}

impl Arg {
    /// The argument that its name and its type make, where both are there.
    pub fn from_parts(name: Option<String>, ty: Option<String>) -> (r: Option<Arg>)
        ensures
            arg_view(r) == arg_of(text_of(name), text_of(ty)),
    {
        match (name, ty) {
            (Some(name), Some(ty)) => Some(Arg { name, ty }),
            _ => None,
        }
    }

    /// The argument that a JSON text describes.
    pub fn from_json(raw: &str) -> (r: Option<Arg>)
        ensures
            arg_view(r) == json_arg(raw@),
    {
        match read_table(raw) {
            Some(table) => Arg::from_parts(
                string_field(&table, "name"),
                string_field(&table, "type"),
            ),
            None => None,
        }
    }
}

/// The arguments of a list, where every one of them is usable.
fn collect_args(list: Vec<Option<Arg>>) -> (r: Option<Vec<Arg>>)
    ensures
        match (r, all_args(arg_list_view(list@))) {
            (Some(args), Some(v)) => args_view(args@) == v,
            (None, None) => true,
            _ => false,
        },
{
    let ghost items = arg_list_view(list@);
    let mut out: Vec<Arg> = Vec::new();
    for item in it: list
        invariant
            it.seq() == list@,
            items == arg_list_view(list@),
            out@.len() == it.index(),
            forall|k: int|
                0 <= k < it.index() ==> (#[trigger] items[k]) is Some && items[k]->0 == out@[k]@,
    {
        let ghost k = it.index() as int;
        assert(items[k] == arg_view(item));
        match item {
            Some(a) => out.push(a),
            None => {
                assert(!(items[k] is Some));
                return None;
            },
        }
    }
    assert(args_view(out@) =~= all_args(items)->0);
    Some(out)
}

impl Method {
    /// The method that the parts of an entry make. `bare` is the entry where it is a
    /// string; else `name` is the string at `name`, and `args` says whether there is
    /// anything at `args`, whether that is a list, and what its items are.
    pub fn from_parts(
        bare: Option<String>,
        name: Option<String>,
        args: Option<Option<Vec<Option<Arg>>>>,
    ) -> (r: Option<Method>)
        ensures
            option_view(r) == method_of(
                text_of(bare),
                text_of(name),
                match args {
                    Some(Some(list)) => Some(Some(arg_list_view(list@))),
                    Some(None) => Some(None),
                    None => None,
                },
            ),
    {
        match bare {
            Some(name) => Some(Method { name, args: None }),
            None => match name {
                Some(name) => match args {
                    Some(Some(list)) => match collect_args(list) {
                        Some(args) => Some(Method { name, args: Some(args) }),
                        None => None,
                    },
                    Some(None) => None,
                    None => {
                        let none: Vec<Arg> = Vec::new();
                        assert(args_view(none@) =~= Seq::<ArgView>::empty());
                        Some(Method { name, args: Some(none) })
                    },
                },
                None => None,
            },
        }
    }

    /// The method that a JSON text describes: a name, or an object with a name and
    /// arguments.
    pub fn from_json(raw: &str) -> (r: Option<Method>)
        ensures
            option_view(r) == json_method(raw@),
    {
        match (read_string(raw), read_table(raw)) {
            (None, Some(table)) => {
                let args: Option<Option<Vec<Option<Arg>>>> = match field(&table, "args") {
                    Some(list) => match read_list(list) {
                        Some(raws) => Some(Some(read_args(&raws))),
                        None => Some(None),
                    },
                    None => None,
                };
                Method::from_parts(None, string_field(&table, "name"), args)
            },
            (bare, _) => Method::from_parts(bare, None, None),
        }
    }
}

/// The items of an array of arguments.
fn read_args(raws: &Vec<String>) -> (r: Vec<Option<Arg>>)
    ensures
        arg_list_view(r@) == json_args(texts(raws@)),
{
    let mut out: Vec<Option<Arg>> = Vec::new();
    let ghost goal = json_args(texts(raws@));
    let mut i: usize = 0;
    while i < raws.len()
        invariant
            i <= raws@.len(),
            goal == json_args(texts(raws@)),
            arg_list_view(out@) =~= goal.take(i as int),
        decreases raws@.len() - i,
    {
        let ghost before = out@;
        let arg: Option<Arg> = Arg::from_json(&raws[i]);
        out.push(arg);
        proof {
            assert(arg_list_view(out@) =~= arg_list_view(before).push(arg_view(arg)));
        }
        i += 1;
    }
    out
}

/// The entries of one interface.
fn read_codes(raws: &Vec<(u32, String)>) -> (r: Vec<(u32, Option<Method>)>)
    ensures
        codes_view(r@) == json_codes(raw_codes_view(raws@)),
{
    let mut out: Vec<(u32, Option<Method>)> = Vec::new();
    let ghost goal = json_codes(raw_codes_view(raws@));
    let mut i: usize = 0;
    while i < raws.len()
        invariant
            i <= raws@.len(),
            goal == json_codes(raw_codes_view(raws@)),
            codes_view(out@) =~= goal.take(i as int),
        decreases raws@.len() - i,
    {
        let ghost before = out@;
        let method: Option<Method> = Method::from_json(&raws[i].1);
        out.push((raws[i].0, method));
        proof {
            assert(codes_view(out@) =~= codes_view(before).push(
                (raws@[i as int].0, option_view(method)),
            ));
        }
        i += 1;
    }
    out
}

/// Tells whether one of the entries of an interface is an object.
fn find_object(raws: &Vec<(u32, String)>) -> (r: bool)
    ensures
        r == codes_hold_object(raw_codes_view(raws@)),
{
    let ghost view = raw_codes_view(raws@);
    let mut k: usize = 0;
    while k < raws.len()
        invariant
            k <= raws@.len(),
            view == raw_codes_view(raws@),
            forall|j: int| 0 <= j < k ==> json_table((#[trigger] view[j]).1) is None,
        decreases raws@.len() - k,
    {
        assert(view[k as int].1 == raws@[k as int].1@);
        if read_table(&raws[k].1).is_some() {
            return true;
        }
        k += 1;
    }
    false
}

/// The entries of one interface that are names alone.
fn name_codes(names: Vec<(u32, String)>) -> (r: Vec<(u32, Option<Method>)>)
    ensures
        codes_view(r@) == bare_codes(raw_codes_view(names@)),
{
    let mut out: Vec<(u32, Option<Method>)> = Vec::new();
    let ghost goal = bare_codes(raw_codes_view(names@));
    for entry in it: names
        invariant
            it.seq() == names@,
            goal == bare_codes(raw_codes_view(names@)),
            codes_view(out@) =~= goal.take(it.index() as int),
    {
        let ghost before = out@;
        let ghost k = it.index() as int;
        let (code, name) = entry;
        let ghost view = (code, bare_method(name@));
        out.push((code, Some(Method { name, args: None })));
        proof {
            assert(goal[k] == view);
            assert(codes_view(out@) =~= codes_view(before).push(view));
        }
    }
    assert(codes_view(out@) =~= goal);
    out
}

impl Catalog {
    /// Builds a catalog of names alone.
    pub fn from_names(names: Vec<(String, Vec<(u32, String)>)>) -> (r: Result<Self, CatalogError>)
        ensures
            builds(bare_entries(document_view(names@)), contents(r)),
    {
        let mut entries: Vec<(String, Vec<(u32, Option<Method>)>)> = Vec::new();
        let ghost goal = bare_entries(document_view(names@));
        for item in it: names
            invariant
                it.seq() == names@,
                goal == bare_entries(document_view(names@)),
                entries_view(entries@) =~= goal.take(it.index() as int),
        {
            let ghost before = entries@;
            let ghost i = it.index() as int;
            let (iface, codes) = item;
            let codes: Vec<(u32, Option<Method>)> = name_codes(codes);
            let ghost view = (iface@, codes_view(codes@));
            entries.push((iface, codes));
            proof {
                assert(document_view(names@)[i] == (names@[i].0@, raw_codes_view(names@[i].1@)));
                assert(goal[i] == view);
                assert(entries_view(entries@) =~= entries_view(before).push(view));
            }
        }
        assert(entries_view(entries@) =~= goal);
        Catalog::from_entries(entries)
    }

    /// Parses a catalog from its JSON representation.
    pub fn from_json(json: &str) -> (r: Result<Self, CatalogError>)
        ensures
            loads(json@, contents(r)),
    {
        let error: serde_json::Error = match read_names(json) {
            Ok(names) => {
                return Catalog::from_names(names);
            },
            Err(e) => e,
        };
        let doc: Vec<(String, Vec<(u32, String)>)> = match read_document(json) {
            Some(d) => d,
            None => {
                return Err(CatalogError::Document(error));
            },
        };
        let ghost view = document_view(doc@);
        let ghost goal = json_entries(view);
        let mut entries: Vec<(String, Vec<(u32, Option<Method>)>)> = Vec::new();
        let mut object: bool = false;
        let mut i: usize = 0;
        while i < doc.len()
            invariant
                i <= doc@.len(),
                view == document_view(doc@),
                goal == json_entries(view),
                entries_view(entries@) =~= goal.take(i as int),
                object == exists|j: int| 0 <= j < i && codes_hold_object((#[trigger] view[j]).1),
            decreases doc@.len() - i,
        {
            let ghost before = entries@;
            let iface: String = doc[i].0.clone();
            let here: bool = find_object(&doc[i].1);
            let codes: Vec<(u32, Option<Method>)> = read_codes(&doc[i].1);
            let ghost item = (iface@, codes_view(codes@));
            entries.push((iface, codes));
            proof {
                assert(view[i as int] == (doc@[i as int].0@, raw_codes_view(doc@[i as int].1@)));
                assert(entries_view(entries@) =~= entries_view(before).push(item));
                if object {
                    let j = choose|j: int| 0 <= j < i && codes_hold_object((#[trigger] view[j]).1);
                    assert(codes_hold_object(view[j].1));
                }
                if here {
                    assert(codes_hold_object(view[i as int].1));
                }
            }
            object = object || here;
            i += 1;
        }
        if !object {
            return Err(CatalogError::Document(error));
        }
        assert(entries_view(entries@) =~= goal);
        Catalog::from_entries(entries)
    }
}

impl Decoder {
    /// Builds a decoder from catalog JSON (see [`Catalog::from_json`]).
    pub fn from_catalog_json(json: &str) -> (r: Result<Self, CatalogError>)
        ensures
            loads(
                json@,
                match r {
                    Ok(d) => Ok(d.contents()),
                    Err(e) => Err(e),
                },
            ),
    {
        match Catalog::from_json(json) {
            Ok(c) => Ok(Decoder::new(c)),
            Err(e) => Err(e),
        }
    }
}

} // verus!
