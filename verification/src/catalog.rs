//! The AIDL catalog: interface descriptor, then transaction code, then method.

use std::collections::HashMap;
use vstd::hash_map::StringHashMap;
use vstd::prelude::*;

verus! {

broadcast use {
    vstd::std_specs::hash::group_hash_axioms,
    vstd::hash_map::group_hash_map_axioms,
};

/// One argument of a method: its name and its AIDL type.
#[derive(Debug)]
pub struct Arg {
    pub name: String,
    pub ty: String,
}

/// What an [`Arg`] says.
pub struct ArgView {
    pub name: Seq<char>,
    pub ty: Seq<char>,
}

impl View for Arg {
    type V = ArgView;

    open spec fn view(&self) -> ArgView {
        ArgView { name: self.name@, ty: self.ty@ }
    }
}

/// What a list of arguments says.
pub open spec fn args_view(args: Seq<Arg>) -> Seq<ArgView> {
    Seq::new(args.len(), |i: int| args[i]@)
}

/// A method of an interface. A name-only entry knows nothing of the arguments.
#[derive(Debug)]
pub struct Method {
    pub name: String,
    pub args: Option<Vec<Arg>>,
}

/// What a [`Method`] says.
pub struct MethodView {
    pub name: Seq<char>,
    pub args: Option<Seq<ArgView>>,
}

impl View for Method {
    type V = MethodView;

    open spec fn view(&self) -> MethodView {
        MethodView {
            name: self.name@,
            args: match self.args {
                Some(list) => Some(args_view(list@)),
                None => None,
            },
        }
    }
}

/// What an optional method says.
pub open spec fn option_view(m: Option<Method>) -> Option<MethodView> {
    match m {
        Some(m) => Some(m@),
        None => None,
    }
}

/// What the entries of one interface say, each a code and a method.
pub open spec fn codes_view(entries: Seq<(u32, Option<Method>)>) -> Seq<(u32, Option<MethodView>)> {
    Seq::new(entries.len(), |i: int| (entries[i].0, option_view(entries[i].1)))
}

/// What the entries of a catalog say, each an interface and its codes.
pub open spec fn entries_view(entries: Seq<(String, Vec<(u32, Option<Method>)>)>) -> Seq<
    (Seq<char>, Seq<(u32, Option<MethodView>)>),
> {
    Seq::new(entries.len(), |i: int| (entries[i].0@, codes_view(entries[i].1@)))
}

/// The methods of one interface by code; of two for one code the later one counts.
pub open spec fn methods_by_code(entries: Seq<(u32, Option<MethodView>)>) -> Map<u32, MethodView>
    decreases entries.len(),
{
    if entries.len() == 0 {
        Map::empty()
    } else {
        match entries.last().1 {
            Some(m) => methods_by_code(entries.drop_last()).insert(entries.last().0, m),
            None => methods_by_code(entries.drop_last()),
        }
    }
}

/// The interfaces by name; of two with one name the later one counts.
pub open spec fn interfaces_by_name(
    entries: Seq<(Seq<char>, Seq<(u32, Option<MethodView>)>)>,
) -> Map<Seq<char>, Map<u32, MethodView>>
    decreases entries.len(),
{
    if entries.len() == 0 {
        Map::empty()
    } else {
        interfaces_by_name(entries.drop_last()).insert(
            entries.last().0,
            methods_by_code(entries.last().1),
        )
    }
}

/// The position of the first unusable entry at or after `from`.
pub open spec fn first_unusable(entries: Seq<(u32, Option<MethodView>)>, from: int) -> Option<int>
    decreases entries.len() - from,
{
    if from < 0 || from >= entries.len() {
        None
    } else if entries[from].1 is None {
        Some(from)
    } else {
        first_unusable(entries, from + 1)
    }
}

/// The first interface at or after `from` that has an unusable entry, and that
/// entry's code.
pub open spec fn first_unusable_method(
    entries: Seq<(Seq<char>, Seq<(u32, Option<MethodView>)>)>,
    from: int,
) -> Option<(Seq<char>, u32)>
    decreases entries.len() - from,
{
    if from < 0 || from >= entries.len() {
        None
    } else {
        match first_unusable(entries[from].1, 0) {
            Some(k) => Some((entries[from].0, entries[from].1[k].0)),
            None => first_unusable_method(entries, from + 1),
        }
    }
}

/// Whether building a catalog from these entries comes out as `r`: the first unusable
/// entry as the error, and all the interfaces where there is none.
pub open spec fn builds(
    entries: Seq<(Seq<char>, Seq<(u32, Option<MethodView>)>)>,
    r: Result<Map<Seq<char>, Map<u32, MethodView>>, CatalogError>,
) -> bool {
    match (r, first_unusable_method(entries, 0)) {
        (Ok(c), None) => c == interfaces_by_name(entries),
        (Err(CatalogError::Entry { iface, code }), Some(at)) => iface@ == at.0 && code == at.1,
        _ => false,
    }
}

/// Why a catalog could not be built.
#[derive(Debug)]
pub enum CatalogError {
    /// The text is not a JSON object of interfaces, each an object by transaction code, or
    /// it has no method objects and an entry that is no name.
    Document(serde_json::Error),
    /// The entry for `code` of `iface` is neither a method name nor a method object.
    Entry { iface: String, code: u32 },
}

/// The error that the JSON reader gives for a text that it refuses.
#[verifier::external_type_specification]
#[verifier::external_body]
pub struct ExJsonError(serde_json::Error);

/// A precompiled AIDL catalog: interface descriptor, then transaction code, then
/// method.
pub struct Catalog {
    interfaces: StringHashMap<HashMap<u32, Method>>,
}

/// The methods in a table.
pub open spec fn table_view(m: HashMap<u32, Method>) -> Map<u32, MethodView> {
    m@.map_values(|e: Method| e@)
}

impl View for Catalog {
    type V = Map<Seq<char>, Map<u32, MethodView>>;

    closed spec fn view(&self) -> Self::V {
        self.interfaces@.map_values(|m: HashMap<u32, Method>| table_view(m))
    }
}

/// The contents of a catalog, where there is one.
pub open spec fn contents(r: Result<Catalog, CatalogError>) -> Result<
    Map<Seq<char>, Map<u32, MethodView>>,
    CatalogError,
> {
    match r {
        Ok(c) => Ok(c@),
        Err(e) => Err(e),
    }
}

/// What the catalog `c` knows of `code` of the interface `iface`.
pub open spec fn lookup(
    c: Map<Seq<char>, Map<u32, MethodView>>,
    iface: Seq<char>,
    code: u32,
) -> Option<MethodView> {
    if c.contains_key(iface) && c[iface].contains_key(code) {
        Some(c[iface][code])
    } else {
        None
    }
}

/// The name that the catalog `c` has for `code` of the interface `iface`.
pub open spec fn catalog_method(
    c: Map<Seq<char>, Map<u32, MethodView>>,
    iface: Seq<char>,
    code: u32,
) -> Option<Seq<char>> {
    match lookup(c, iface, code) {
        Some(m) => Some(m.name),
        None => None,
    }
}

/// The arguments that the catalog `c` has for `code` of the interface `iface`.
pub open spec fn catalog_args(
    c: Map<Seq<char>, Map<u32, MethodView>>,
    iface: Seq<char>,
    code: u32,
) -> Option<Seq<ArgView>> {
    match lookup(c, iface, code) {
        Some(m) => m.args,
        None => None,
    }
}

impl Catalog {
    /// An empty catalog. Special transactions still resolve: they belong to no interface.
    pub fn empty() -> (r: Self)
        ensures
            r@ == Map::<Seq<char>, Map<u32, MethodView>>::empty(),
    {
        let r = Self { interfaces: StringHashMap::new() };
        assert(r@ =~= Map::<Seq<char>, Map<u32, MethodView>>::empty());
        r
    }

    /// Builds a catalog from its entries. `None` stands for an entry that is neither a
    /// method name nor a method object; the first such entry is the error.
    pub fn from_entries(entries: Vec<(String, Vec<(u32, Option<Method>)>)>) -> (r: Result<
        Self,
        CatalogError,
    >)
        ensures
            builds(entries_view(entries@), contents(r)),
    {
        let mut catalog: Catalog = Catalog::empty();
        let ghost views = entries_view(entries@);
        for entry in it: entries
            invariant
                it.seq() == entries@,
                views == entries_view(entries@),
                first_unusable_method(views, 0) == first_unusable_method(views, it.index() as int),
                catalog@ == interfaces_by_name(views.take(it.index() as int)),
        {
            let ghost i = it.index() as int;
            let (iface, methods) = entry;
            let ghost methods0 = methods@;
            let ghost codes = views[i].1;
            assert(codes == codes_view(methods0));
            let mut table: HashMap<u32, Method> = HashMap::new();
            assert(table_view(table) =~= Map::<u32, MethodView>::empty());
            for method in mit: methods
                invariant
                    mit.seq() == methods0,
                    0 <= i < views.len(),
                    views[i].0 == iface@,
                    views[i].1 == codes,
                    codes == codes_view(methods0),
                    views == entries_view(entries@),
                    first_unusable_method(views, 0) == first_unusable_method(views, i),
                    first_unusable(codes, 0) == first_unusable(codes, mit.index() as int),
                    table_view(table) == methods_by_code(codes.take(mit.index() as int)),
            {
                let ghost k = mit.index() as int;
                let (code, m) = method;
                assert(codes[k] == (code, option_view(m)));
                match m {
                    Some(m) => {
                        let ghost before = table;
                        table.insert(code, m);
                        proof {
                            assert(codes.take(k + 1).drop_last() =~= codes.take(k));
                            assert(table_view(table) =~= table_view(before).insert(code, m@));
                        }
                    },
                    None => {
                        return Err(CatalogError::Entry { iface, code });
                    },
                }
            }
            proof {
                assert(codes.take(codes.len() as int) =~= codes);
                assert(views.take(i + 1).drop_last() =~= views.take(i));
            }
            let ghost before = catalog;
            let ghost name = iface@;
            catalog.interfaces.insert(iface, table);
            assert(catalog@ =~= before@.insert(name, table_view(table)));
        }
        assert(views.take(views.len() as int) =~= views);
        Ok(catalog)
    }

    /// Number of interfaces covered.
    pub fn len(&self) -> (r: usize)
        ensures
            r == self@.len(),
    {
        assert(self@.dom() =~= self.interfaces@.dom());
        self.interfaces.len()
    }

    /// True if the catalog covers no interfaces.
    pub fn is_empty(&self) -> (r: bool)
        ensures
            r == self@.is_empty(),
    {
        assert(self@.dom() =~= self.interfaces@.dom());
        self.interfaces.is_empty()
    }

    fn entry(&self, iface: &str, code: u32) -> (r: Option<&Method>)
        ensures
            match (r, lookup(self@, iface@, code)) {
                (Some(m), Some(v)) => m@ == v,
                (None, None) => true,
                _ => false,
            },
    {
        match self.interfaces.get(iface) {
            Some(table) => table.get(&code),
            None => None,
        }
    }

    /// Method name for a normal AIDL call, if the interface and the code are known.
    /// Does not cover special transactions: see [`special_transaction`].
    pub fn method(&self, iface: &str, code: u32) -> (r: Option<&str>)
        ensures
            match (r, catalog_method(self@, iface@, code)) {
                (Some(name), Some(v)) => name@ == v,
                (None, None) => true,
                _ => false,
            },
    {
        match self.entry(iface, code) {
            Some(m) => Some(m.name.as_str()),
            None => None,
        }
    }

    /// Argument types of a normal AIDL call, if the interface and the code are known
    /// and the entry carries arguments.
    pub fn args(&self, iface: &str, code: u32) -> (r: Option<&[Arg]>)
        ensures
            match (r, catalog_args(self@, iface@, code)) {
                (Some(list), Some(v)) => args_view(list@) == v,
                (None, None) => true,
                _ => false,
            },
    {
        match self.entry(iface, code) {
            Some(m) => match &m.args {
                Some(list) => Some(list.as_slice()),
                None => None,
            },
            None => None,
        }
    }
}

/// The name of a transaction that every Binder object answers, by its code.
pub open spec fn special_name(code: u32) -> Option<Seq<char>> {
    if code == 0x5f4e5446 {
        Some("INTERFACE"@)
    } else if code == 0x5f444d50 {
        Some("DUMP"@)
    } else if code == 0x5f504e47 {
        Some("PING"@)
    } else if code == 0x5f535052 {
        Some("SYSPROPS"@)
    } else if code == 0x5f434d44 {
        Some("SHELL_CMD"@)
    } else {
        None
    }
}

/// Well-known transaction codes shared by every Binder object (`IBinder`), packed from
/// four characters. They live outside the AIDL call range and are the same for every
/// interface, so they resolve without a catalog.
pub fn special_transaction(code: u32) -> (r: Option<&'static str>)
    ensures
        match (r, special_name(code)) {
            (Some(name), Some(v)) => name@ == v,
            (None, None) => true,
            _ => false,
        },
{
    match code {
        0x5f4e5446 => Some("INTERFACE"),  // _NTF, getInterfaceDescriptor
        0x5f444d50 => Some("DUMP"),  // _DMP
        0x5f504e47 => Some("PING"),  // _PNG
        0x5f535052 => Some("SYSPROPS"),  // _SPR
        0x5f434d44 => Some("SHELL_CMD"),  // _CMD
        _ => None,
    }
}

} // verus!
