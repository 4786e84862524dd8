//! The in-kernel interface filter: which map updates replace one set of wanted
//! interfaces by another, and what is wanted after them.

use crate::event::IfaceKey;
use crate::iface::{iface_key, key_bytes};
use crate::text::{
    find, find_from, is_white, lemma_find_first, lemma_find_is, lemma_find_none, lemma_find_past,
    lemma_run_end, lemma_run_end_is, lemma_run_start, lemma_run_start_is, occurs_at, push_text,
    run_end, run_start, string_of, text_of_str, texts, trim, trim_end, trim_start, trimmed,
    CharClass,
};
use vstd::prelude::*;
use vstd::slice::slice_subrange;

verus! {

/// `t` as a list of one, or of none where it is empty.
pub open spec fn non_blank(t: Seq<char>) -> Seq<Seq<char>> {
    if t.len() > 0 {
        seq![t]
    } else {
        seq![]
    }
}

/// The names in a comma-separated list, trimmed; blanks are left out.
pub open spec fn listed(s: Seq<char>) -> Seq<Seq<char>>
    decreases s.len(),
{
    match find_from(s, ","@, 0) {
        Some(i) if 0 <= i < s.len() => non_blank(trim(s.take(i))) + listed(s.skip(i + 1)),
        _ => non_blank(trim(s)),
    }
}

/// White space at the front of a text is trimmed from it.
proof fn lemma_trim_skips(s: Seq<char>)
    requires
        s.len() > 0,
        is_white(s[0]),
    ensures
        trim(s) == trim(s.skip(1)),
{
    let white = CharClass::White;
    let t = s.skip(1);
    lemma_run_end(t, white, 0);
    let e = run_end(t, white, 0);
    assert forall|j: int| 0 <= j < e + 1 implies white.holds(s[j]) by {
        if j > 0 {
            assert(s[j] == t[j - 1]);
        }
    }
    if e + 1 < s.len() {
        assert(s[e + 1] == t[e]);
    }
    lemma_run_end_is(s, white, 0, e + 1);
    assert(trim_start(s) =~= trim_start(t));
}

/// White space at the end of a text is trimmed from it.
proof fn lemma_trim_drops(s: Seq<char>)
    requires
        s.len() > 0,
        is_white(s.last()),
    ensures
        trim(s) == trim(s.drop_last()),
{
    let white = CharClass::White;
    let t = s.drop_last();
    lemma_run_end(s, white, 0);
    lemma_run_end(t, white, 0);
    let e = run_end(s, white, 0);
    if e == s.len() {
        assert forall|j: int| 0 <= j < t.len() implies white.holds(t[j]) by {
            assert(t[j] == s[j]);
        }
        lemma_run_end_is(t, white, 0, t.len() as int);
        assert(trim_start(s) =~= Seq::<char>::empty());
        assert(trim_start(t) =~= Seq::<char>::empty());
    } else {
        assert(e < t.len());
        assert forall|j: int| 0 <= j < e implies white.holds(t[j]) by {
            assert(t[j] == s[j]);
        }
        assert(t[e] == s[e]);
        lemma_run_end_is(t, white, 0, e);
        let x = trim_start(s);
        let y = trim_start(t);
        assert(x.drop_last() =~= y);
        let k = run_start(y, white, y.len() as int);
        lemma_run_start(y, white, y.len() as int);
        assert forall|j: int| k <= j < x.len() implies white.holds(x[j]) by {
            if j < y.len() {
                assert(x[j] == y[j]);
            } else {
                assert(x[j] == s.last());
            }
        }
        if k > 0 {
            assert(x[k - 1] == y[k - 1]);
        }
        lemma_run_start_is(x, white, x.len() as int, k);
        assert(trim_end(x) =~= trim_end(y));
    }
}

proof fn lemma_listed_skips(s: Seq<char>)
    requires
        s.len() > 0,
        is_white(s[0]),
    ensures
        listed(s) == listed(s.skip(1)),
{
    reveal_strlit(",");
    let t = s.skip(1);
    assert(s =~= seq![s[0]] + t);
    assert forall|j: int| 0 <= j < 1 implies !occurs_at(seq![s[0]] + t, ","@, j) by {
        if occurs_at(s, ","@, j) {
            assert(s.subrange(j, j + 1)[0] == s[j]);
        }
    }
    lemma_find_past(seq![s[0]], t, ","@);
    lemma_find_first(t, ","@, 0);
    match find_from(t, ","@, 0) {
        Some(i) => {
            assert(s.take(i + 1)[0] == s[0]);
            lemma_trim_skips(s.take(i + 1));
            assert(s.take(i + 1).skip(1) =~= t.take(i));
            assert(s.skip(i + 2) =~= t.skip(i + 1));
        },
        None => {
            lemma_trim_skips(s);
        },
    }
}

proof fn lemma_listed_drops(s: Seq<char>)
    requires
        s.len() > 0,
        is_white(s.last()),
    ensures
        listed(s) == listed(s.drop_last()),
    decreases s.len(),
{
    reveal_strlit(",");
    let t = s.drop_last();
    lemma_find_first(s, ","@, 0);
    match find_from(s, ","@, 0) {
        Some(i) => {
            assert(s.subrange(i, i + 1)[0] == s[i]);
            assert(i < t.len());
            assert(t.subrange(i, i + 1) =~= s.subrange(i, i + 1));
            assert forall|j: int| 0 <= j < i implies !occurs_at(t, ","@, j) by {
                if occurs_at(t, ","@, j) {
                    assert(s.subrange(j, j + 1) =~= t.subrange(j, j + 1));
                    assert(occurs_at(s, ","@, j));
                }
            }
            lemma_find_is(t, ","@, 0, i);
            assert(s.take(i) =~= t.take(i));
            let rest = s.skip(i + 1);
            assert(rest.last() == s.last());
            lemma_listed_drops(rest);
            assert(rest.drop_last() =~= t.skip(i + 1));
        },
        None => {
            assert forall|j: int| 0 <= j implies !occurs_at(t, ","@, j) by {
                if occurs_at(t, ","@, j) {
                    assert(s.subrange(j, j + 1) =~= t.subrange(j, j + 1));
                    assert(occurs_at(s, ","@, j));
                }
            }
            lemma_find_none(t, ","@, 0);
            lemma_trim_drops(s);
        },
    }
}

/// White space at the end of a list does not matter.
pub proof fn lemma_listed_trim_end(s: Seq<char>)
    ensures
        listed(trim_end(s)) == listed(s),
    decreases s.len(),
{
    let white = CharClass::White;
    if s.len() > 0 && is_white(s.last()) {
        let t = s.drop_last();
        lemma_listed_drops(s);
        lemma_listed_trim_end(t);
        lemma_run_start(t, white, t.len() as int);
        let k = run_start(t, white, t.len() as int);
        assert forall|j: int| k <= j < s.len() implies white.holds(s[j]) by {
            if j < t.len() {
                assert(s[j] == t[j]);
            }
        }
        if k > 0 {
            assert(s[k - 1] == t[k - 1]);
        }
        lemma_run_start_is(s, white, s.len() as int, k);
        assert(trim_end(s) =~= trim_end(t));
    } else {
        assert(run_start(s, white, s.len() as int) == s.len());
        assert(trim_end(s) =~= s);
    }
}

proof fn lemma_listed_trim_start(s: Seq<char>)
    ensures
        listed(trim_start(s)) == listed(s),
    decreases s.len(),
{
    let white = CharClass::White;
    if s.len() > 0 && is_white(s[0]) {
        let t = s.skip(1);
        lemma_listed_skips(s);
        lemma_listed_trim_start(t);
        lemma_run_end(t, white, 0);
        let e = run_end(t, white, 0);
        assert forall|j: int| 0 <= j < e + 1 implies white.holds(s[j]) by {
            if j > 0 {
                assert(s[j] == t[j - 1]);
            }
        }
        if e + 1 < s.len() {
            assert(s[e + 1] == t[e]);
        }
        lemma_run_end_is(s, white, 0, e + 1);
        assert(trim_start(s) =~= trim_start(t));
    } else {
        assert(run_end(s, white, 0) == 0);
        assert(trim_start(s) =~= s);
    }
}

/// White space around a list does not matter.
pub proof fn lemma_listed_trim(s: Seq<char>)
    ensures
        listed(trim(s)) == listed(s),
{
    lemma_listed_trim_start(s);
    lemma_listed_trim_end(trim_start(s));
}

/// Appends `chars` as a string, unless it is empty.
fn push_non_blank(out: &mut Vec<String>, chars: &[char])
    ensures
        texts(final(out)@) == texts(old(out)@) + non_blank(chars@),
{
    if chars.len() > 0 {
        let name: String = string_of(chars, 0, chars.len());
        assert(name@ =~= chars@);
        out.push(name);
    }
    assert(texts(out@) =~= texts(old(out)@) + non_blank(chars@));
}

/// Appends the names in a comma-separated list to `out`, trimmed; blanks are ignored.
pub fn push_listed(out: &mut Vec<String>, list: &[char])
    ensures
        texts(final(out)@) == texts(old(out)@) + listed(list@),
{
    let mut from: usize = 0;
    proof {
        reveal_strlit(",");
        assert(list@.skip(0) =~= list@);
    }
    loop
        invariant
            ","@.len() == 1,
            from <= list@.len(),
            texts(out@) + listed(list@.skip(from as int)) == texts(old(out)@) + listed(list@),
        decreases list@.len() - from,
    {
        let ghost before = texts(out@);
        let ghost rest = list@.skip(from as int);
        let tail: &[char] = slice_subrange(list, from, list.len());
        assert(tail@ =~= rest);
        match find(tail, ",", 0) {
            Some(i) => {
                let part: &[char] = slice_subrange(tail, 0, i);
                assert(part@ =~= rest.take(i as int));
                push_non_blank(out, trimmed(part));
                from = from + i + 1;
                proof {
                    assert(rest.skip(i + 1) =~= list@.skip(from as int));
                    assert(texts(out@) + listed(rest.skip(i + 1)) =~= before + listed(rest));
                }
            },
            None => {
                push_non_blank(out, trimmed(tail));
                return;
            },
        }
    }
}

/// The names in a comma-separated list, trimmed; blanks are ignored.
pub fn split_names(list: &[char]) -> (r: Vec<String>)
    ensures
        texts(r@) == listed(list@),
{
    let mut out: Vec<String> = Vec::new();
    push_listed(&mut out, list);
    assert(texts(out@) =~= listed(list@));
    out
}

/// One update of the kernel's filter maps.
pub enum FilterOp {
    /// Remove a key from the wanted interfaces; that it is not there is no failure.
    Remove(IfaceKey),
    /// Add a key to the wanted interfaces.
    Insert(IfaceKey),
    /// Switch filtering on or off.
    Switch(bool),
}

/// What a [`FilterOp`] does.
pub enum OpView {
    Remove(Seq<u8>),
    Insert(Seq<u8>),
    Switch(bool),
}

impl View for FilterOp {
    type V = OpView;

    open spec fn view(&self) -> OpView {
        match *self {
            FilterOp::Remove(key) => OpView::Remove(key.0@),
            FilterOp::Insert(key) => OpView::Insert(key.0@),
            FilterOp::Switch(on) => OpView::Switch(on),
        }
    }
}

/// What updates do.
pub open spec fn ops_view(ops: Seq<FilterOp>) -> Seq<OpView> {
    Seq::new(ops.len(), |i: int| ops[i]@)
}

/// The removal of an interface.
pub open spec fn removal(name: Seq<char>) -> OpView {
    OpView::Remove(key_bytes(name))
}

/// The addition of an interface.
pub open spec fn addition(name: Seq<char>) -> OpView {
    OpView::Insert(key_bytes(name))
}

/// The updates that replace the interfaces `active` by `names`: each old key goes, each
/// new one comes, and filtering is on where there is a name.
pub open spec fn planned(active: Seq<Seq<char>>, names: Seq<Seq<char>>) -> Seq<OpView> {
    Seq::new(active.len(), |i: int| removal(active[i])) + Seq::new(
        names.len(),
        |i: int| addition(names[i]),
    ) + seq![OpView::Switch(names.len() > 0)]
}

/// How the planned updates went.
#[derive(Clone, Copy, PartialEq, Eq, Structural, Debug)]
pub enum FilterOutcome {
    /// All of them were made.
    Applied,
    /// The addition of the name at this position failed; none after it was tried.
    InsertFailed(usize),
    /// Filtering could not be switched.
    SwitchFailed,
}

/// How the updates went, as soon as one update tells: a failed removal is passed over, a
/// failed addition ends them, and switching is the last of them.
pub open spec fn outcome_after(op: OpView, inserted: usize, ok: bool) -> Option<FilterOutcome> {
    match op {
        OpView::Remove(_) => None,
        OpView::Insert(_) => if ok {
            None
        } else {
            Some(FilterOutcome::InsertFailed(inserted))
        },
        OpView::Switch(_) => if ok {
            Some(FilterOutcome::Applied)
        } else {
            Some(FilterOutcome::SwitchFailed)
        },
    }
}

/// Tells how the updates went, where that is clear once `op` was tried: `inserted` names
/// were added before it, and `ok` says whether it could be done. Nothing where the next
/// update is to be tried.
pub fn after_op(op: &FilterOp, inserted: usize, ok: bool) -> (r: Option<FilterOutcome>)
    ensures
        r == outcome_after(op@, inserted, ok),
{
    match op {
        FilterOp::Remove(_) => None,
        FilterOp::Insert(_) => if ok {
            None
        } else {
            Some(FilterOutcome::InsertFailed(inserted))
        },
        FilterOp::Switch(_) => if ok {
            Some(FilterOutcome::Applied)
        } else {
            Some(FilterOutcome::SwitchFailed)
        },
    }
}

/// The interface filter as it is set.
pub struct FilterCtl {
    /// The interfaces whose keys are wanted.
    pub active: Vec<String>,
    /// Whether the kernel filters by them.
    pub on: bool,
}

/// What a [`FilterCtl`] says.
pub struct FilterView {
    pub active: Seq<Seq<char>>,
    pub on: bool,
}

impl View for FilterCtl {
    type V = FilterView;

    open spec fn view(&self) -> FilterView {
        FilterView { active: texts(self.active@), on: self.on }
    }
}

/// The filter after the updates planned for `names`: those names are active that were
/// added, and the kernel filters as it was switched, or as before where it was not.
pub open spec fn filter_after(
    before: FilterView,
    names: Seq<Seq<char>>,
    outcome: FilterOutcome,
) -> FilterView {
    match outcome {
        FilterOutcome::Applied => FilterView { active: names, on: names.len() > 0 },
        FilterOutcome::InsertFailed(k) => FilterView { active: names.take(k as int), ..before },
        FilterOutcome::SwitchFailed => FilterView { active: names, ..before },
    }
}

impl FilterCtl {
    /// No filter.
    pub fn new() -> (r: Self)
        ensures
            r@ == (FilterView { active: seq![], on: false }),
    {
        let r = FilterCtl { active: Vec::new(), on: false };
        assert(r@.active =~= Seq::<Seq<char>>::empty());
        r
    }

    /// The map updates that replace the filter by `names`. Empty `names` disable
    /// filtering.
    pub fn plan(&self, names: &Vec<String>) -> (r: Vec<FilterOp>)
        ensures
            ops_view(r@) == planned(self@.active, texts(names@)),
    {
        let mut ops: Vec<FilterOp> = Vec::new();
        let ghost goal = planned(self@.active, texts(names@));
        let mut i: usize = 0;
        while i < self.active.len()
            invariant
                i <= self.active@.len(),
                goal == planned(self@.active, texts(names@)),
                ops_view(ops@) =~= goal.take(i as int),
            decreases self.active@.len() - i,
        {
            let ghost before = ops@;
            let op: FilterOp = FilterOp::Remove(iface_key(&self.active[i]));
            let ghost view = op@;
            ops.push(op);
            proof {
                assert(self@.active[i as int] == self.active@[i as int]@);
                assert(goal[i as int] == removal(self@.active[i as int]));
                assert(ops_view(ops@) =~= ops_view(before).push(view));
            }
            i += 1;
        }
        let n: usize = self.active.len();
        let mut k: usize = 0;
        while k < names.len()
            invariant
                k <= names@.len(),
                n == self@.active.len(),
                goal == planned(self@.active, texts(names@)),
                ops_view(ops@) =~= goal.take(n + k),
            decreases names@.len() - k,
        {
            let ghost before = ops@;
            let op: FilterOp = FilterOp::Insert(iface_key(&names[k]));
            let ghost view = op@;
            ops.push(op);
            proof {
                assert(texts(names@)[k as int] == names@[k as int]@);
                assert(goal[n + k] == addition(texts(names@)[k as int]));
                assert(ops_view(ops@) =~= ops_view(before).push(view));
            }
            k += 1;
        }
        let ghost before = ops@;
        ops.push(FilterOp::Switch(names.len() > 0));
        proof {
            assert(ops_view(ops@) =~= ops_view(before).push(OpView::Switch(names@.len() > 0)));
            assert(ops_view(ops@) =~= goal);
        }
        ops
    }

    /// Takes note of how the updates planned for `names` went; the error is what could
    /// not be done.
    pub fn apply(&mut self, names: &Vec<String>, outcome: FilterOutcome) -> (r: Result<(), String>)
        requires
            outcome matches FilterOutcome::InsertFailed(k) ==> k < names@.len(),
        ensures
            final(self)@ == filter_after(old(self)@, texts(names@), outcome),
            match outcome {
                FilterOutcome::Applied => r is Ok,
                FilterOutcome::InsertFailed(k) => r is Err && r->Err_0@
                    == "insert interface filter "@ + names@[k as int]@,
                FilterOutcome::SwitchFailed => r is Err && r->Err_0@ == "set FILTER_ON"@,
            },
    {
        let n: usize = match outcome {
            FilterOutcome::InsertFailed(k) => k,
            _ => names.len(),
        };
        let mut active: Vec<String> = Vec::new();
        let mut i: usize = 0;
        while i < n
            invariant
                i <= n <= names@.len(),
                texts(active@) =~= texts(names@).take(i as int),
            decreases n - i,
        {
            let ghost before = active@;
            let name: String = names[i].clone();
            let ghost text = name@;
            active.push(name);
            assert(texts(active@) =~= texts(before).push(text));
            i += 1;
        }
        assert(texts(names@).take(names@.len() as int) =~= texts(names@));
        self.active = active;
        match outcome {
            FilterOutcome::Applied => {
                self.on = names.len() > 0;
                Ok(())
            },
            FilterOutcome::InsertFailed(k) => {
                let mut message: String = text_of_str("insert interface filter ");
                push_text(&mut message, &names[k]);
                Err(message)
            },
            FilterOutcome::SwitchFailed => Err(text_of_str("set FILTER_ON")),
        }
    }
}

/// The kernel's side of the filter: the wanted keys, and whether filtering is on.
pub struct KernelFilter {
    pub wanted: Set<Seq<u8>>,
    pub on: bool,
}

/// The kernel's side after updates that all succeed.
pub open spec fn updated(k: KernelFilter, ops: Seq<OpView>) -> KernelFilter
    decreases ops.len(),
{
    if ops.len() == 0 {
        k
    } else {
        let before = updated(k, ops.drop_last());
        match ops.last() {
            OpView::Remove(key) => KernelFilter { wanted: before.wanted.remove(key), ..before },
            OpView::Insert(key) => KernelFilter { wanted: before.wanted.insert(key), ..before },
            OpView::Switch(on) => KernelFilter { on, ..before },
        }
    }
}

/// Whether `names` has an interface of that key.
pub open spec fn has_key(names: Seq<Seq<char>>, key: Seq<u8>) -> bool {
    exists|i: int| 0 <= i < names.len() && key_bytes(#[trigger] names[i]) == key
}

/// The keys of interfaces.
pub open spec fn keys_of(names: Seq<Seq<char>>) -> Set<Seq<u8>> {
    Set::new(|key: Seq<u8>| has_key(names, key))
}

/// The keys of a list are those of all but its last name, and that of the last.
proof fn lemma_keys_of_last(names: Seq<Seq<char>>)
    requires
        names.len() > 0,
    ensures
        keys_of(names) == keys_of(names.drop_last()).insert(key_bytes(names.last())),
{
    let front = names.drop_last();
    let key = key_bytes(names.last());
    assert forall|x: Seq<u8>| #[trigger] has_key(names, x) <==> (has_key(front, x) || x == key) by {
        if has_key(front, x) {
            let i = choose|i: int| 0 <= i < front.len() && key_bytes(#[trigger] front[i]) == x;
            assert(key_bytes(names[i]) == x);
        }
        if has_key(names, x) {
            let i = choose|i: int| 0 <= i < names.len() && key_bytes(#[trigger] names[i]) == x;
            if i < front.len() {
                assert(key_bytes(front[i]) == x);
            }
        }
        if x == key {
            assert(key_bytes(names[names.len() - 1]) == x);
        }
    }
    assert(keys_of(names) =~= keys_of(front).insert(key));
}

proof fn lemma_updated_removals(k: KernelFilter, active: Seq<Seq<char>>)
    ensures
        ({
            let ops = Seq::new(active.len(), |i: int| removal(active[i]));
            updated(k, ops) == KernelFilter { wanted: k.wanted.difference(keys_of(active)), ..k }
        }),
    decreases active.len(),
{
    let ops = Seq::new(active.len(), |i: int| removal(active[i]));
    let goal = k.wanted.difference(keys_of(active));
    if active.len() == 0 {
        assert(goal =~= k.wanted);
    } else {
        let front = active.drop_last();
        let front_ops = Seq::new(front.len(), |i: int| removal(front[i]));
        lemma_updated_removals(k, front);
        assert(ops.drop_last() =~= front_ops);
        assert(ops.last() == removal(active.last()));
        lemma_keys_of_last(active);
        assert(updated(k, ops).wanted =~= goal);
    }
}

proof fn lemma_updated_additions(k: KernelFilter, done: Seq<OpView>, names: Seq<Seq<char>>)
    ensures
        ({
            let ops = done + Seq::new(names.len(), |i: int| addition(names[i]));
            let before = updated(k, done);
            updated(k, ops) == KernelFilter {
                wanted: before.wanted.union(keys_of(names)),
                ..before
            }
        }),
    decreases names.len(),
{
    let ops = done + Seq::new(names.len(), |i: int| addition(names[i]));
    let before = updated(k, done);
    if names.len() == 0 {
        assert(ops =~= done);
        assert(before.wanted.union(keys_of(names)) =~= before.wanted);
    } else {
        let front = names.drop_last();
        let front_ops = done + Seq::new(front.len(), |i: int| addition(front[i]));
        lemma_updated_additions(k, done, front);
        assert(ops.drop_last() =~= front_ops);
        assert(ops.last() == addition(names.last()));
        lemma_keys_of_last(names);
        assert(updated(k, ops).wanted =~= before.wanted.union(keys_of(names)));
    }
}

/// Replacing the filter leaves no trace of the old one: where the kernel wanted the keys
/// of the active interfaces, after the planned updates it wants those of the new ones
/// and no other, and filters where there is one.
pub proof fn law_filter_is_replaced(
    k: KernelFilter,
    active: Seq<Seq<char>>,
    names: Seq<Seq<char>>,
)
    requires
        k.wanted == keys_of(active),
    ensures
        updated(k, planned(active, names)).wanted == keys_of(names),
        updated(k, planned(active, names)).on == (names.len() > 0),
{
    let removals = Seq::new(active.len(), |i: int| removal(active[i]));
    let ops = planned(active, names);
    lemma_updated_removals(k, active);
    lemma_updated_additions(k, removals, names);
    assert(ops.drop_last() =~= removals + Seq::new(names.len(), |i: int| addition(names[i])));
    assert(ops.last() == OpView::Switch(names.len() > 0));
    assert(k.wanted.difference(keys_of(active)) =~= Set::empty());
    assert(Set::empty().union(keys_of(names)) =~= keys_of(names));
}

/// A run that ends early leaves what it added, and the switch as it was: where the kernel
/// wanted the keys of the active interfaces, after the removals and the first `n`
/// additions it wants those of the first `n` names and no other.
pub proof fn law_unfinished_filter(
    k: KernelFilter,
    active: Seq<Seq<char>>,
    names: Seq<Seq<char>>,
    n: int,
)
    requires
        k.wanted == keys_of(active),
        0 <= n <= names.len(),
    ensures
        updated(k, planned(active, names).take(active.len() + n)).wanted == keys_of(names.take(n)),
        updated(k, planned(active, names).take(active.len() + n)).on == k.on,
{
    let removals = Seq::new(active.len(), |i: int| removal(active[i]));
    let part = names.take(n);
    lemma_updated_removals(k, active);
    lemma_updated_additions(k, removals, part);
    assert(planned(active, names).take(active.len() + n) =~= removals + Seq::new(
        part.len(),
        |i: int| addition(part[i]),
    ));
    assert(k.wanted.difference(keys_of(active)) =~= Set::empty());
    assert(Set::empty().union(keys_of(part)) =~= keys_of(part));
}

/// How the updates from the `i`-th on go, where `oks` says which of them can be done and
/// `inserted` names were added before.
pub open spec fn run_outcome(
    ops: Seq<OpView>,
    oks: Seq<bool>,
    i: int,
    inserted: int,
) -> Option<FilterOutcome>
    decreases ops.len() - i,
{
    if i < 0 || i >= ops.len() {
        None
    } else {
        match outcome_after(ops[i], inserted as usize, oks[i]) {
            Some(outcome) => Some(outcome),
            None => run_outcome(
                ops,
                oks,
                i + 1,
                if ops[i] is Insert {
                    inserted + 1
                } else {
                    inserted
                },
            ),
        }
    }
}

/// The position of the first name whose addition fails, from the `k`-th on.
pub open spec fn first_failure(active: int, oks: Seq<bool>, names: int, k: int) -> Option<int>
    decreases names - k,
{
    if k >= names {
        None
    } else if !oks[active + k] {
        Some(k)
    } else {
        first_failure(active, oks, names, k + 1)
    }
}

proof fn lemma_run_inserts(
    active: Seq<Seq<char>>,
    names: Seq<Seq<char>>,
    oks: Seq<bool>,
    k: int,
)
    requires
        0 <= k <= names.len() <= usize::MAX,
        oks.len() == planned(active, names).len(),
    ensures
        run_outcome(planned(active, names), oks, active.len() + k, k) == Some(
            match first_failure(active.len() as int, oks, names.len() as int, k) {
                Some(j) => FilterOutcome::InsertFailed(j as usize),
                None => if oks.last() {
                    FilterOutcome::Applied
                } else {
                    FilterOutcome::SwitchFailed
                },
            },
        ),
        first_failure(active.len() as int, oks, names.len() as int, k) matches Some(j) ==> k <= j
            < names.len(),
    decreases names.len() - k,
{
    let ops = planned(active, names);
    let i = active.len() + k;
    if k < names.len() {
        assert(ops[i] == addition(names[k]));
        if oks[i] {
            lemma_run_inserts(active, names, oks, k + 1);
        }
    } else {
        assert(ops[i] == OpView::Switch(names.len() > 0));
        assert(oks.last() == oks[i]);
    }
}

proof fn lemma_run_removals(
    active: Seq<Seq<char>>,
    names: Seq<Seq<char>>,
    oks: Seq<bool>,
    i: int,
)
    requires
        0 <= i <= active.len(),
    ensures
        run_outcome(planned(active, names), oks, i, 0) == run_outcome(
            planned(active, names),
            oks,
            active.len() as int,
            0,
        ),
    decreases active.len() - i,
{
    if i < active.len() {
        assert(planned(active, names)[i] == removal(active[i]));
        lemma_run_removals(active, names, oks, i + 1);
    }
}

/// Whichever updates fail, the run comes out as the first failed addition, which is one of
/// the names, and as the switch where there is none; failed removals do not matter.
pub proof fn law_first_failed_addition_ends_the_run(
    active: Seq<Seq<char>>,
    names: Seq<Seq<char>>,
    oks: Seq<bool>,
)
    requires
        names.len() <= usize::MAX,
        oks.len() == planned(active, names).len(),
    ensures
        run_outcome(planned(active, names), oks, 0, 0) == Some(
            match first_failure(active.len() as int, oks, names.len() as int, 0) {
                Some(k) => FilterOutcome::InsertFailed(k as usize),
                None => if oks.last() {
                    FilterOutcome::Applied
                } else {
                    FilterOutcome::SwitchFailed
                },
            },
        ),
        first_failure(active.len() as int, oks, names.len() as int, 0) matches Some(k) ==> 0 <= k
            < names.len(),
{
    lemma_run_removals(active, names, oks, 0);
    lemma_run_inserts(active, names, oks, 0);
}

} // verus!
