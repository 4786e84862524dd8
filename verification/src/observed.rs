//! The interfaces seen so far, each once, in order.

use crate::text::{chars_of, same_text, texts};
use vstd::prelude::*;

verus! {

/// Whether `a` comes before `b`: by the first character in which they differ, and a
/// text before its continuations.
pub open spec fn precedes(a: Seq<char>, b: Seq<char>) -> bool
    decreases a.len(),
{
    if b.len() == 0 {
        false
    } else if a.len() == 0 {
        true
    } else if a[0] != b[0] {
        a[0] < b[0]
    } else {
        precedes(a.skip(1), b.skip(1))
    }
}

/// Of two different texts one precedes the other, and not both do.
pub proof fn lemma_precedes_total(a: Seq<char>, b: Seq<char>)
    ensures
        a == b ==> !precedes(a, b),
        a != b ==> precedes(a, b) || precedes(b, a),
        precedes(a, b) ==> !precedes(b, a),
    decreases a.len(),
{
    if a.len() > 0 && b.len() > 0 {
        lemma_precedes_total(a.skip(1), b.skip(1));
        if a[0] == b[0] && a.skip(1) == b.skip(1) {
            assert(a =~= seq![a[0]] + a.skip(1));
            assert(b =~= seq![b[0]] + b.skip(1));
        }
    } else if a.len() == 0 && b.len() == 0 {
        assert(a =~= b);
    }
}

/// The order is transitive.
pub proof fn lemma_precedes_transitive(a: Seq<char>, b: Seq<char>, c: Seq<char>)
    requires
        precedes(a, b),
        precedes(b, c),
    ensures
        precedes(a, c),
    decreases a.len(),
{
    if a.len() > 0 && a[0] == b[0] && b[0] == c[0] {
        lemma_precedes_transitive(a.skip(1), b.skip(1), c.skip(1));
    }
}

/// Tests whether `a` comes before `b`.
pub fn comes_before(a: &str, b: &str) -> (r: bool)
    ensures
        r == precedes(a@, b@),
{
    let x: Vec<char> = chars_of(a);
    let y: Vec<char> = chars_of(b);
    let mut i: usize = 0;
    assert(x@.skip(0) =~= x@);
    assert(y@.skip(0) =~= y@);
    while i < x.len() && i < y.len()
        invariant
            x@ == a@,
            y@ == b@,
            i <= x@.len(),
            i <= y@.len(),
            precedes(x@, y@) == precedes(x@.skip(i as int), y@.skip(i as int)),
        decreases x@.len() - i,
    {
        if x[i] != y[i] {
            return x[i] < y[i];
        }
        proof {
            assert(x@.skip(i as int).skip(1) =~= x@.skip(i + 1));
            assert(y@.skip(i as int).skip(1) =~= y@.skip(i + 1));
        }
        i += 1;
    }
    i < y.len()
}

/// Whether each text precedes all the later ones.
pub open spec fn is_ordered(s: Seq<Seq<char>>) -> bool {
    forall|i: int, j: int| 0 <= i < j < s.len() ==> precedes(#[trigger] s[i], #[trigger] s[j])
}

/// Every interface descriptor seen while discovering, each once, in order.
pub struct Observed {
    items: Vec<String>,
}

impl View for Observed {
    type V = Seq<Seq<char>>;

    closed spec fn view(&self) -> Seq<Seq<char>> {
        texts(self.items@)
    }
}

impl Observed {
    /// The items are in order, so that none occurs twice.
    pub open spec fn wf(&self) -> bool {
        is_ordered(self@)
    }

    /// Nothing seen yet.
    pub fn new() -> (r: Self)
        ensures
            r.wf(),
            r@ == Seq::<Seq<char>>::empty(),
    {
        let r = Observed { items: Vec::new() };
        assert(r@ =~= Seq::<Seq<char>>::empty());
        r
    }

    /// Adds `name`, where it is not there yet; returns whether it was added.
    pub fn insert(&mut self, name: &str) -> (r: bool)
        requires
            old(self).wf(),
        ensures
            final(self).wf(),
            forall|t: Seq<char>|
                #[trigger] final(self)@.contains(t) <==> (old(self)@.contains(t) || t == name@),
            r == !old(self)@.contains(name@),
            !r ==> final(self)@ == old(self)@,
    {
        let ghost before = self@;
        let mut i: usize = 0;
        while i < self.items.len() && comes_before(&self.items[i], name)
            invariant
                self@ == before,
                is_ordered(before),
                i <= self.items@.len(),
                forall|k: int| 0 <= k < i ==> precedes(#[trigger] before[k], name@),
            decreases self.items@.len() - i,
        {
            assert(before[i as int] == self.items@[i as int]@);
            i += 1;
        }
        if i < self.items.len() && same_text(&self.items[i], name) {
            assert(before[i as int] == self.items@[i as int]@);
            return false;
        }
        let owned: String = name.to_string();
        let ghost items0 = self.items@;
        self.items.insert(i, owned);
        proof {
            let after = self@;
            assert(after =~= before.insert(i as int, name@));
            if i < before.len() {
                assert(before[i as int] == items0[i as int]@);
                lemma_precedes_total(before[i as int], name@);
                assert(precedes(name@, before[i as int]));
            }
            assert forall|k: int| i <= k < before.len() implies precedes(
                name@,
                #[trigger] before[k],
            ) by {
                if k > i {
                    lemma_precedes_transitive(name@, before[i as int], before[k]);
                }
            }
            assert forall|k: int| 0 <= k < before.len() implies #[trigger] before[k] != name@ by {
                lemma_precedes_total(before[k], name@);
                lemma_precedes_total(name@, before[k]);
            }
            assert forall|a: int, b: int| 0 <= a < b < after.len() implies precedes(
                #[trigger] after[a],
                #[trigger] after[b],
            ) by {
                let x = if a < i {
                    a
                } else {
                    a - 1
                };
                let y = if b < i {
                    b
                } else {
                    b - 1
                };
                if a != i {
                    assert(after[a] == before[x]);
                }
                if b != i {
                    assert(after[b] == before[y]);
                }
            }
            assert forall|t: Seq<char>| #[trigger] after.contains(t) <==> (before.contains(t) || t
                == name@) by {
                if before.contains(t) {
                    let k = choose|k: int| 0 <= k < before.len() && before[k] == t;
                    if k < i {
                        assert(after[k] == t);
                    } else {
                        assert(after[k + 1] == t);
                    }
                }
                if t == name@ {
                    assert(after[i as int] == t);
                }
                if after.contains(t) {
                    let k = choose|k: int| 0 <= k < after.len() && after[k] == t;
                    if k < i {
                        assert(before[k] == t);
                    } else if k > i {
                        assert(before[k - 1] == t);
                    }
                }
            }
        }
        true
    }

    /// The items, in order.
    pub fn items(&self) -> (r: &Vec<String>)
        ensures
            texts(r@) == self@,
    {
        &self.items
    }
}

/// What was seen determines the list: two ordered lists of the same items are equal.
pub proof fn law_order_is_unique(a: Seq<Seq<char>>, b: Seq<Seq<char>>)
    requires
        is_ordered(a),
        is_ordered(b),
        forall|t: Seq<char>| #[trigger] a.contains(t) <==> b.contains(t),
    ensures
        a == b,
    decreases a.len(),
{
    if a.len() == 0 {
        if b.len() > 0 {
            assert(b.contains(b[0]));
            assert(a.contains(b[0]));
        }
        assert(a =~= b);
    } else {
        assert(a.contains(a[0]));
        assert(b.len() > 0);
        assert(b.contains(b[0]));
        assert(a.contains(b[0]));
        let i = choose|i: int| 0 <= i < b.len() && b[i] == a[0];
        let j = choose|j: int| 0 <= j < a.len() && a[j] == b[0];
        if i > 0 && j > 0 {
            assert(precedes(b[0], b[i]));
            assert(precedes(a[0], a[j]));
            lemma_precedes_total(a[0], b[0]);
        }
        assert(a[0] == b[0]);
        let x = a.skip(1);
        let y = b.skip(1);
        assert forall|p: int, q: int| 0 <= p < q < x.len() implies precedes(
            #[trigger] x[p],
            #[trigger] x[q],
        ) by {
            assert(x[p] == a[p + 1] && x[q] == a[q + 1]);
        }
        assert forall|p: int, q: int| 0 <= p < q < y.len() implies precedes(
            #[trigger] y[p],
            #[trigger] y[q],
        ) by {
            assert(y[p] == b[p + 1] && y[q] == b[q + 1]);
        }
        assert forall|t: Seq<char>| #[trigger] x.contains(t) <==> y.contains(t) by {
            lemma_precedes_total(a[0], a[0]);
            if x.contains(t) {
                let k = choose|k: int| 0 <= k < x.len() && x[k] == t;
                assert(a[k + 1] == t);
                assert(a.contains(t));
                assert(precedes(a[0], a[k + 1]));
                let m = choose|m: int| 0 <= m < b.len() && b[m] == t;
                assert(m > 0);
                assert(y[m - 1] == t);
            }
            if y.contains(t) {
                let k = choose|k: int| 0 <= k < y.len() && y[k] == t;
                assert(b[k + 1] == t);
                assert(b.contains(t));
                assert(a.contains(t));
                assert(precedes(b[0], b[k + 1]));
                let m = choose|m: int| 0 <= m < a.len() && a[m] == t;
                assert(m > 0);
                assert(x[m - 1] == t);
            }
        }
        law_order_is_unique(x, y);
        assert(a =~= seq![a[0]] + x);
        assert(b =~= seq![b[0]] + y);
    }
}

} // verus!
