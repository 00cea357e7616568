//! Sets of properties, kept as vectors sorted strictly by the total order on
//! properties. The sorted form is canonical: two sets with the same elements
//! are equal as vectors, which lets the search use property sets as cache
//! keys with plain element-wise comparison.

use vstd::prelude::*;
use vstd::assert_sets_equal;
use vstd::assert_seqs_equal;
use crate::property::{Property, prop_lt, prop_lt_exec, lemma_prop_lt_total, lemma_prop_lt_trans};

verus! {

/// A set of properties in canonical sorted order.
#[derive(Debug)]
pub struct PropSet {
    items: Vec<Property>,
}

/// A sequence is strictly sorted by the property order.
pub open spec fn sorted_strict(s: Seq<Property>) -> bool {
    forall|i: int, j: int| 0 <= i < j < s.len() ==> prop_lt(s[i], s[j])
}

impl View for PropSet {
    type V = Seq<Property>;

    closed spec fn view(&self) -> Seq<Property> {
        self.items@
    }
}

impl PropSet {
    /// The canonical-order invariant.
    pub open spec fn wf(&self) -> bool {
        sorted_strict(self@)
    }

    /// The set of properties held.
    pub open spec fn set(&self) -> Set<Property> {
        self@.to_set()
    }

    /// The empty set.
    pub fn empty() -> (r: PropSet)
        ensures
            r.wf(),
            r@ == Seq::<Property>::empty(),
    {
        PropSet { items: Vec::new() }
    }

    pub fn len(&self) -> (r: usize)
        ensures
            r == self@.len(),
    {
        self.items.len()
    }

    /// The property at a position of the canonical order.
    pub fn get(&self, i: usize) -> (r: Property)
        requires
            i < self@.len(),
        ensures
            r == self@[i as int],
    {
        self.items[i]
    }

    /// Membership test.
    pub fn contains_prop(&self, p: &Property) -> (r: bool)
        ensures
            r == self@.contains(*p),
    {
        let mut i: usize = 0;
        while i < self.items.len()
            invariant
                i <= self@.len(),
                forall|k: int| 0 <= k < i ==> self@[k] != *p,
            decreases self@.len() - i,
        {
            if self.items[i] == *p {
                assert(self@.contains(*p));
                return true;
            }
            i += 1;
        }
        assert(!self@.contains(*p)) by {
            if self@.contains(*p) {
                let k = choose|k: int| 0 <= k < self@.len() && self@[k] == *p;
                assert(self@[k] != *p);
            }
        }
        false
    }

    /// Inserts a property, keeping the canonical order. A property already
    /// present is left alone.
    pub fn insert(&mut self, p: Property)
        requires
            old(self).wf(),
        ensures
            final(self).wf(),
            final(self)@.to_set() == old(self)@.to_set().insert(p),
            final(self)@.contains(p),
            forall|q: Property| #[trigger] final(self)@.contains(q) <==> (old(self)@.contains(q)
                || q == p),
    {
        let ghost old_seq = self@;
        let mut i: usize = 0;
        while i < self.items.len() && prop_lt_exec(&self.items[i], &p)
            invariant
                self@ == old_seq,
                i <= self@.len(),
                forall|k: int| 0 <= k < i ==> prop_lt(self@[k], p),
            decreases self@.len() - i,
        {
            i += 1;
        }
        if i < self.items.len() && self.items[i] == p {
            // already present
            assert(self@.contains(p));
            assert(old(self)@.to_set() == old(self)@.to_set().insert(p)) by {
                assert(old(self)@.to_set().contains(p));
                assert_sets_equal!(old(self)@.to_set().insert(p), old(self)@.to_set());
            }
            assert(forall|q: Property| #[trigger] self@.contains(q) <==> (old(self)@.contains(q)
                || q == p));
            return ;
        }
        proof {
            // everything at or after position i is above p
            assert forall|k: int| i <= k < old_seq.len() implies prop_lt(p, old_seq[k]) by {
                if i < old_seq.len() {
                    lemma_prop_lt_total(old_seq[i as int], p);
                    if i < k {
                        lemma_prop_lt_trans(p, old_seq[i as int], old_seq[k]);
                    }
                }
            }
        }
        self.items.insert(i, p);
        proof {
            let new_seq = self@;
            assert(new_seq == old_seq.insert(i as int, p));
            assert forall|a: int, b: int| 0 <= a < b < new_seq.len() implies prop_lt(
                new_seq[a],
                new_seq[b],
            ) by {
                if a < i && b < i {
                } else if a < i && b == i {
                } else if a == i {
                } else if a < i && b > i {
                } else {
                }
            }
            assert forall|q: Property| new_seq.contains(q) <==> (old_seq.contains(q) || q
                == p) by {
                if new_seq.contains(q) {
                    let k = choose|k: int| 0 <= k < new_seq.len() && new_seq[k] == q;
                    if k < i {
                        assert(old_seq[k] == q);
                        assert(old_seq.contains(q));
                    } else if k == i {
                    } else {
                        assert(old_seq[k - 1] == q);
                        assert(old_seq.contains(q));
                    }
                }
                if old_seq.contains(q) {
                    let k = choose|k: int| 0 <= k < old_seq.len() && old_seq[k] == q;
                    if k < i {
                        assert(new_seq[k] == q);
                    } else {
                        assert(new_seq[k + 1] == q);
                    }
                    assert(new_seq.contains(q));
                }
                if q == p {
                    assert(new_seq[i as int] == q);
                    assert(new_seq.contains(q));
                }
            }
            assert_sets_equal!(new_seq.to_set(), old_seq.to_set().insert(p), q => {
                if new_seq.to_set().contains(q) {
                    assert(new_seq.contains(q));
                }
                if old_seq.to_set().insert(p).contains(q) {
                    if q != p {
                        assert(old_seq.contains(q));
                    }
                    assert(new_seq.contains(q));
                }
            });
        }
    }

    /// Builds a canonical set from a sequence of properties.
    pub fn from_vec(v: &Vec<Property>) -> (r: PropSet)
        ensures
            r.wf(),
            r@.to_set() == v@.to_set(),
            forall|q: Property| #[trigger] r@.contains(q) <==> v@.contains(q),
    {
        let mut r = PropSet::empty();
        let mut i: usize = 0;
        while i < v.len()
            invariant
                i <= v@.len(),
                r.wf(),
                forall|q: Property| #[trigger] r@.contains(q) <==> v@.take(i as int).contains(q),
            decreases v@.len() - i,
        {
            let ghost prev = r@;
            r.insert(v[i]);
            proof {
                assert forall|q: Property| #[trigger] r@.contains(q) <==> v@.take(
                    i + 1 as int,
                ).contains(q) by {
                    assert(v@.take(i + 1 as int) == v@.take(i as int).push(v@[i as int]));
                    if r@.contains(q) {
                        if q == v@[i as int] {
                            assert(v@.take(i + 1 as int)[i as int] == q);
                            assert(v@.take(i + 1 as int).contains(q));
                        } else {
                            assert(prev.contains(q));
                            let k = choose|k: int|
                                0 <= k < v@.take(i as int).len() && v@.take(i as int)[k] == q;
                            assert(v@.take(i + 1 as int)[k] == q);
                            assert(v@.take(i + 1 as int).contains(q));
                        }
                    }
                    if v@.take(i + 1 as int).contains(q) {
                        let k = choose|k: int|
                            0 <= k < v@.take(i + 1 as int).len() && #[trigger] v@.take(
                                i + 1 as int,
                            )[k] == q;
                        if k < i {
                            assert(v@.take(i as int)[k] == q);
                            assert(v@.take(i as int).contains(q));
                        } else {
                            assert(q == v@[i as int]);
                        }
                        assert(r@.contains(q));
                    }
                }
            }
            i += 1;
        }
        proof {
            assert(v@.take(v@.len() as int) == v@);
            assert_sets_equal!(r@.to_set(), v@.to_set(), q => {
                if r@.to_set().contains(q) {
                    assert(r@.contains(q));
                }
                if v@.to_set().contains(q) {
                    assert(v@.contains(q));
                    assert(r@.contains(q));
                }
            });
        }
        r
    }

    /// An identical copy.
    pub fn clone_set(&self) -> (r: PropSet)
        ensures
            r@ == self@,
    {
        let mut items: Vec<Property> = Vec::new();
        let mut i: usize = 0;
        while i < self.items.len()
            invariant
                i <= self@.len(),
                items@ == self@.take(i as int),
            decreases self@.len() - i,
        {
            items.push(self.items[i]);
            proof {
                assert(self@.take(i + 1 as int) == self@.take(i as int).push(self@[i as int]));
            }
            i += 1;
        }
        proof {
            assert(self@.take(self@.len() as int) == self@);
        }
        PropSet { items }
    }

    /// Element-wise equality of the canonical forms. For well-formed sets this
    /// coincides with set equality (see `lemma_canonical_form`).
    pub fn eq_set(&self, other: &PropSet) -> (r: bool)
        ensures
            r == (self@ == other@),
    {
        if self.items.len() != other.items.len() {
            proof {
                if self@ == other@ {
                    assert(self@.len() == other@.len());
                }
            }
            return false;
        }
        let mut i: usize = 0;
        while i < self.items.len()
            invariant
                i <= self@.len(),
                self@.len() == other@.len(),
                forall|k: int| 0 <= k < i ==> self@[k] == other@[k],
            decreases self@.len() - i,
        {
            if self.items[i] != other.items[i] {
                proof {
                    if self@ == other@ {
                        assert(self@[i as int] == other@[i as int]);
                    }
                }
                return false;
            }
            i += 1;
        }
        proof {
            assert_seqs_equal!(self@, other@);
        }
        true
    }
}

/// Sorted canonical form is unique: two strictly sorted sequences holding the
/// same set of properties are equal. Dominance pruning in the search compares
/// canonical forms element-wise; by this lemma that is exactly comparison of
/// the underlying sets.
pub proof fn lemma_canonical_form(a: Seq<Property>, b: Seq<Property>)
    requires
        sorted_strict(a),
        sorted_strict(b),
        a.to_set() == b.to_set(),
    ensures
        a == b,
    decreases a.len(),
{
    if a.len() == 0 {
        if b.len() > 0 {
            assert(b.to_set().contains(b[0]));
            assert(a.to_set().contains(b[0]));
            assert(a.contains(b[0]));
        }
        assert(a =~= b);
    } else {
        assert(a.to_set().contains(a[0]));
        assert(b.to_set().contains(a[0]));
        assert(b.contains(a[0]));
        let j = choose|j: int| 0 <= j < b.len() && b[j] == a[0];
        assert(a.to_set().contains(b[0]));
        assert(a.contains(b[0]));
        let i = choose|i: int| 0 <= i < a.len() && a[i] == b[0];
        lemma_prop_lt_total(a[0], b[0]);
        if a[0] != b[0] {
            if prop_lt(a[0], b[0]) {
                // b[j] == a[0] < b[0] contradicts sortedness of b
                lemma_prop_lt_total(b[j], b[0]);
                assert(j > 0 ==> prop_lt(b[0], b[j]));
                assert(false);
            } else {
                lemma_prop_lt_total(a[i], a[0]);
                assert(false);
            }
        }
        let at = a.drop_first();
        let bt = b.drop_first();
        assert(sorted_strict(at)) by {
            assert forall|x: int, y: int| 0 <= x < y < at.len() implies prop_lt(at[x], at[y]) by {
                assert(at[x] == a[x + 1]);
                assert(at[y] == a[y + 1]);
            }
        }
        assert(sorted_strict(bt)) by {
            assert forall|x: int, y: int| 0 <= x < y < bt.len() implies prop_lt(bt[x], bt[y]) by {
                assert(bt[x] == b[x + 1]);
                assert(bt[y] == b[y + 1]);
            }
        }
        assert(at.to_set() == bt.to_set()) by {
            assert_sets_equal!(at.to_set(), bt.to_set(), q => {
                if at.to_set().contains(q) {
                    assert(at.contains(q));
                    let k = choose|k: int| 0 <= k < at.len() && at[k] == q;
                    assert(a[k + 1] == q);
                    assert(prop_lt(a[0], q));
                    assert(a.to_set().contains(q));
                    assert(b.contains(q));
                    let m = choose|m: int| 0 <= m < b.len() && b[m] == q;
                    lemma_prop_lt_total(q, b[0]);
                    assert(m != 0);
                    assert(bt[m - 1] == q);
                    assert(bt.contains(q));
                }
                if bt.to_set().contains(q) {
                    assert(bt.contains(q));
                    let k = choose|k: int| 0 <= k < bt.len() && bt[k] == q;
                    assert(b[k + 1] == q);
                    assert(prop_lt(b[0], q));
                    assert(b.to_set().contains(q));
                    assert(a.contains(q));
                    let m = choose|m: int| 0 <= m < a.len() && a[m] == q;
                    lemma_prop_lt_total(q, a[0]);
                    assert(m != 0);
                    assert(at[m - 1] == q);
                    assert(at.contains(q));
                }
            });
        }
        lemma_canonical_form(at, bt);
        assert(a =~= b) by {
            assert(a.len() == b.len());
            assert forall|k: int| 0 <= k < a.len() implies a[k] == b[k] by {
                if k > 0 {
                    assert(at[k - 1] == bt[k - 1]);
                }
            }
        }
    }
}

} // verus!
