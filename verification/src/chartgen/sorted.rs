use vstd::prelude::*;

use crate::chartgen::text;

verus! {

/// A map from strings that keeps its keys in their order.
pub struct SortedMap<V> {
    entries: Vec<(String, V)>,
}

impl<V> SortedMap<V> {
    /// The keys, in order.
    pub closed spec fn keys(self) -> Seq<Seq<char>> {
        self.entries@.map_values(|e: (String, V)| e.0@)
    }

    /// The values, in the order of their keys.
    pub closed spec fn values(self) -> Seq<V> {
        self.entries@.map_values(|e: (String, V)| e.1)
    }

    /// Each key comes before the next.
    pub open spec fn wf(self) -> bool {
        &&& self.keys().len() == self.values().len()
        &&& forall|i: int, j: int|
            0 <= i < j < self.keys().len() ==> text::before(
                #[trigger] self.keys()[i],
                #[trigger] self.keys()[j],
            )
    }

    /// Whether the map has the key `k`.
    pub open spec fn has_key(self, k: Seq<char>) -> bool {
        exists|i: int| 0 <= i < self.keys().len() && #[trigger] self.keys()[i] == k
    }

    /// The place of the key `k`.
    pub open spec fn place_of(self, k: Seq<char>) -> int {
        choose|i: int| 0 <= i < self.keys().len() && #[trigger] self.keys()[i] == k
    }

    /// The value of the key `k`.
    pub open spec fn at(self, k: Seq<char>) -> V {
        self.values()[self.place_of(k)]
    }

    /// The keys are in strict order, so that none occurs twice, and each has the value that
    /// stands beside it. A key that stands nowhere is not there.
    pub proof fn law_keys_are_in_order(self, i: int, j: int, k: Seq<char>)
        requires
            self.wf(),
            0 <= i < self.keys().len(),
        ensures
            self.keys().len() == self.values().len(),
            i < j < self.keys().len() ==> text::before(self.keys()[i], self.keys()[j])
                && self.keys()[i] != self.keys()[j],
            self.has_key(self.keys()[i]),
            self.at(self.keys()[i]) == self.values()[i],
            (forall|p: int| 0 <= p < self.keys().len() ==> #[trigger] self.keys()[p] != k)
                ==> !self.has_key(k),
    {
        self.lemma_at(i);
        if i < j < self.keys().len() {
            let key = self.keys()[i];
            text::law_before_is_a_strict_total_order(key, key, key);
        }
    }

    /// Two maps that differ at one key have the same values for all other keys, and the
    /// same keys but for that one.
    pub proof fn law_only_one_key_differs(self, other: Self, k: Seq<char>, q: Seq<char>)
        requires
            self.differs_at(other, k),
        ensures
            other.has_key(k),
            q != k ==> self.has_key(q) == other.has_key(q),
            q != k && self.has_key(q) ==> self.at(q) == other.at(q),
    {
    }

    /// No key occurs twice.
    pub proof fn lemma_unique(self, i: int, j: int)
        requires
            self.wf(),
            0 <= i < self.keys().len(),
            0 <= j < self.keys().len(),
            self.keys()[i] == self.keys()[j],
        ensures
            i == j,
    {
        let k = self.keys()[i];
        text::law_before_is_a_strict_total_order(k, k, k);
    }

    /// The value of a key stands where the key does.
    pub proof fn lemma_at(self, i: int)
        requires
            self.wf(),
            0 <= i < self.keys().len(),
        ensures
            self.has_key(self.keys()[i]),
            self.at(self.keys()[i]) == self.values()[i],
    {
        self.lemma_unique(i, self.place_of(self.keys()[i]));
    }

    /// A map without keys.
    pub fn new() -> (r: Self)
        ensures
            r.wf(),
            r.keys().len() == 0,
    {
        SortedMap { entries: Vec::new() }
    }

    /// The number of keys.
    pub fn len(&self) -> (r: usize)
        ensures
            r == self.keys().len(),
    {
        self.entries.len()
    }

    /// The key at place `i`.
    pub fn key(&self, i: usize) -> (r: &str)
        requires
            i < self.keys().len(),
        ensures
            r@ == self.keys()[i as int],
    {
        self.entries[i].0.as_str()
    }

    /// The value at place `i`.
    pub fn value(&self, i: usize) -> (r: &V)
        requires
            self.wf(),
            i < self.keys().len(),
        ensures
            *r == self.values()[i as int],
    {
        &self.entries[i].1
    }

    /// The place of the key `k`, or where it belongs if the map does not have it.
    fn place(&self, k: &str) -> (r: usize)
        requires
            self.wf(),
        ensures
            r <= self.keys().len(),
            self.has_key(k@) <==> r < self.keys().len() && self.keys()[r as int] == k@,
            forall|i: int| 0 <= i < r ==> text::before(#[trigger] self.keys()[i], k@),
            forall|i: int|
                r <= i < self.keys().len() ==> #[trigger] self.keys()[i] == k@ || text::before(
                    k@,
                    self.keys()[i],
                ),
    {
        let mut i: usize = 0;
        while i < self.entries.len() && text::precedes(self.entries[i].0.as_str(), k)
            invariant
                self.wf(),
                i <= self.keys().len(),
                forall|j: int| 0 <= j < i ==> text::before(#[trigger] self.keys()[j], k@),
            decreases self.keys().len() - i,
        {
            assert(text::before(self.keys()[i as int], k@));
            i = i + 1;
        }
        proof {
            assert forall|j: int| i <= j < self.keys().len() implies #[trigger] self.keys()[j] == k@
                || text::before(k@, self.keys()[j]) by {
                let here = self.keys()[i as int];
                text::law_before_is_a_strict_total_order(here, k@, k@);
                if j > i {
                    text::law_before_is_a_strict_total_order(k@, here, self.keys()[j]);
                }
            }
            if self.has_key(k@) {
                let j = choose|j: int|
                    0 <= j < self.keys().len() && #[trigger] self.keys()[j] == k@;
                text::law_before_is_a_strict_total_order(k@, k@, k@);
                if j > i {
                    let here = self.keys()[i as int];
                    text::law_before_is_a_strict_total_order(here, k@, here);
                }
            }
        }
        i
    }

    /// The value of the key `k`, if the map has it.
    pub fn get(&self, k: &str) -> (r: Option<&V>)
        requires
            self.wf(),
        ensures
            r is Some <==> self.has_key(k@),
            r is Some ==> *r->0 == self.at(k@),
    {
        let i: usize = self.place(k);
        if i < self.entries.len() && text::same(self.entries[i].0.as_str(), k) {
            proof {
                self.lemma_at(i as int);
            }
            Some(&self.entries[i].1)
        } else {
            None
        }
    }

    /// Whether this map and `other` have the same keys and values but for the key
    /// `k`, which `other` has.
    pub open spec fn differs_at(self, other: Self, k: Seq<char>) -> bool {
        &&& other.has_key(k)
        &&& forall|q: Seq<char>| #[trigger]
            other.has_key(q) <==> q == k || self.has_key(q)
        &&& forall|q: Seq<char>| q != k && self.has_key(q) ==> other.at(q) == #[trigger] self.at(q)
    }

    /// A map that differs from this one in a key that was put in at place `i`.
    pub proof fn lemma_put_in(self, other: Self, i: int, k: Seq<char>)
        requires
            self.wf(),
            other.wf(),
            0 <= i <= self.keys().len(),
            other.keys() == self.keys().insert(i, k),
            forall|j: int| 0 <= j < i ==> other.values()[j] == #[trigger] self.values()[j],
            forall|j: int|
                i <= j < self.values().len() ==> other.values()[j + 1] == #[trigger] self.values()[j],
        ensures
            self.differs_at(other, k),
            other.at(k) == other.values()[i],
    {
        assert(other.keys()[i] == k);
        other.lemma_at(i);
        assert forall|q: Seq<char>| #[trigger] other.has_key(q) implies q == k || self.has_key(q) by {
            let j = other.place_of(q);
            if j < i {
                assert(self.keys()[j] == q);
            } else if j > i {
                assert(self.keys()[j - 1] == q);
            }
        }
        assert forall|q: Seq<char>| q == k || self.has_key(q) implies #[trigger] other.has_key(q) by {
            if q != k {
                let j = self.place_of(q);
                if j < i {
                    assert(other.keys()[j] == q);
                } else {
                    assert(other.keys()[j + 1] == q);
                }
            }
        }
        assert forall|q: Seq<char>| q != k && self.has_key(q) implies other.at(q)
            == #[trigger] self.at(q) by {
            let j = self.place_of(q);
            if j < i {
                assert(other.keys()[j] == q);
                other.lemma_at(j);
            } else {
                assert(other.keys()[j + 1] == q);
                other.lemma_at(j + 1);
            }
        }
    }

    /// A map that differs from this one in the value at place `i`.
    pub proof fn lemma_changed(self, other: Self, i: int)
        requires
            self.wf(),
            other.wf(),
            0 <= i < self.keys().len(),
            other.keys() == self.keys(),
            forall|j: int|
                0 <= j < self.values().len() && j != i ==> other.values()[j]
                    == #[trigger] self.values()[j],
        ensures
            self.differs_at(other, self.keys()[i]),
            other.at(self.keys()[i]) == other.values()[i],
    {
        let k = self.keys()[i];
        other.lemma_at(i);
        assert forall|q: Seq<char>| #[trigger] other.has_key(q) implies q == k || self.has_key(q) by {
            assert(self.keys()[other.place_of(q)] == q);
        }
        assert forall|q: Seq<char>| q == k || self.has_key(q) implies #[trigger] other.has_key(q) by {
            if q != k {
                assert(other.keys()[self.place_of(q)] == q);
            }
        }
        assert forall|q: Seq<char>| q != k && self.has_key(q) implies other.at(q)
            == #[trigger] self.at(q) by {
            let j = self.place_of(q);
            assert(other.keys()[j] == q);
            other.lemma_at(j);
        }
    }

    /// The place of the key `k`. A map that does not have it gets it, with the
    /// value `default`.
    pub fn entry(&mut self, k: &str, default: V) -> (r: usize)
        requires
            old(self).wf(),
        ensures
            final(self).wf(),
            r < final(self).keys().len(),
            final(self).keys()[r as int] == k@,
            old(self).differs_at(*final(self), k@),
            final(self).values()[r as int] == final(self).at(k@),
            final(self).at(k@) == if old(self).has_key(k@) {
                old(self).at(k@)
            } else {
                default
            },
    {
        let i: usize = self.place(k);
        let ghost before = *self;
        if i < self.entries.len() && text::same(self.entries[i].0.as_str(), k) {
            proof {
                before.lemma_changed(before, i as int);
                before.lemma_at(i as int);
            }
            return i;
        }
        self.entries.insert(i, (k.to_owned(), default));
        proof {
            assert(self.keys() =~= before.keys().insert(i as int, k@));
            assert forall|a: int, b: int| 0 <= a < b < self.keys().len() implies text::before(
                #[trigger] self.keys()[a],
                #[trigger] self.keys()[b],
            ) by {
                if a == i {
                    assert(before.keys()[b - 1] == self.keys()[b]);
                } else if b == i {
                    assert(before.keys()[a] == self.keys()[a]);
                } else {
                    let a0 = if a < i {
                        a
                    } else {
                        a - 1
                    };
                    let b0 = if b < i {
                        b
                    } else {
                        b - 1
                    };
                    assert(text::before(before.keys()[a0], before.keys()[b0]));
                }
            }
            before.lemma_put_in(*self, i as int, k@);
        }
        i
    }

    /// The value at place `i`, for change in place.
    pub fn value_mut(&mut self, i: usize) -> (r: &mut V)
        requires
            old(self).wf(),
            i < old(self).keys().len(),
        ensures
            *r == old(self).values()[i as int],
            final(self).wf(),
            final(self).keys() == old(self).keys(),
            final(self).values() == old(self).values().update(i as int, *final(r)),
    {
        let ghost before = *self;
        assert forall|v: V|
            #![trigger before.entries@.update(i as int, (before.entries@[i as int].0, v))]
            {
                let after = before.entries@.update(i as int, (before.entries@[i as int].0, v));
                &&& after.map_values(|e: (String, V)| e.0@) == before.keys()
                &&& after.map_values(|e: (String, V)| e.1) == before.values().update(i as int, v)
            } by {
            let after = before.entries@.update(i as int, (before.entries@[i as int].0, v));
            assert(after.map_values(|e: (String, V)| e.0@) =~= before.keys());
            assert(after.map_values(|e: (String, V)| e.1) =~= before.values().update(i as int, v));
        }
        &mut self.entries[i].1
    }

    /// Sets the value of the key `k`.
    pub fn set(&mut self, k: &str, v: V)
        requires
            old(self).wf(),
        ensures
            final(self).wf(),
            old(self).differs_at(*final(self), k@),
            final(self).at(k@) == v,
    {
        let i: usize = self.place(k);
        let ghost before = *self;
        if i < self.entries.len() && text::same(self.entries[i].0.as_str(), k) {
            *self.value_mut(i) = v;
            proof {
                before.lemma_changed(*self, i as int);
            }
        } else {
            let _ = self.entry(k, v);
        }
    }
}

/// What is set for a key is what is found there, and what is found for any other key stays.
/// A key that is entered keeps its value where it has one, and gets the one it comes with
/// otherwise.
pub proof fn law_what_is_set_is_found<V>(
    map: &mut SortedMap<V>,
    k: &str,
    v: V,
    u: (),
    after: SortedMap<V>,
    q: &str,
    r: Option<&V>,
    entered: &mut SortedMap<V>,
    default: V,
    place: usize,
    before: SortedMap<V>,
    s: Option<&V>,
)
    requires
        old(map).wf(),
        call_ensures(SortedMap::<V>::set, (map, k, v), u),
        after == *final(map),
        call_ensures(SortedMap::<V>::get, (&after, q), r),
        before == *old(map),
        call_ensures(SortedMap::<V>::get, (&before, q), s),
        *old(entered) == before,
        call_ensures(SortedMap::<V>::entry, (entered, k, default), place),
    ensures
        q@ == k@ ==> r is Some && *r->0 == v,
        q@ != k@ ==> (r is Some <==> s is Some) && (s is Some ==> *r->0 == *s->0),
        final(entered).keys()[place as int] == k@,
        q@ == k@ && s is Some ==> final(entered).values()[place as int] == *s->0,
        q@ == k@ && s is None ==> final(entered).values()[place as int] == default,
{
    before.law_only_one_key_differs(after, k@, q@);
}

} // verus!
