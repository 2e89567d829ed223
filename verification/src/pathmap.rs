//! A map from paths to values, kept in path order.

use vstd::prelude::*;

use crate::fspath::{
    lemma_path_lt_asymmetric, lemma_path_lt_irreflexive, lemma_path_lt_total, lemma_path_lt_transitive,
    path_lt, FilePath,
};

verus! {

/// A map from paths to values.
#[derive(Debug)]
pub struct PathMap<V> {
    /// The paths, in rising order.
    pub keys: Vec<FilePath>,
    /// The value of each path, at the path's place.
    pub values: Vec<V>,
}

/// Paths in strictly rising order, so that none occurs twice.
pub open spec fn sorted_paths(s: Seq<Seq<Seq<char>>>) -> bool {
    forall|i: int, j: int| 0 <= i < j < s.len() ==> path_lt(#[trigger] s[i], #[trigger] s[j])
}

/// In a list in rising order a path has one place.
pub proof fn lemma_sorted_place(s: Seq<Seq<Seq<char>>>, i: int, j: int)
    requires
        sorted_paths(s),
        0 <= i < s.len(),
        0 <= j < s.len(),
        s[i] == s[j],
    ensures
        i == j,
{
    if i < j {
        assert(path_lt(s[i], s[j]));
        lemma_path_lt_irreflexive(s[i]);
    } else if j < i {
        assert(path_lt(s[j], s[i]));
        lemma_path_lt_irreflexive(s[i]);
    }
}

/// The map that pairs each key with the value at its place.
pub open spec fn pairs<T>(keys: Seq<Seq<Seq<char>>>, values: Seq<T>) -> Map<Seq<Seq<char>>, T> {
    Map::new(|p: Seq<Seq<char>>| keys.contains(p), |p: Seq<Seq<char>>| values[keys.index_of(p)])
}

impl<V: DeepView> View for PathMap<V> {
    type V = Map<Seq<Seq<char>>, V::V>;

    open spec fn view(&self) -> Map<Seq<Seq<char>>, V::V> {
        pairs(self.keys.deep_view(), self.values.deep_view())
    }
}

impl<V: DeepView> PathMap<V> {
    /// One value for each path, and the paths in order.
    pub open spec fn wf(self) -> bool {
        &&& self.keys.len() == self.values.len()
        &&& sorted_paths(self.keys.deep_view())
    }

    /// A map without paths.
    pub fn new() -> (r: PathMap<V>)
        ensures
            r.wf(),
            r@ == Map::<Seq<Seq<char>>, V::V>::empty(),
    {
        let r = PathMap { keys: Vec::new(), values: Vec::new() };
        assert(r@ =~= Map::<Seq<Seq<char>>, V::V>::empty());
        r
    }

    /// How many keys come before `path`, and whether the next one is `path` itself.
    fn place(&self, path: &FilePath) -> (r: (usize, bool))
        requires
            self.wf(),
        ensures
            r.0 <= self.keys.len(),
            forall|j: int| 0 <= j < r.0 ==> path_lt(#[trigger] self.keys.deep_view()[j], path@),
            r.1 ==> r.0 < self.keys.len() && self.keys.deep_view()[r.0 as int] == path@,
            r.1 <==> self@.contains_key(path@),
            !r.1 ==> forall|j: int|
                r.0 <= j < self.keys.len() ==> path_lt(path@, #[trigger] self.keys.deep_view()[j]),
    {
        let ghost keys = self.keys.deep_view();
        let mut lo: usize = 0;
        let mut hi: usize = self.keys.len();
        while lo < hi
            invariant
                self.wf(),
                keys == self.keys.deep_view(),
                lo <= hi <= self.keys.len(),
                forall|j: int| 0 <= j < lo ==> path_lt(#[trigger] keys[j], path@),
                forall|j: int| hi <= j < keys.len() ==> !path_lt(#[trigger] keys[j], path@),
            decreases hi - lo,
        {
            let mid: usize = lo + (hi - lo) / 2;
            assert(keys[mid as int] == self.keys[mid as int]@);
            if self.keys[mid].before(path) {
                proof {
                    assert forall|j: int| 0 <= j < mid + 1 implies path_lt(
                        #[trigger] keys[j],
                        path@,
                    ) by {
                        if j < mid {
                            assert(path_lt(keys[j], keys[mid as int]));
                            lemma_path_lt_transitive(keys[j], keys[mid as int], path@);
                        }
                    }
                }
                lo = mid + 1;
            } else {
                proof {
                    assert forall|j: int| mid <= j < keys.len() implies !path_lt(
                        #[trigger] keys[j],
                        path@,
                    ) by {
                        if j > mid && path_lt(keys[j], path@) {
                            assert(path_lt(keys[mid as int], keys[j]));
                            lemma_path_lt_transitive(keys[mid as int], keys[j], path@);
                        }
                    }
                }
                hi = mid;
            }
        }
        let found = lo < self.keys.len() && self.keys[lo].same(path);
        proof {
            if found {
                assert(keys[lo as int] == path@);
                assert(keys.contains(path@));
            } else {
                assert forall|j: int| lo <= j < keys.len() implies path_lt(
                    path@,
                    #[trigger] keys[j],
                ) by {
                    lemma_path_lt_total(path@, keys[j]);
                    if keys[j] == path@ && j > lo {
                        assert(path_lt(keys[lo as int], keys[j]));
                    }
                }
                if keys.contains(path@) {
                    let j = choose|j: int| 0 <= j < keys.len() && keys[j] == path@;
                    lemma_path_lt_irreflexive(path@);
                    assert(j >= lo);
                }
            }
        }
        (lo, found)
    }

    /// The value of `path`.
    pub fn get(&self, path: &FilePath) -> (r: Option<&V>)
        requires
            self.wf(),
        ensures
            r is Some <==> self@.contains_key(path@),
            r is Some ==> r->0.deep_view() == self@[path@],
    {
        let (i, found) = self.place(path);
        if found {
            proof {
                let keys = self.keys.deep_view();
                lemma_sorted_place(keys, i as int, keys.index_of(path@));
            }
            Some(&self.values[i])
        } else {
            None
        }
    }

    /// Whether `path` has a value.
    pub fn has(&self, path: &FilePath) -> (r: bool)
        requires
            self.wf(),
        ensures
            r == self@.contains_key(path@),
    {
        let (_i, found) = self.place(path);
        found
    }

    /// Give `path` a value, unless it has one already.
    pub fn insert_new(&mut self, path: FilePath, value: V)
        requires
            old(self).wf(),
        ensures
            final(self).wf(),
            old(self)@.contains_key(path@) ==> final(self)@ == old(self)@,
            !old(self)@.contains_key(path@) ==> final(self)@ == old(self)@.insert(
                path@,
                value.deep_view(),
            ),
    {
        let (i, found) = self.place(&path);
        if !found {
            let ghost keys0 = self.keys.deep_view();
            let ghost values0 = self.values.deep_view();
            let ghost p = path@;
            let ghost v = value.deep_view();
            let ghost map0 = self@;
            self.keys.insert(i, path);
            self.values.insert(i, value);
            proof {
                let keys = self.keys.deep_view();
                let values = self.values.deep_view();
                assert(keys =~= keys0.insert(i as int, p));
                assert(values =~= values0.insert(i as int, v));
                assert forall|a: int, b: int| 0 <= a < b < keys.len() implies path_lt(
                    #[trigger] keys[a],
                    #[trigger] keys[b],
                ) by {
                    let a0 = if a < i { a } else { a - 1 };
                    let b0 = if b < i { b } else { b - 1 };
                    if a != i {
                        assert(keys[a] == keys0[a0]);
                    }
                    if b != i {
                        assert(keys[b] == keys0[b0]);
                    }
                }
                assert(self.wf());
                assert forall|q: Seq<Seq<char>>| #[trigger] self@.contains_key(q) <==> map0.insert(p, v).contains_key(q) by {
                    if keys.contains(q) {
                        let n = choose|n: int| 0 <= n < keys.len() && keys[n] == q;
                        if n < i {
                            assert(keys0[n] == q);
                        } else if n > i {
                            assert(keys0[n - 1] == q);
                        }
                    }
                    if keys0.contains(q) {
                        let n = choose|n: int| 0 <= n < keys0.len() && keys0[n] == q;
                        if n < i {
                            assert(keys[n] == q);
                        } else {
                            assert(keys[n + 1] == q);
                        }
                    }
                    if q == p {
                        assert(keys[i as int] == q);
                    }
                }
                assert forall|q: Seq<Seq<char>>| #[trigger] self@.contains_key(q) implies self@[q] == map0.insert(p, v)[q] by {
                    let n = keys.index_of(q);
                    assert(keys[n] == q);
                    if q == p {
                        lemma_sorted_place(keys, n, i as int);
                    } else {
                        let n0 = if n < i { n } else { n - 1 };
                        assert(keys0[n0] == q);
                        lemma_sorted_place(keys0, n0, keys0.index_of(q));
                        assert(values[n] == values0[n0]);
                    }
                }
                assert(self@ =~= map0.insert(p, v));
            }
        }
    }
}

impl<V: DeepView> PathMap<V> {
    /// Give `path` a value, whether it has one already or not.
    pub fn set(&mut self, path: FilePath, value: V)
        requires
            old(self).wf(),
        ensures
            final(self).wf(),
            final(self)@ == old(self)@.insert(path@, value.deep_view()),
    {
        let (i, found) = self.place(&path);
        if found {
            let ghost p = path@;
            let ghost map0 = self@;
            let ghost keys0 = self.keys.deep_view();
            let ghost values0 = self.values.deep_view();
            let ghost v = value.deep_view();
            self.values.set(i, value);
            proof {
                assert(self.values.deep_view() =~= values0.update(i as int, v));
                lemma_sorted_place(keys0, i as int, keys0.index_of(p));
                assert forall|q: Seq<Seq<char>>| #[trigger] self@.contains_key(q) && q != p implies self@[q] == map0[q] by {
                    assert(keys0[keys0.index_of(q)] == q);
                }
                assert(self@ =~= map0.insert(p, v));
            }
        } else {
            self.insert_new(path, value);
        }
    }
}

impl<T: DeepView> PathMap<Vec<T>> {
    /// Put `item` behind the items of `path`.
    pub fn push_at(&mut self, path: FilePath, item: T)
        requires
            old(self).wf(),
        ensures
            final(self).wf(),
            final(self)@ == old(self)@.insert(
                path@,
                (if old(self)@.contains_key(path@) {
                    old(self)@[path@]
                } else {
                    seq![]
                }).push(item.deep_view()),
            ),
    {
        let (i, found) = self.place(&path);
        let ghost p = path@;
        let ghost map0 = self@;
        let ghost keys0 = self.keys.deep_view();
        let ghost x = item.deep_view();
        if found {
            let ghost values0 = self.values.deep_view();
            let ghost items0 = self.values@[i as int].deep_view();
            self.values[i].push(item);
            proof {
                assert(self.values@[i as int].deep_view() =~= items0.push(x));
                assert(self.values.deep_view() =~= values0.update(i as int, items0.push(x)));
                assert(self.keys.deep_view() == keys0);
                lemma_sorted_place(keys0, i as int, keys0.index_of(p));
                assert forall|q: Seq<Seq<char>>| #[trigger] self@.contains_key(q) && q != p implies self@[q] == map0[q] by {
                    assert(keys0[keys0.index_of(q)] == q);
                    assert(keys0.index_of(q) != i);
                }
                assert(self@ =~= map0.insert(p, items0.push(x)));
            }
        } else {
            let mut items: Vec<T> = Vec::new();
            items.push(item);
            assert(items.deep_view() =~= Seq::<T::V>::empty().push(x));
            self.insert_new(path, items);
        }
    }
}

/// A list of paths in order is the only one of its members.
pub proof fn lemma_sorted_paths_unique(a: Seq<Seq<Seq<char>>>, b: Seq<Seq<Seq<char>>>)
    requires
        sorted_paths(a),
        sorted_paths(b),
        forall|p: Seq<Seq<char>>| #[trigger] a.contains(p) <==> b.contains(p),
    ensures
        a == b,
    decreases a.len(),
{
    if a.len() == 0 {
        if b.len() > 0 {
            assert(b.contains(b[0]));
            assert(a.contains(b[0]));
        }
        assert(a =~= b);
    } else {
        assert(a.contains(a.last()));
        let m = choose|m: int| 0 <= m < b.len() && b[m] == a.last();
        assert(b.contains(b.last()));
        assert(a.contains(b.last()));
        let n = choose|n: int| 0 <= n < a.len() && a[n] == b.last();
        if m < b.len() - 1 {
            assert(path_lt(b[m], b[b.len() - 1]));
            if n < a.len() - 1 {
                assert(path_lt(a[n], a[a.len() - 1]));
                lemma_path_lt_asymmetric(a.last(), b.last());
            } else {
                lemma_path_lt_irreflexive(a.last());
            }
        }
        let a1 = a.drop_last();
        let b1 = b.drop_last();
        assert forall|x: Seq<Seq<char>>| #[trigger] a1.contains(x) <==> b1.contains(x) by {
            if a1.contains(x) {
                let k = choose|k: int| 0 <= k < a1.len() && a1[k] == x;
                assert(a[k] == x);
                assert(a.contains(x));
                lemma_path_lt_asymmetric(a[k], a.last());
                let l = choose|l: int| 0 <= l < b.len() && b[l] == x;
                assert(b1[l] == x);
            }
            if b1.contains(x) {
                let k = choose|k: int| 0 <= k < b1.len() && b1[k] == x;
                assert(b[k] == x);
                assert(b.contains(x));
                assert(a.contains(x));
                lemma_path_lt_asymmetric(b[k], b.last());
                let l = choose|l: int| 0 <= l < a.len() && a[l] == x;
                assert(a1[l] == x);
            }
        }
        lemma_sorted_paths_unique(a1, b1);
        assert(a =~= a1.push(a.last()));
        assert(b =~= b1.push(b.last()));
    }
}

} // verus!
