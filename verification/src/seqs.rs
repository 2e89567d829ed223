//! Sequences: the first item that yields something, and sequences put one behind the other.

use vstd::prelude::*;

verus! {

/// What the first item that yields something yields.
pub open spec fn first_some<A, B>(s: Seq<A>, f: spec_fn(A) -> Option<B>) -> Option<B>
    decreases s.len(),
{
    if s.len() == 0 {
        None
    } else if f(s[0]) is Some {
        f(s[0])
    } else {
        first_some(s.skip(1), f)
    }
}

/// One step of a search from the front.
pub proof fn lemma_first_some_step<A, B>(s: Seq<A>, f: spec_fn(A) -> Option<B>, i: int)
    requires
        0 <= i < s.len(),
    ensures
        first_some(s.skip(i), f) == (if f(s[i]) is Some {
            f(s[i])
        } else {
            first_some(s.skip(i + 1), f)
        }),
{
    assert(s.skip(i)[0] == s[i]);
    assert(s.skip(i).skip(1) =~= s.skip(i + 1));
}

/// What the items yield, one behind the other.
pub open spec fn flat<A, B>(s: Seq<A>, f: spec_fn(A) -> Seq<B>) -> Seq<B>
    decreases s.len(),
{
    if s.len() == 0 {
        seq![]
    } else {
        flat(s.drop_last(), f) + f(s.last())
    }
}

/// What one more item yields comes behind.
pub proof fn lemma_flat_step<A, B>(s: Seq<A>, f: spec_fn(A) -> Seq<B>, i: int)
    requires
        0 <= i < s.len(),
    ensures
        flat(s.take(i + 1), f) == flat(s.take(i), f) + f(s[i]),
{
    assert(s.take(i + 1).drop_last() =~= s.take(i));
    assert(s.take(i + 1).last() == s[i]);
}

/// Nothing yields nothing.
pub proof fn lemma_flat_start<A, B>(s: Seq<A>, f: spec_fn(A) -> Seq<B>)
    ensures
        flat(s.take(0), f) == Seq::<B>::empty(),
{
}

/// Nothing picked from nothing.
pub proof fn lemma_filter_map_start<A, B>(s: Seq<A>, f: spec_fn(A) -> Option<B>)
    ensures
        s.take(0).filter_map(f) == Seq::<B>::empty(),
{
    assert(s.take(0) =~= seq![]);
    reveal(Seq::filter_map);
}

/// What is picked from two sequences, one behind the other, is what is picked from each.
pub proof fn lemma_filter_map_add<A, B>(a: Seq<A>, b: Seq<A>, f: spec_fn(A) -> Option<B>)
    ensures
        (a + b).filter_map(f) == a.filter_map(f) + b.filter_map(f),
    decreases b.len(),
{
    reveal(Seq::filter_map);
    if b.len() == 0 {
        assert(a + b =~= a);
        assert(b.filter_map(f) =~= seq![]);
        assert(a.filter_map(f) + b.filter_map(f) =~= a.filter_map(f));
    } else {
        lemma_filter_map_add(a, b.drop_last(), f);
        assert((a + b).drop_last() =~= a + b.drop_last());
        assert((a + b).last() == b.last());
        assert((a + b).filter_map(f) =~= a.filter_map(f) + b.filter_map(f));
    }
}

/// What an item yields is picked.
pub proof fn lemma_picked<A, B>(s: Seq<A>, f: spec_fn(A) -> Option<B>, i: int) -> (j: int)
    requires
        0 <= i < s.len(),
        f(s[i]) is Some,
    ensures
        0 <= j < s.filter_map(f).len(),
        s.filter_map(f)[j] == f(s[i])->0,
    decreases s.len(),
{
    reveal(Seq::filter_map);
    let front = s.drop_last();
    if i == s.len() - 1 {
        front.filter_map(f).len() as int
    } else {
        assert(front[i] == s[i]);
        let j = lemma_picked(front, f, i);
        assert(s.filter_map(f)[j] == front.filter_map(f)[j]);
        j
    }
}

/// What is picked was yielded by an item.
pub proof fn lemma_picked_from<A, B>(s: Seq<A>, f: spec_fn(A) -> Option<B>, j: int) -> (i: int)
    requires
        0 <= j < s.filter_map(f).len(),
    ensures
        0 <= i < s.len(),
        f(s[i]) == Some(s.filter_map(f)[j]),
    decreases s.len(),
{
    reveal(Seq::filter_map);
    let front = s.drop_last();
    if s.len() == 0 {
        assert(false);
        0
    } else if j < front.filter_map(f).len() {
        let i = lemma_picked_from(front, f, j);
        assert(front[i] == s[i]);
        i
    } else {
        s.len() - 1
    }
}

/// What an item yields stands in the whole.
pub proof fn lemma_in_flat<A, B>(s: Seq<A>, f: spec_fn(A) -> Seq<B>, i: int, k: int) -> (j: int)
    requires
        0 <= i < s.len(),
        0 <= k < f(s[i]).len(),
    ensures
        0 <= j < flat(s, f).len(),
        flat(s, f)[j] == f(s[i])[k],
    decreases s.len(),
{
    let front = s.drop_last();
    if i == s.len() - 1 {
        flat(front, f).len() + k
    } else {
        assert(front[i] == s[i]);
        lemma_in_flat(front, f, i, k)
    }
}

/// What stands in the whole was yielded by an item.
pub proof fn lemma_from_flat<A, B>(s: Seq<A>, f: spec_fn(A) -> Seq<B>, j: int) -> (r: (int, int))
    requires
        0 <= j < flat(s, f).len(),
    ensures
        0 <= r.0 < s.len(),
        0 <= r.1 < f(s[r.0]).len(),
        flat(s, f)[j] == f(s[r.0])[r.1],
    decreases s.len(),
{
    if s.len() == 0 {
        assert(false);
        (0, 0)
    } else {
        let front = s.drop_last();
        if j < flat(front, f).len() {
            let r = lemma_from_flat(front, f, j);
            assert(front[r.0] == s[r.0]);
            r
        } else {
            (s.len() - 1, j - flat(front, f).len())
        }
    }
}

/// The first value that `f` gives is the one at `i`, where it gives none before.
pub proof fn lemma_first_given<A, B>(s: Seq<A>, f: spec_fn(A) -> Option<B>, i: int)
    requires
        0 <= i < s.len(),
        f(s[i]) is Some,
        forall|j: int| 0 <= j < i ==> f(#[trigger] s[j]) is None,
    ensures
        first_some(s, f) == f(s[i]),
    decreases i,
{
    if i > 0 {
        assert(f(s[0]) is None);
        let t = s.skip(1);
        assert(t[i - 1] == s[i]);
        assert forall|j: int| 0 <= j < i - 1 implies f(#[trigger] t[j]) is None by {
            assert(t[j] == s[j + 1]);
        }
        lemma_first_given(t, f, i - 1);
    }
}

/// What `f` gives first it gives of one of the items; it gives nothing where it gives nothing of any.
pub proof fn lemma_given<A, B>(s: Seq<A>, f: spec_fn(A) -> Option<B>)
    ensures
        match first_some(s, f) {
            Some(x) => exists|i: int| 0 <= i < s.len() && f(#[trigger] s[i]) == Some(x),
            None => forall|i: int| 0 <= i < s.len() ==> f(#[trigger] s[i]) is None,
        },
    decreases s.len(),
{
    if s.len() > 0 && f(s[0]) is None {
        let t = s.skip(1);
        lemma_given(t, f);
        match first_some(t, f) {
            Some(x) => {
                let i = choose|i: int| 0 <= i < t.len() && f(#[trigger] t[i]) == Some(x);
                assert(f(s[i + 1]) == Some(x));
            },
            None => {
                assert forall|i: int| 0 <= i < s.len() implies f(#[trigger] s[i]) is None by {
                    if i > 0 {
                        assert(f(t[i - 1]) is None);
                    }
                }
            },
        }
    } else if s.len() > 0 {
        assert(f(s[0]) is Some);
    }
}

} // verus!
