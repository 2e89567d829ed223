//! The dictionary order on text, and sorted lists of distinct keys.

use vstd::prelude::*;

use crate::text::{chars_of, same};

verus! {

/// Dictionary order, character by character; a proper prefix comes first.
pub open spec fn chars_lt(a: Seq<char>, b: Seq<char>) -> bool
    decreases a.len(),
{
    if b.len() == 0 {
        false
    } else if a.len() == 0 {
        true
    } else if a[0] != b[0] {
        a[0] < b[0]
    } else {
        chars_lt(a.skip(1), b.skip(1))
    }
}

/// Nothing comes before itself.
pub proof fn lemma_chars_lt_irreflexive(a: Seq<char>)
    ensures
        !chars_lt(a, a),
    decreases a.len(),
{
    if a.len() > 0 {
        lemma_chars_lt_irreflexive(a.skip(1));
    }
}

/// The order is transitive.
pub proof fn lemma_chars_lt_transitive(a: Seq<char>, b: Seq<char>, c: Seq<char>)
    requires
        chars_lt(a, b),
        chars_lt(b, c),
    ensures
        chars_lt(a, c),
    decreases a.len(),
{
    if a.len() > 0 && a[0] == b[0] && b[0] == c[0] {
        lemma_chars_lt_transitive(a.skip(1), b.skip(1), c.skip(1));
    }
}

/// Two different texts are ordered one way or the other.
pub proof fn lemma_chars_lt_total(a: Seq<char>, b: Seq<char>)
    ensures
        a == b || chars_lt(a, b) || chars_lt(b, a),
    decreases a.len(),
{
    if a.len() == 0 {
        if b.len() == 0 {
            assert(a =~= b);
        }
    } else if b.len() > 0 && a[0] == b[0] {
        lemma_chars_lt_total(a.skip(1), b.skip(1));
        if a.skip(1) == b.skip(1) {
            assert(a =~= seq![a[0]] + a.skip(1));
            assert(b =~= seq![b[0]] + b.skip(1));
        }
    }
}

/// The order goes one way only.
pub proof fn lemma_chars_lt_asymmetric(a: Seq<char>, b: Seq<char>)
    requires
        chars_lt(a, b),
    ensures
        !chars_lt(b, a),
        a != b,
{
    lemma_chars_lt_irreflexive(a);
    if chars_lt(b, a) {
        lemma_chars_lt_transitive(a, b, a);
    }
}

/// Whether `a` comes before `b`.
pub fn chars_before(a: &[char], b: &[char]) -> (r: bool)
    ensures
        r == chars_lt(a@, b@),
{
    let mut i: usize = 0;
    assert(a@.skip(0) =~= a@);
    assert(b@.skip(0) =~= b@);
    while i < a.len() && i < b.len() && a[i] == b[i]
        invariant
            i <= a@.len(),
            i <= b@.len(),
            chars_lt(a@, b@) == chars_lt(a@.skip(i as int), b@.skip(i as int)),
        decreases a@.len() - i,
    {
        assert(a@.skip(i as int).skip(1) =~= a@.skip(i + 1));
        assert(b@.skip(i as int).skip(1) =~= b@.skip(i + 1));
        i = i + 1;
    }
    if i >= b.len() {
        false
    } else if i >= a.len() {
        true
    } else {
        a[i] < b[i]
    }
}

/// Whether the text `a` comes before the text `b`.
pub fn str_before(a: &str, b: &str) -> (r: bool)
    ensures
        r == chars_lt(a@, b@),
{
    let x = chars_of(a);
    let y = chars_of(b);
    chars_before(x.as_slice(), y.as_slice())
}

/// Keys in strictly rising order, so that none occurs twice.
pub open spec fn sorted_keys(s: Seq<Seq<char>>) -> bool {
    forall|i: int, j: int| 0 <= i < j < s.len() ==> chars_lt(#[trigger] s[i], #[trigger] s[j])
}

/// Put `key` into its place in a sorted list, unless it is there already.
pub fn insert_key(keys: &mut Vec<String>, key: &str)
    requires
        sorted_keys(old(keys).deep_view()),
    ensures
        sorted_keys(final(keys).deep_view()),
        final(keys).deep_view().to_set() == old(keys).deep_view().to_set().insert(key@),
{
    let ghost before = keys.deep_view();
    let mut i: usize = 0;
    while i < keys.len() && str_before(keys[i].as_str(), key)
        invariant
            i <= keys.len(),
            keys.deep_view() == before,
            forall|j: int| 0 <= j < i ==> chars_lt(#[trigger] before[j], key@),
        decreases keys.len() - i,
    {
        i = i + 1;
    }
    if i < keys.len() && same(keys[i].as_str(), key) {
        proof {
            assert(before[i as int] == key@);
            assert(before.to_set().insert(key@) =~= before.to_set());
        }
    } else {
        let k = key.to_owned();
        keys.insert(i, k);
        let ghost after = keys.deep_view();
        proof {
            assert(after =~= before.insert(i as int, key@));
            if i < before.len() {
                lemma_chars_lt_total(before[i as int], key@);
            }
            assert forall|a: int, b: int| 0 <= a < b < after.len() implies chars_lt(
                #[trigger] after[a],
                #[trigger] after[b],
            ) by {
                if a == i {
                    if b > i + 1 {
                        lemma_chars_lt_transitive(key@, before[i as int], before[b - 1]);
                    }
                } else if b == i {
                } else {
                    let a0 = if a < i { a } else { a - 1 };
                    let b0 = if b < i { b } else { b - 1 };
                    assert(after[a] == before[a0]);
                    assert(after[b] == before[b0]);
                }
            }
            assert forall|x: Seq<char>| #[trigger] after.to_set().contains(x) <==> before.to_set().insert(key@).contains(x) by {
                if after.contains(x) {
                    let n = choose|n: int| 0 <= n < after.len() && after[n] == x;
                    if n < i {
                        assert(before[n] == x);
                    } else if n > i {
                        assert(before[n - 1] == x);
                    }
                }
                if before.contains(x) {
                    let n = choose|n: int| 0 <= n < before.len() && before[n] == x;
                    if n < i {
                        assert(after[n] == x);
                    } else {
                        assert(after[n + 1] == x);
                    }
                }
                if x == key@ {
                    assert(after[i as int] == x);
                }
            }
            assert(after.to_set() =~= before.to_set().insert(key@));
        }
    }
}

/// A sorted list is the only sorted list of its keys.
pub proof fn lemma_sorted_keys_unique(a: Seq<Seq<char>>, b: Seq<Seq<char>>)
    requires
        sorted_keys(a),
        sorted_keys(b),
        a.to_set() == b.to_set(),
    ensures
        a == b,
    decreases a.len(),
{
    if a.len() == 0 {
        if b.len() > 0 {
            assert(b.to_set().contains(b[0]));
            assert(a.contains(b[0]));
        }
        assert(a =~= b);
    } else {
        assert(a.to_set().contains(a.last()));
        assert(b.contains(a.last()));
        let m = choose|m: int| 0 <= m < b.len() && b[m] == a.last();
        assert(b.to_set().contains(b.last()));
        assert(a.contains(b.last()));
        let n = choose|n: int| 0 <= n < a.len() && a[n] == b.last();
        if m < b.len() - 1 {
            assert(chars_lt(b[m], b[b.len() - 1]));
            if n < a.len() - 1 {
                assert(chars_lt(a[n], a[a.len() - 1]));
                lemma_chars_lt_asymmetric(a.last(), b.last());
            } else {
                lemma_chars_lt_irreflexive(a.last());
            }
        }
        let a1 = a.drop_last();
        let b1 = b.drop_last();
        assert forall|x: Seq<char>| #[trigger] a1.to_set().contains(x) <==> b1.to_set().contains(x) by {
            if a1.contains(x) {
                let k = choose|k: int| 0 <= k < a1.len() && a1[k] == x;
                assert(a[k] == x);
                lemma_chars_lt_asymmetric(a[k], a.last());
                assert(a.to_set().contains(x));
                assert(b.contains(x));
                let l = choose|l: int| 0 <= l < b.len() && b[l] == x;
                assert(b1[l] == x);
            }
            if b1.contains(x) {
                let k = choose|k: int| 0 <= k < b1.len() && b1[k] == x;
                assert(b[k] == x);
                lemma_chars_lt_asymmetric(b[k], b.last());
                assert(b.to_set().contains(x));
                assert(a.contains(x));
                let l = choose|l: int| 0 <= l < a.len() && a[l] == x;
                assert(a1[l] == x);
            }
        }
        assert(a1.to_set() =~= b1.to_set());
        lemma_sorted_keys_unique(a1, b1);
        assert(a =~= a1.push(a.last()));
        assert(b =~= b1.push(b.last()));
    }
}

} // verus!
