//! What the rows of an account say of its claims.

use vstd::prelude::*;

use crate::attribution::accounting::{
    accounted, baseline_part, baseline_share, children_sum, claimed_paths, claims_at,
    common_entries, dedup, entry_paths, entry_raws, exclusive, exclusive_part, group_bytes,
    group_part, has_ecosystem, in_ecosystem_of, is_account, is_breakdown, is_common, is_footprint,
    is_group, is_least, is_orphan, is_parent, known_size, lemma_claimed_paths, listed_owners,
    nested, on_path, owned_by, owned_entries, primary, raw_entries, reach, reach_part,
    reaches_clone, real_owners, shared, shared_part, sum_of, universe_of, unowned_reason, upsert,
    AccountedView,
};
use crate::attribution::laws::{
    covers, entries_of, law_dedup_keeps_each_owners_surest_claim, one_per_owner,
};
use crate::attribution::model::{
    tier_rank, Axis, ClaimView, EntryKind, EntryView, EvidenceTier, GroupView, OwnerView, SetView,
};
use crate::attribution::paths::canonical;
use crate::disk::DiskView;
use crate::fspath::{below, under};
use crate::order::{chars_lt, lemma_chars_lt_irreflexive, lemma_chars_lt_transitive};
use crate::scan::TreeView;

verus! {

/// The claims on a path, in the order in which they were made.
pub open spec fn claims_on(claims: Seq<ClaimView>, p: Seq<Seq<char>>) -> Seq<ClaimView> {
    claims.filter(|c: ClaimView| canonical(c.path) == p)
}

/// How sure evidence is, the surest first.
pub open spec fn sureness(t: EvidenceTier) -> int {
    match t {
        EvidenceTier::Exact => 1,
        EvidenceTier::NameMatch => 2,
        EvidenceTier::Observed => 3,
        EvidenceTier::EcosystemDefault => 4,
        EvidenceTier::Curated => 5,
    }
}

/// Whether the claim at `m` is the one of its owner that counts: none of the owner's is surer, and of
/// equally sure ones it is the first.
pub open spec fn kept(l: Seq<ClaimView>, m: int) -> bool {
    0 <= m < l.len() && forall|n: int|
        0 <= n < l.len() && n != m && (#[trigger] l[n]).owner == l[m].owner ==> sureness(l[n].tier)
            > sureness(l[m].tier) || (sureness(l[n].tier) == sureness(l[m].tier) && n > m)
}

/// Whether a key stands for an owner, and neither for an ecosystem nor for nobody.
pub open spec fn real_key(k: Seq<char>) -> bool {
    k != "baseline"@ && k != "unattributed"@
}

/// Whether `k` claims something on the list.
pub open spec fn claimed_by(l: Seq<ClaimView>, k: Seq<char>) -> bool {
    exists|m: int| 0 <= m < l.len() && (#[trigger] l[m]).owner == k
}

/// Whether an owner claims something on the list.
pub open spec fn claimed_by_someone(l: Seq<ClaimView>) -> bool {
    exists|m: int| 0 <= m < l.len() && real_key((#[trigger] l[m]).owner)
}

/// Whether `k` is in an ecosystem of the claims on a path that count.
pub open spec fn shares_in(claims: Seq<ClaimView>, p: Seq<Seq<char>>, k: Seq<char>) -> bool {
    real_key(k) && exists|i: int, m: int|
        0 <= i < claims.len() && kept(claims_on(claims, p), m) && (#[trigger] claims[i]).owner == k
            && claims[i].ecosystem is Some && (#[trigger] claims_on(claims, p)[m]).ecosystem
            == claims[i].ecosystem
}

/// The owners that share in what is on a path.
pub open spec fn who_shares(claims: Seq<ClaimView>, p: Seq<Seq<char>>) -> Set<Seq<char>> {
    Set::new(|k: Seq<char>| shares_in(claims, p, k))
}

/// A sum over entries.
pub open spec fn total(es: Seq<EntryView>, f: spec_fn(EntryView) -> nat) -> nat
    decreases es.len(),
{
    if es.len() == 0 {
        0
    } else {
        total(es.drop_last(), f) + f(es.last())
    }
}

/// A sum over the entries of groups.
pub open spec fn groups_total(gs: Seq<GroupView>, f: spec_fn(EntryView) -> nat) -> nat
    decreases gs.len(),
{
    if gs.len() == 0 {
        0
    } else {
        groups_total(gs.drop_last(), f) + total(gs.last().entries, f)
    }
}

/// The whole of an entry.
pub open spec fn whole() -> spec_fn(EntryView) -> nat {
    |e: EntryView| e.bytes as nat
}

/// The whole of an entry where `k` shares in its path.
pub open spec fn whole_if_shared(claims: Seq<ClaimView>, k: Seq<char>) -> spec_fn(
    EntryView,
) -> nat {
    |e: EntryView|
        if shares_in(claims, e.path, k) {
            e.bytes as nat
        } else {
            0
        }
}

/// The whole of an entry that has one owner, unless its bytes are virtual or a clone's.
pub open spec fn whole_if_alone() -> spec_fn(EntryView) -> nat {
    |e: EntryView|
        if e.owners.len() == 1 && !e.virtual_bytes && !e.clone_of_store {
            e.bytes as nat
        } else {
            0
        }
}

/// The slice of `k` in an entry of several owners: equal slices, and what cannot be divided goes to
/// the first.
pub open spec fn slice_of(k: Seq<char>) -> spec_fn(EntryView) -> nat {
    |e: EntryView|
        if e.owners.len() <= 1 || e.virtual_bytes {
            0
        } else if e.owners[0] == k {
            e.bytes as nat / e.owners.len() + e.bytes as nat % e.owners.len()
        } else {
            e.bytes as nat / e.owners.len()
        }
}

/// The slice of `k` in an entry that belongs to its ecosystems.
pub open spec fn share_of(claims: Seq<ClaimView>, k: Seq<char>) -> spec_fn(EntryView) -> nat {
    |e: EntryView|
        {
            let who = who_shares(claims, e.path);
            if !shares_in(claims, e.path, k) {
                0
            } else if forall|x: Seq<char>| #[trigger]
                who.contains(x) ==> x == k || chars_lt(k, x) {
                e.bytes as nat / who.len() + e.bytes as nat % who.len()
            } else {
                e.bytes as nat / who.len()
            }
        }
}

proof fn lemma_same_filter(
    s: Seq<ClaimView>,
    f: spec_fn(ClaimView) -> bool,
    g: spec_fn(ClaimView) -> bool,
)
    requires
        forall|c: ClaimView| #[trigger] f(c) == g(c),
    ensures
        s.filter(f) == s.filter(g),
    decreases s.len(),
{
    reveal(Seq::filter);
    if s.len() > 0 {
        lemma_same_filter(s.drop_last(), f, g);
    }
}

proof fn lemma_claims_on(claims: Seq<ClaimView>, p: Seq<Seq<char>>)
    ensures
        claims_on(claims, p) == claims_at(claims, p),
{
    lemma_same_filter(claims, |c: ClaimView| canonical(c.path) == p, on_path(p));
}

proof fn lemma_sureness(a: EvidenceTier, b: EvidenceTier)
    ensures
        sureness(a) < sureness(b) <==> tier_rank(a) < tier_rank(b),
        sureness(a) == sureness(b) <==> tier_rank(a) == tier_rank(b),
{
}

proof fn lemma_one_of_owner(d: Seq<ClaimView>, x: ClaimView, y: ClaimView)
    requires
        one_per_owner(d),
        d.contains(x),
        d.contains(y),
        x.owner == y.owner,
    ensures
        x == y,
{
    let i = choose|i: int| 0 <= i < d.len() && d[i] == x;
    let j = choose|j: int| 0 <= j < d.len() && d[j] == y;
    if i < j {
        assert(chars_lt(d[i].owner, d[j].owner));
        lemma_chars_lt_irreflexive(x.owner);
    } else if j < i {
        assert(chars_lt(d[j].owner, d[i].owner));
        lemma_chars_lt_irreflexive(x.owner);
    }
}

#[verifier::rlimit(40)]
proof fn lemma_upsert_holds(d: Seq<ClaimView>, c: ClaimView, x: ClaimView)
    requires
        one_per_owner(d),
    ensures
        x.owner != c.owner ==> (upsert(d, c).contains(x) <==> d.contains(x)),
        x.owner == c.owner ==> (upsert(d, c).contains(x) <==> if d.contains(x) {
            tier_rank(x.tier) <= tier_rank(c.tier) || x == c
        } else {
            x == c && forall|y: ClaimView| #[trigger]
                d.contains(y) && y.owner == c.owner ==> tier_rank(y.tier) > tier_rank(c.tier)
        }),
    decreases d.len(),
{
    let u = upsert(d, c);
    if d.len() == 0 {
        assert(u =~= seq![c]);
        assert(u.contains(x) <==> x == c) by {
            assert(u[0] == c);
        }
    } else {
        let h = d[0];
        let t = d.skip(1);
        assert(one_per_owner(t)) by {
            assert forall|i: int, j: int| 0 <= i < j < t.len() implies chars_lt(
                (#[trigger] t[i]).owner,
                (#[trigger] t[j]).owner,
            ) by {
                assert(chars_lt(d[i + 1].owner, d[j + 1].owner));
            }
        }
        assert forall|y: ClaimView| d.contains(y) <==> y == h || #[trigger] t.contains(y) by {
            if d.contains(y) {
                let i = choose|i: int| 0 <= i < d.len() && d[i] == y;
                if i > 0 {
                    assert(t[i - 1] == y);
                }
            }
            if t.contains(y) {
                let i = choose|i: int| 0 <= i < t.len() && t[i] == y;
                assert(d[i + 1] == y);
            }
            assert(d[0] == h);
        }
        assert forall|y: ClaimView| #[trigger] t.contains(y) implies y.owner != h.owner by {
            let i = choose|i: int| 0 <= i < t.len() && t[i] == y;
            assert(chars_lt(d[0].owner, d[i + 1].owner));
            lemma_chars_lt_irreflexive(h.owner);
        }
        if h.owner == c.owner {
            if tier_rank(h.tier) <= tier_rank(c.tier) {
                assert(d.contains(h));
                if x.owner == c.owner && d.contains(x) {
                    assert(x == h || t.contains(x));
                    assert(x == h);
                }
            } else {
                assert(u =~= seq![c] + t);
                assert(u.contains(x) <==> x == c || t.contains(x)) by {
                    if u.contains(x) {
                        let i = choose|i: int| 0 <= i < u.len() && u[i] == x;
                        if i > 0 {
                            assert(t[i - 1] == x);
                        }
                    }
                    if t.contains(x) {
                        let i = choose|i: int| 0 <= i < t.len() && t[i] == x;
                        assert(u[i + 1] == x);
                    }
                    assert(u[0] == c);
                }
                assert forall|y: ClaimView| #[trigger]
                    d.contains(y) && y.owner == c.owner implies tier_rank(y.tier) > tier_rank(
                    c.tier,
                ) by {
                    assert(y == h || t.contains(y));
                }
            }
        } else if chars_lt(c.owner, h.owner) {
            assert(u =~= seq![c] + d);
            assert(u.contains(x) <==> x == c || d.contains(x)) by {
                if u.contains(x) {
                    let i = choose|i: int| 0 <= i < u.len() && u[i] == x;
                    if i > 0 {
                        assert(d[i - 1] == x);
                    }
                }
                if d.contains(x) {
                    let i = choose|i: int| 0 <= i < d.len() && d[i] == x;
                    assert(u[i + 1] == x);
                }
                assert(u[0] == c);
            }
            assert forall|y: ClaimView| #[trigger] d.contains(y) implies y.owner != c.owner by {
                let i = choose|i: int| 0 <= i < d.len() && d[i] == y;
                if i > 0 {
                    assert(chars_lt(d[0].owner, d[i].owner));
                    lemma_chars_lt_transitive(c.owner, h.owner, y.owner);
                }
                lemma_chars_lt_irreflexive(c.owner);
            }
        } else {
            let v = upsert(t, c);
            assert(u =~= seq![h] + v);
            lemma_upsert_holds(t, c, x);
            assert(u.contains(x) <==> x == h || v.contains(x)) by {
                if u.contains(x) {
                    let i = choose|i: int| 0 <= i < u.len() && u[i] == x;
                    if i > 0 {
                        assert(v[i - 1] == x);
                    }
                }
                if v.contains(x) {
                    let i = choose|i: int| 0 <= i < v.len() && v[i] == x;
                    assert(u[i + 1] == x);
                }
                assert(u[0] == h);
            }
            if x.owner == c.owner && !d.contains(x) {
                assert((forall|y: ClaimView| #[trigger]
                    d.contains(y) && y.owner == c.owner ==> tier_rank(y.tier) > tier_rank(c.tier))
                    <==> (forall|y: ClaimView| #[trigger]
                    t.contains(y) && y.owner == c.owner ==> tier_rank(y.tier) > tier_rank(c.tier)))
                    by {
                    if forall|y: ClaimView| #[trigger]
                        d.contains(y) && y.owner == c.owner ==> tier_rank(y.tier) > tier_rank(
                            c.tier,
                        ) {
                        assert forall|y: ClaimView| #[trigger]
                            t.contains(y) && y.owner == c.owner implies tier_rank(y.tier)
                            > tier_rank(c.tier) by {
                            assert(d.contains(y));
                        }
                    }
                    if forall|y: ClaimView| #[trigger]
                        t.contains(y) && y.owner == c.owner ==> tier_rank(y.tier) > tier_rank(
                            c.tier,
                        ) {
                        assert forall|y: ClaimView| #[trigger]
                            d.contains(y) && y.owner == c.owner implies tier_rank(y.tier)
                            > tier_rank(c.tier) by {
                            assert(y == h || t.contains(y));
                        }
                    }
                }
            }
        }
    }
}

/// The claims that count are the kept ones.
#[verifier::spinoff_prover]
#[verifier::rlimit(80)]
proof fn lemma_dedup_is_kept(l: Seq<ClaimView>)
    ensures
        forall|m: int| #[trigger] kept(l, m) ==> dedup(l).contains(l[m]),
        forall|x: ClaimView| #[trigger]
            dedup(l).contains(x) ==> exists|m: int| #[trigger] kept(l, m) && l[m] == x,
    decreases l.len(),
{
    if l.len() > 0 {
        let f = l.drop_last();
        let c = l.last();
        let n = l.len() - 1;
        let d = dedup(f);
        lemma_dedup_is_kept(f);
        law_dedup_keeps_each_owners_surest_claim(f);
        assert forall|m: int| #[trigger] kept(l, m) implies dedup(l).contains(l[m]) by {
            lemma_upsert_holds(d, c, l[m]);
            if m < n {
                assert(f[m] == l[m]);
                assert(kept(f, m)) by {
                    assert forall|k: int|
                        0 <= k < f.len() && k != m && (#[trigger] f[k]).owner == f[m].owner implies sureness(
                        f[k].tier,
                    ) > sureness(f[m].tier) || (sureness(f[k].tier) == sureness(f[m].tier) && k > m) by {
                        assert(f[k] == l[k]);
                    }
                }
                assert(d.contains(l[m]));
                if l[m].owner == c.owner {
                    assert(l[n].owner == l[m].owner);
                    lemma_sureness(c.tier, l[m].tier);
                }
            } else {
                if d.contains(c) {
                    let k = choose|k: int| #[trigger] kept(f, k) && f[k] == c;
                    assert(l[k] == f[k]);
                    assert(false);
                }
                assert forall|y: ClaimView| #[trigger]
                    d.contains(y) && y.owner == c.owner implies tier_rank(y.tier) > tier_rank(
                    c.tier,
                ) by {
                    let k = choose|k: int| #[trigger] kept(f, k) && f[k] == y;
                    assert(l[k] == f[k]);
                    lemma_sureness(y.tier, c.tier);
                    lemma_sureness(c.tier, y.tier);
                }
            }
        }
        assert forall|x: ClaimView| #[trigger] dedup(l).contains(x) implies exists|m: int| #[trigger]
            kept(l, m) && l[m] == x by {
            lemma_upsert_holds(d, c, x);
            if d.contains(x) && (x.owner != c.owner || tier_rank(x.tier) <= tier_rank(c.tier)) {
                let k = choose|k: int| #[trigger] kept(f, k) && f[k] == x;
                assert(l[k] == f[k]);
                assert(kept(l, k)) by {
                    assert forall|j: int|
                        0 <= j < l.len() && j != k && (#[trigger] l[j]).owner == l[k].owner implies sureness(
                        l[j].tier,
                    ) > sureness(l[k].tier) || (sureness(l[j].tier) == sureness(l[k].tier) && j > k) by {
                        if j < n {
                            assert(f[j] == l[j]);
                        } else {
                            lemma_sureness(x.tier, c.tier);
                        }
                    }
                }
            } else {
                assert(x == c);
                assert forall|y: ClaimView| #[trigger]
                    d.contains(y) && y.owner == c.owner implies tier_rank(y.tier) > tier_rank(
                    c.tier,
                ) by {
                    if d.contains(c) {
                        lemma_one_of_owner(d, c, y);
                    }
                }
                assert(kept(l, n)) by {
                    assert forall|j: int|
                        0 <= j < l.len() && j != n && (#[trigger] l[j]).owner == l[n].owner implies sureness(
                        l[j].tier,
                    ) > sureness(l[n].tier) || (sureness(l[j].tier) == sureness(l[n].tier) && j > n) by {
                        assert(f[j] == l[j]);
                        assert(covers(d, f[j]));
                        let i = choose|i: int|
                            0 <= i < d.len() && (#[trigger] d[i]).owner == f[j].owner && tier_rank(
                                d[i].tier,
                            ) <= tier_rank(f[j].tier);
                        assert(d.contains(d[i]));
                        lemma_sureness(c.tier, f[j].tier);
                    }
                }
                assert(l[n] == x);
            }
        }
    }
}

proof fn lemma_members(claims: Seq<ClaimView>, p: Seq<Seq<char>>, k: Seq<char>)
    ensures
        universe_of(claims, dedup(claims_at(claims, p))).contains(k) <==> shares_in(claims, p, k),
{
    let l = claims_on(claims, p);
    lemma_claims_on(claims, p);
    let d = dedup(l);
    lemma_dedup_is_kept(l);
    if in_ecosystem_of(claims, d, k) {
        let i = choose|i: int|
            #![trigger claims[i]]
            0 <= i < claims.len() && claims[i].owner == k && claims[i].ecosystem is Some
                && has_ecosystem(d, claims[i].ecosystem->0);
        let e = claims[i].ecosystem->0;
        let j = choose|j: int| 0 <= j < d.len() && (#[trigger] d[j]).ecosystem == Some(e);
        assert(d.contains(d[j]));
        let m = choose|m: int| #[trigger] kept(l, m) && l[m] == d[j];
        assert(claims_on(claims, p)[m].ecosystem == claims[i].ecosystem);
    }
    if shares_in(claims, p, k) {
        let (i, m) = choose|i: int, m: int|
            0 <= i < claims.len() && kept(claims_on(claims, p), m) && (#[trigger] claims[i]).owner
                == k && claims[i].ecosystem is Some && (#[trigger] claims_on(
                claims,
                p,
            )[m]).ecosystem == claims[i].ecosystem;
        assert(d.contains(l[m]));
        let j = choose|j: int| 0 <= j < d.len() && d[j] == l[m];
        assert(d[j].ecosystem == Some(claims[i].ecosystem->0));
        assert(has_ecosystem(d, claims[i].ecosystem->0));
    }
}

proof fn lemma_sum_split(
    s: Seq<AccountedView>,
    f: spec_fn(AccountedView) -> nat,
    g: spec_fn(AccountedView) -> nat,
    h: spec_fn(AccountedView) -> nat,
)
    requires
        forall|i: int|
            0 <= i < s.len() ==> f(#[trigger] s[i]) == g(s[i]) + h(s[i]),
    ensures
        sum_of(s, f) == sum_of(s, g) + sum_of(s, h),
    decreases s.len(),
{
    if s.len() > 0 {
        let t = s.drop_last();
        assert forall|i: int| 0 <= i < t.len() implies f(#[trigger] t[i]) == g(t[i]) + h(t[i]) by {
            assert(t[i] == s[i]);
        }
        lemma_sum_split(t, f, g, h);
        assert(f(s[s.len() - 1]) == g(s[s.len() - 1]) + h(s[s.len() - 1]));
    }
}

proof fn lemma_sum_same(
    s: Seq<AccountedView>,
    f: spec_fn(AccountedView) -> nat,
    g: spec_fn(AccountedView) -> nat,
)
    requires
        forall|i: int| 0 <= i < s.len() ==> f(#[trigger] s[i]) == g(s[i]),
    ensures
        sum_of(s, f) == sum_of(s, g),
    decreases s.len(),
{
    if s.len() > 0 {
        let t = s.drop_last();
        assert forall|i: int| 0 <= i < t.len() implies f(#[trigger] t[i]) == g(t[i]) by {
            assert(t[i] == s[i]);
        }
        lemma_sum_same(t, f, g);
        assert(f(s[s.len() - 1]) == g(s[s.len() - 1]));
    }
}

proof fn lemma_total_remove(es: Seq<EntryView>, f: spec_fn(EntryView) -> nat, i: int)
    requires
        0 <= i < es.len(),
    ensures
        total(es, f) == total(es.remove(i), f) + f(es[i]),
    decreases es.len(),
{
    let r = es.remove(i);
    if i == es.len() - 1 {
        assert(r =~= es.drop_last());
    } else {
        let front = es.drop_last();
        lemma_total_remove(front, f, i);
        assert(front.remove(i) =~= r.drop_last());
        assert(r.last() == es.last());
    }
}

proof fn lemma_total_of_multiset(
    a: Seq<EntryView>,
    b: Seq<EntryView>,
    f: spec_fn(EntryView) -> nat,
)
    requires
        a.to_multiset() == b.to_multiset(),
    ensures
        total(a, f) == total(b, f),
    decreases a.len(),
{
    broadcast use vstd::seq_lib::group_to_multiset_ensures;

    assert(a.len() == a.to_multiset().len());
    assert(b.len() == b.to_multiset().len());
    if a.len() > 0 {
        let x = a.last();
        assert(a.contains(x));
        assert(a.to_multiset().count(x) > 0);
        assert(b.contains(x));
        let i = choose|i: int| 0 <= i < b.len() && b[i] == x;
        let n = a.len() - 1;
        lemma_total_remove(b, f, i);
        assert(a.remove(n) =~= a.drop_last());
        assert(a.drop_last().to_multiset() =~= a.to_multiset().remove(x));
        assert(b.remove(i).to_multiset() =~= b.to_multiset().remove(x));
        lemma_total_of_multiset(a.drop_last(), b.remove(i), f);
    }
}

/// A sum over the entries of some kinds that `k` owns.
spec fn kinds_total(
    s: Seq<AccountedView>,
    k: Seq<char>,
    kinds: Seq<EntryKind>,
    f: spec_fn(EntryView) -> nat,
) -> nat
    decreases kinds.len(),
{
    if kinds.len() == 0 {
        0
    } else {
        kinds_total(s, k, kinds.drop_last(), f) + total(owned_entries(s, k, kinds.last()), f)
    }
}

spec fn kinds_of(gs: Seq<GroupView>) -> Seq<EntryKind> {
    Seq::new(gs.len(), |i: int| gs[i].kind)
}

proof fn lemma_groups_are_kinds(
    gs: Seq<GroupView>,
    s: Seq<AccountedView>,
    k: Seq<char>,
    f: spec_fn(EntryView) -> nat,
)
    requires
        forall|i: int| 0 <= i < gs.len() ==> is_group(#[trigger] gs[i], s, k),
    ensures
        groups_total(gs, f) == kinds_total(s, k, kinds_of(gs), f),
    decreases gs.len(),
{
    if gs.len() > 0 {
        let front = gs.drop_last();
        assert forall|i: int| 0 <= i < front.len() implies is_group(#[trigger] front[i], s, k) by {
            assert(front[i] == gs[i]);
        }
        lemma_groups_are_kinds(front, s, k, f);
        assert(kinds_of(front) =~= kinds_of(gs).drop_last());
        assert(is_group(gs[gs.len() - 1], s, k));
        lemma_total_of_multiset(gs.last().entries, owned_entries(s, k, gs.last().kind), f);
    }
}

proof fn lemma_kinds_step(
    s: Seq<AccountedView>,
    k: Seq<char>,
    kinds: Seq<EntryKind>,
    f: spec_fn(EntryView) -> nat,
)
    requires
        s.len() > 0,
        kinds.no_duplicates(),
    ensures
        kinds_total(s, k, kinds, f) == kinds_total(s.drop_last(), k, kinds, f) + (if owned_by(
            s.last().entry,
            k,
        ) && kinds.contains(s.last().entry.kind) {
            f(s.last().entry)
        } else {
            0
        }),
    decreases kinds.len(),
{
    let e = s.last().entry;
    if kinds.len() > 0 {
        let front = kinds.drop_last();
        let z = kinds.last();
        assert(front.no_duplicates());
        lemma_kinds_step(s, k, front, f);
        let was = owned_entries(s.drop_last(), k, z);
        if owned_by(e, k) && e.kind == z {
            assert(owned_entries(s, k, z) =~= was.push(e));
            assert(was.push(e).drop_last() =~= was);
            assert(kinds[kinds.len() - 1] == z);
            assert(!front.contains(z)) by {
                if front.contains(z) {
                    let i = choose|i: int| 0 <= i < front.len() && front[i] == z;
                    assert(kinds[i] == kinds[kinds.len() - 1]);
                }
            }
        } else {
            assert(owned_entries(s, k, z) == was);
            if kinds.contains(e.kind) && owned_by(e, k) {
                let i = choose|i: int| 0 <= i < kinds.len() && kinds[i] == e.kind;
                assert(front[i] == e.kind);
            }
            if front.contains(e.kind) {
                let i = choose|i: int| 0 <= i < front.len() && front[i] == e.kind;
                assert(kinds[i] == e.kind);
            }
        }
    } else {
        assert(!kinds.contains(e.kind));
    }
}

proof fn lemma_no_kinds_total(k: Seq<char>, kinds: Seq<EntryKind>, f: spec_fn(EntryView) -> nat)
    ensures
        kinds_total(Seq::<AccountedView>::empty(), k, kinds, f) == 0,
    decreases kinds.len(),
{
    if kinds.len() > 0 {
        lemma_no_kinds_total(k, kinds.drop_last(), f);
    }
}

proof fn lemma_kinds_sum(
    s: Seq<AccountedView>,
    k: Seq<char>,
    kinds: Seq<EntryKind>,
    f: spec_fn(EntryView) -> nat,
)
    requires
        kinds.no_duplicates(),
        forall|i: int|
            0 <= i < s.len() && owned_by((#[trigger] s[i]).entry, k) ==> kinds.contains(
                s[i].entry.kind,
            ),
    ensures
        kinds_total(s, k, kinds, f) == sum_of(
            s,
            |a: AccountedView|
                if owned_by(a.entry, k) {
                    f(a.entry)
                } else {
                    0
                },
        ),
    decreases s.len(),
{
    if s.len() == 0 {
        assert(s =~= seq![]);
        lemma_no_kinds_total(k, kinds, f);
    } else {
        let front = s.drop_last();
        assert forall|i: int|
            0 <= i < front.len() && owned_by((#[trigger] front[i]).entry, k) implies kinds.contains(
            front[i].entry.kind,
        ) by {
            assert(front[i] == s[i]);
        }
        lemma_kinds_sum(front, k, kinds, f);
        lemma_kinds_step(s, k, kinds, f);
        assert(s[s.len() - 1] == s.last());
    }
}

proof fn lemma_owned_kind(s: Seq<AccountedView>, k: Seq<char>, i: int)
    requires
        0 <= i < s.len(),
        owned_by(s[i].entry, k),
    ensures
        owned_entries(s, k, s[i].entry.kind).contains(s[i].entry),
    decreases s.len(),
{
    let front = s.drop_last();
    let kind = s[i].entry.kind;
    let was = owned_entries(front, k, kind);
    let all = owned_entries(s, k, kind);
    if i == s.len() - 1 {
        assert(all[was.len() as int] == s[i].entry);
    } else {
        assert(front[i] == s[i]);
        lemma_owned_kind(front, k, i);
        let j = choose|j: int| 0 <= j < was.len() && was[j] == s[i].entry;
        assert(all[j] == s[i].entry);
    }
}

/// A sum over the entries in the groups of a row is one over the accounted entries that it owns.
proof fn lemma_groups_sum(
    gs: Seq<GroupView>,
    s: Seq<AccountedView>,
    k: Seq<char>,
    f: spec_fn(EntryView) -> nat,
)
    requires
        is_breakdown(gs, s, k),
    ensures
        groups_total(gs, f) == sum_of(
            s,
            |a: AccountedView|
                if owned_by(a.entry, k) {
                    f(a.entry)
                } else {
                    0
                },
        ),
{
    lemma_groups_are_kinds(gs, s, k, f);
    let kinds = kinds_of(gs);
    assert(kinds.no_duplicates()) by {
        assert forall|i: int, j: int|
            0 <= i < kinds.len() && 0 <= j < kinds.len() && i != j implies kinds[i] != kinds[j] by {
            let (a, b) = if i < j {
                (i, j)
            } else {
                (j, i)
            };
            assert(crate::attribution::accounting::group_before(gs[a], gs[b]));
            assert(is_group(gs[a], s, k) && is_group(gs[b], s, k));
        }
    }
    assert forall|i: int|
        0 <= i < s.len() && owned_by((#[trigger] s[i]).entry, k) implies kinds.contains(
        s[i].entry.kind,
    ) by {
        lemma_owned_kind(s, k, i);
        assert(owned_entries(s, k, s[i].entry.kind).len() > 0);
        let g = choose|g: int| 0 <= g < gs.len() && (#[trigger] gs[g]).kind == s[i].entry.kind;
        assert(kinds[g] == s[i].entry.kind);
    }
    lemma_kinds_sum(s, k, kinds, f);
}

/// A sum over the entries of ecosystems is one over the accounted entries that are common.
proof fn lemma_common_sum(s: Seq<AccountedView>, f: spec_fn(EntryView) -> nat)
    ensures
        total(common_entries(s), f) == sum_of(
            s,
            |a: AccountedView|
                if is_common(a.entry) {
                    f(a.entry)
                } else {
                    0
                },
        ),
    decreases s.len(),
{
    if s.len() > 0 {
        lemma_common_sum(s.drop_last(), f);
        let was = common_entries(s.drop_last());
        if is_common(s.last().entry) {
            assert(common_entries(s) =~= was.push(s.last().entry));
            assert(was.push(s.last().entry).drop_last() =~= was);
        }
    }
}

proof fn lemma_universe(claims: Seq<ClaimView>, trees: Seq<TreeView>, disk: DiskView, i: int)
    requires
        0 <= i < accounted(claims, trees, disk).len(),
        is_common(accounted(claims, trees, disk)[i].entry),
    ensures
        accounted(claims, trees, disk)[i].universe == who_shares(
            claims,
            accounted(claims, trees, disk)[i].entry.path,
        ),
{
    let a = accounted(claims, trees, disk)[i];
    let raw = raw_entries(claims, trees, disk);
    assert(a.entry == nested(raw)[i]);
    let p = a.entry.path;
    assert forall|k: Seq<char>| a.universe.contains(k) <==> #[trigger] who_shares(
        claims,
        p,
    ).contains(k) by {
        lemma_members(claims, p, k);
    }
    assert(a.universe =~= who_shares(claims, p));
}

/// What a row reaches is all that it shows of its own and all that its ecosystems have in common, each
/// entry whole, whoever shares it.
pub proof fn law_reach_is_every_entry_whole(
    r: SetView,
    claims: Seq<ClaimView>,
    owners: Seq<OwnerView>,
    trees: Seq<TreeView>,
    disk: DiskView,
    axis: Axis,
    i: int,
)
    requires
        is_account(r, claims, owners, trees, disk, axis),
        0 <= i < r.footprints.len(),
    ensures
        r.footprints[i].reach == groups_total(r.footprints[i].groups, whole()) + total(
            r.baseline,
            whole_if_shared(claims, r.footprints[i].owner.key),
        ),
{
    let s = accounted(claims, trees, disk);
    let f = r.footprints[i];
    let k = f.owner.key;
    assert(is_footprint(f, s, owners, axis));
    let own = |a: AccountedView|
        if owned_by(a.entry, k) {
            whole()(a.entry)
        } else {
            0
        };
    let common = |a: AccountedView|
        if is_common(a.entry) {
            whole_if_shared(claims, k)(a.entry)
        } else {
            0
        };
    lemma_groups_sum(f.groups, s, k, whole());
    lemma_common_sum(s, whole_if_shared(claims, k));
    let parts = |a: AccountedView| reach_part(a, k);
    assert forall|j: int| 0 <= j < s.len() implies parts(#[trigger] s[j]) == own(s[j]) + common(
        s[j],
    ) by {
        if is_common(s[j].entry) {
            lemma_universe(claims, trees, disk, j);
        }
    }
    lemma_sum_split(s, parts, own, common);
}

/// What a row owns alone is all that it shows with no other owner, each entry whole, but for virtual
/// bytes and clones; what it owns with others is its slices of what it shows with other owners.
pub proof fn law_exclusive_and_shared_are_what_a_row_shows(
    r: SetView,
    claims: Seq<ClaimView>,
    owners: Seq<OwnerView>,
    trees: Seq<TreeView>,
    disk: DiskView,
    axis: Axis,
    i: int,
)
    requires
        is_account(r, claims, owners, trees, disk, axis),
        0 <= i < r.footprints.len(),
    ensures
        r.footprints[i].exclusive == groups_total(r.footprints[i].groups, whole_if_alone()),
        r.footprints[i].shared == groups_total(
            r.footprints[i].groups,
            slice_of(r.footprints[i].owner.key),
        ),
{
    let s = accounted(claims, trees, disk);
    let f = r.footprints[i];
    let k = f.owner.key;
    assert(is_footprint(f, s, owners, axis));
    lemma_groups_sum(f.groups, s, k, whole_if_alone());
    lemma_groups_sum(f.groups, s, k, slice_of(k));
    let alone = |a: AccountedView|
        if owned_by(a.entry, k) {
            whole_if_alone()(a.entry)
        } else {
            0
        };
    let slices = |a: AccountedView|
        if owned_by(a.entry, k) {
            slice_of(k)(a.entry)
        } else {
            0
        };
    let ex = |a: AccountedView| exclusive_part(a, k);
    let sh = |a: AccountedView| shared_part(a, k);
    assert forall|j: int| 0 <= j < s.len() implies ex(#[trigger] s[j]) == alone(s[j]) by {}
    assert forall|j: int| 0 <= j < s.len() implies sh(#[trigger] s[j]) == slices(s[j]) by {
        let e = s[j].entry;
        if owned_by(e, k) {
            assert(e.owners.contains(k));
            assert(e.owners.len() > 0);
        }
    }
    lemma_sum_same(s, ex, alone);
    lemma_sum_same(s, sh, slices);
}

/// What a row has in its ecosystems is its share of each entry that they have in common: equal shares
/// for all owners in one of the entry's ecosystems, and what cannot be divided to the first of them.
pub proof fn law_baseline_share_is_a_share_of_each_common_entry(
    r: SetView,
    claims: Seq<ClaimView>,
    owners: Seq<OwnerView>,
    trees: Seq<TreeView>,
    disk: DiskView,
    axis: Axis,
    i: int,
)
    requires
        is_account(r, claims, owners, trees, disk, axis),
        0 <= i < r.footprints.len(),
    ensures
        r.footprints[i].baseline_share == total(
            r.baseline,
            share_of(claims, r.footprints[i].owner.key),
        ),
{
    let s = accounted(claims, trees, disk);
    let f = r.footprints[i];
    let k = f.owner.key;
    assert(is_footprint(f, s, owners, axis));
    lemma_common_sum(s, share_of(claims, k));
    let common = |a: AccountedView|
        if is_common(a.entry) {
            share_of(claims, k)(a.entry)
        } else {
            0
        };
    let parts = |a: AccountedView| baseline_part(a, k);
    assert forall|j: int| 0 <= j < s.len() implies parts(#[trigger] s[j]) == common(s[j]) by {
        let a = s[j];
        if is_common(a.entry) {
            lemma_universe(claims, trees, disk, j);
            let who = who_shares(claims, a.entry.path);
            if shares_in(claims, a.entry.path, k) {
                assert(who.contains(k));
                lemma_finite(claims, a.entry.path);
                assert(who.len() > 0) by {
                    if who.len() == 0 {
                        assert(who =~= Set::empty());
                    }
                }
                assert(is_least(who, k) <==> (forall|x: Seq<char>| #[trigger]
                    who.contains(x) ==> x == k || chars_lt(k, x)));
            }
        }
    }
    lemma_sum_same(s, parts, common);
}

proof fn lemma_finite(claims: Seq<ClaimView>, p: Seq<Seq<char>>)
    ensures
        who_shares(claims, p).finite(),
{
    let names = Seq::new(claims.len(), |i: int| claims[i].owner);
    let who = who_shares(claims, p);
    vstd::seq_lib::seq_to_set_is_finite(names);
    assert forall|k: Seq<char>| #[trigger] who.contains(k) implies names.to_set().contains(k) by {
        let (i, m) = choose|i: int, m: int|
            0 <= i < claims.len() && kept(claims_on(claims, p), m) && (#[trigger] claims[i]).owner
                == k && claims[i].ecosystem is Some && (#[trigger] claims_on(
                claims,
                p,
            )[m]).ecosystem == claims[i].ecosystem;
        assert(names[i] == k);
        assert(names.contains(k));
    }
    assert(who.subset_of(names.to_set()));
    vstd::set_lib::lemma_set_subset_finite(names.to_set(), who);
}

/// One for an entry of a path.
pub open spec fn at_path(p: Seq<Seq<char>>) -> spec_fn(EntryView) -> nat {
    |e: EntryView|
        if e.path == p {
            1
        } else {
            0
        }
}

/// Whether a claim on the list that counts belongs to an ecosystem's baseline.
pub open spec fn marked_common(l: Seq<ClaimView>) -> bool {
    exists|m: int| #[trigger] kept(l, m) && l[m].baseline
}

/// Whether a path belongs to its ecosystems: a claim on it says so, or nobody else claims it.
pub open spec fn common_path(l: Seq<ClaimView>) -> bool {
    l.len() > 0 && (if claimed_by_someone(l) {
        marked_common(l)
    } else {
        !claimed_by(l, "unattributed"@)
    })
}

proof fn lemma_real_owners_are(d: Seq<ClaimView>)
    requires
        one_per_owner(d),
    ensures
        forall|k: Seq<char>| #[trigger]
            real_owners(d).contains(k) <==> real_key(k) && claimed_by(d, k),
        forall|i: int, j: int|
            0 <= i < j < real_owners(d).len() ==> chars_lt(
                #[trigger] real_owners(d)[i],
                #[trigger] real_owners(d)[j],
            ),
    decreases d.len(),
{
    let r = real_owners(d);
    if d.len() == 0 {
        assert(r =~= seq![]);
    } else {
        let f = d.drop_last();
        let z = d.last();
        assert(one_per_owner(f)) by {
            assert forall|i: int, j: int| 0 <= i < j < f.len() implies chars_lt(
                (#[trigger] f[i]).owner,
                (#[trigger] f[j]).owner,
            ) by {
                assert(chars_lt(d[i].owner, d[j].owner));
            }
        }
        lemma_real_owners_are(f);
        let rf = real_owners(f);
        assert forall|k: Seq<char>| #[trigger] r.contains(k) <==> real_key(k) && claimed_by(d, k) by {
            assert(claimed_by(d, k) <==> claimed_by(f, k) || z.owner == k) by {
                if claimed_by(d, k) {
                    let m = choose|m: int| 0 <= m < d.len() && (#[trigger] d[m]).owner == k;
                    if m < f.len() {
                        assert(f[m].owner == k);
                    }
                }
                if claimed_by(f, k) {
                    let m = choose|m: int| 0 <= m < f.len() && (#[trigger] f[m]).owner == k;
                    assert(d[m].owner == k);
                }
                assert(d[d.len() - 1] == z);
            }
            assert(rf.contains(k) <==> real_key(k) && claimed_by(f, k));
            if r.contains(k) {
                let i = choose|i: int| 0 <= i < r.len() && r[i] == k;
                if i < rf.len() {
                    assert(rf[i] == k);
                }
            }
            if rf.contains(k) {
                let i = choose|i: int| 0 <= i < rf.len() && rf[i] == k;
                assert(r[i] == k);
            }
            if real_key(k) && z.owner == k {
                assert(r[rf.len() as int] == k);
            }
        }
        assert forall|i: int, j: int| 0 <= i < j < r.len() implies chars_lt(
            #[trigger] r[i],
            #[trigger] r[j],
        ) by {
            assert(r[i] == rf[i]);
            if j < rf.len() {
                assert(r[j] == rf[j]);
            } else {
                assert(rf.contains(rf[i]));
                let m = choose|m: int| 0 <= m < f.len() && (#[trigger] f[m]).owner == rf[i];
                assert(chars_lt(d[m].owner, d[d.len() - 1].owner));
            }
        }
    }
}

proof fn lemma_unowned_is(d: Seq<ClaimView>)
    ensures
        unowned_reason(d) is Some <==> claimed_by(d, "unattributed"@),
    decreases d.len(),
{
    if d.len() > 0 {
        let f = d.drop_last();
        lemma_unowned_is(f);
        if claimed_by(f, "unattributed"@) {
            let m = choose|m: int| 0 <= m < f.len() && (#[trigger] f[m]).owner == "unattributed"@;
            assert(d[m].owner == "unattributed"@);
        }
        if claimed_by(d, "unattributed"@) {
            let m = choose|m: int| 0 <= m < d.len() && (#[trigger] d[m]).owner == "unattributed"@;
            if m < f.len() {
                assert(f[m].owner == "unattributed"@);
            }
        }
        assert(d[d.len() - 1] == d.last());
    }
}

proof fn lemma_claimed_by_kept(l: Seq<ClaimView>, k: Seq<char>)
    ensures
        claimed_by(dedup(l), k) <==> claimed_by(l, k),
{
    let d = dedup(l);
    law_dedup_keeps_each_owners_surest_claim(l);
    if claimed_by(l, k) {
        let m = choose|m: int| 0 <= m < l.len() && (#[trigger] l[m]).owner == k;
        assert(covers(d, l[m]));
        let i = choose|i: int|
            0 <= i < d.len() && (#[trigger] d[i]).owner == l[m].owner && tier_rank(d[i].tier)
                <= tier_rank(l[m].tier);
        assert(d[i].owner == k);
    }
    if claimed_by(d, k) {
        let i = choose|i: int| 0 <= i < d.len() && (#[trigger] d[i]).owner == k;
        assert(l.contains(d[i]));
        let m = choose|m: int| 0 <= m < l.len() && l[m] == d[i];
        assert(l[m].owner == k);
    }
}

proof fn lemma_primary(d: Seq<ClaimView>) -> (i: int)
    requires
        d.len() > 0,
    ensures
        0 <= i < d.len(),
        primary(d) == d[i],
        forall|j: int|
            0 <= j < d.len() ==> tier_rank(d[i].tier) < tier_rank((#[trigger] d[j]).tier) || (tier_rank(
                d[i].tier,
            ) == tier_rank(d[j].tier) && i <= j),
    decreases d.len(),
{
    if d.len() == 1 {
        0
    } else {
        let f = d.drop_last();
        let i = lemma_primary(f);
        assert(f[i] == d[i]);
        assert forall|j: int| 0 <= j < f.len() implies tier_rank(f[i].tier) < tier_rank(
            (#[trigger] d[j]).tier,
        ) || (tier_rank(f[i].tier) == tier_rank(d[j].tier) && i <= j) by {
            assert(f[j] == d[j]);
        }
        if tier_rank(d.last().tier) < tier_rank(primary(f).tier) {
            d.len() - 1
        } else {
            i
        }
    }
}

proof fn lemma_known_size(d: Seq<ClaimView>) -> (i: int)
    ensures
        known_size(d) is None ==> forall|j: int|
            0 <= j < d.len() ==> (#[trigger] d[j]).raw_bytes_override is None,
        known_size(d) is Some ==> 0 <= i < d.len() && d[i].raw_bytes_override == known_size(d)
            && forall|j: int| 0 <= j < i ==> (#[trigger] d[j]).raw_bytes_override is None,
    decreases d.len(),
{
    if d.len() == 0 {
        0
    } else {
        let f = d.drop_last();
        let i = lemma_known_size(f);
        if known_size(f) is Some {
            assert(f[i] == d[i]);
            assert forall|j: int| 0 <= j < i implies (#[trigger] d[j]).raw_bytes_override is None by {
                assert(f[j] == d[j]);
            }
            i
        } else {
            assert forall|j: int| 0 <= j < f.len() implies (
            #[trigger] d[j]).raw_bytes_override is None by {
                assert(f[j] == d[j]);
            }
            d.len() - 1
        }
    }
}

/// Whether the claim at `m` is the surest that counts; of equally sure ones that of the first owner.
pub open spec fn is_surest(l: Seq<ClaimView>, m: int) -> bool {
    kept(l, m) && forall|n: int| #[trigger]
        kept(l, n) && n != m ==> sureness(l[m].tier) < sureness(l[n].tier) || (sureness(l[m].tier)
            == sureness(l[n].tier) && chars_lt(l[m].owner, l[n].owner))
}

/// Whether the claim at `m` is the first, by owner, of those that count and bring a size along.
pub open spec fn is_first_sized(l: Seq<ClaimView>, m: int) -> bool {
    kept(l, m) && l[m].raw_bytes_override is Some && forall|n: int| #[trigger]
        kept(l, n) && n != m && l[n].raw_bytes_override is Some ==> chars_lt(l[m].owner, l[n].owner)
}

/// Whether an entry's size is what its claims bring along, or else what the path measures.
pub open spec fn measured(
    e: EntryView,
    l: Seq<ClaimView>,
    trees: Seq<TreeView>,
    disk: DiskView,
) -> bool {
    if exists|m: int| #[trigger] kept(l, m) && l[m].raw_bytes_override is Some {
        !e.is_unsized && exists|m: int| #[trigger]
            is_first_sized(l, m) && l[m].raw_bytes_override == Some(e.raw_bytes)
    } else {
        match crate::attribution::paths::node_in(trees, e.path) {
            Some(node) => e.raw_bytes == node.alloc && (e.is_unsized <==> node.errors > 0
                && node.alloc == 0),
            None => match disk.size(e.path) {
                Some(n) => e.raw_bytes == n && !e.is_unsized,
                None => e.raw_bytes == 0 && e.is_unsized,
            },
        }
    }
}

/// Whether an entry says of its path what the claims on it say.
pub open spec fn tells(
    e: EntryView,
    l: Seq<ClaimView>,
    trees: Seq<TreeView>,
    disk: DiskView,
) -> bool {
    &&& l.len() > 0
    &&& forall|k: Seq<char>| #[trigger]
        e.owners.contains(k) <==> claimed_by(l, k) && (real_key(k) || (k == "unattributed"@
            && !claimed_by_someone(l)))
    &&& forall|i: int, j: int|
        0 <= i < j < e.owners.len() ==> chars_lt(#[trigger] e.owners[i], #[trigger] e.owners[j])
    &&& exists|m: int| #[trigger]
        is_surest(l, m) && e.kind == l[m].kind && e.tier == l[m].tier && e.evidence == l[m].evidence
            && e.label == l[m].label && e.finding == l[m].finding
    &&& e.baseline <==> e.owners.len() == 0 || marked_common(l)
    &&& e.clone_of_store <==> exists|m: int| #[trigger] kept(l, m) && l[m].clone_of_store
    &&& e.virtual_bytes <==> exists|m: int| #[trigger] kept(l, m) && l[m].virtual_bytes
    &&& e.stale <==> exists|m: int| #[trigger] kept(l, m) && l[m].stale
    &&& measured(e, l, trees, disk)
}

proof fn lemma_kept_is_one(l: Seq<ClaimView>, m: int, n: int)
    requires
        kept(l, m),
        kept(l, n),
        l[m].owner == l[n].owner,
    ensures
        m == n,
{
    if m != n {
        assert(l[n].owner == l[m].owner);
        assert(l[m].owner == l[n].owner);
    }
}

proof fn lemma_owners_told(l: Seq<ClaimView>)
    requires
        l.len() > 0,
    ensures
        forall|k: Seq<char>| #[trigger]
            listed_owners(dedup(l)).contains(k) <==> claimed_by(l, k) && (real_key(k) || (k
                == "unattributed"@ && !claimed_by_someone(l))),
        forall|i: int, j: int|
            0 <= i < j < listed_owners(dedup(l)).len() ==> chars_lt(
                #[trigger] listed_owners(dedup(l))[i],
                #[trigger] listed_owners(dedup(l))[j],
            ),
        real_owners(dedup(l)).len() > 0 <==> claimed_by_someone(l),
        unowned_reason(dedup(l)) is Some <==> claimed_by(l, "unattributed"@),
{
    let d = dedup(l);
    law_dedup_keeps_each_owners_surest_claim(l);
    lemma_real_owners_are(d);
    lemma_unowned_is(d);
    lemma_claimed_by_kept(l, "unattributed"@);
    let r = real_owners(d);
    assert(r.len() > 0 <==> claimed_by_someone(l)) by {
        if r.len() > 0 {
            assert(r.contains(r[0]));
            lemma_claimed_by_kept(l, r[0]);
            let m = choose|m: int| 0 <= m < l.len() && (#[trigger] l[m]).owner == r[0];
            assert(real_key(l[m].owner));
        }
        if claimed_by_someone(l) {
            let m = choose|m: int| 0 <= m < l.len() && real_key((#[trigger] l[m]).owner);
            assert(claimed_by(l, l[m].owner));
            lemma_claimed_by_kept(l, l[m].owner);
            assert(r.contains(l[m].owner));
        }
    }
    let o = listed_owners(d);
    assert forall|k: Seq<char>| #[trigger] o.contains(k) <==> claimed_by(l, k) && (real_key(k) || (k
        == "unattributed"@ && !claimed_by_someone(l))) by {
        lemma_claimed_by_kept(l, k);
        assert(r.contains(k) <==> real_key(k) && claimed_by(d, k));
        if r.len() == 0 && unowned_reason(d) is Some {
            assert(o =~= seq!["unattributed"@]);
            assert(o[0] == "unattributed"@);
            if real_key(k) && claimed_by(l, k) {
                assert(r.contains(k));
            }
        }
    }
}

/// Every entry of an account tells what the claims on its path say, and every claim's path has one.
pub proof fn law_entries_tell_what_claims_say(
    claims: Seq<ClaimView>,
    trees: Seq<TreeView>,
    disk: DiskView,
)
    ensures
        forall|i: int|
            0 <= i < accounted(claims, trees, disk).len() ==> tells(
                (#[trigger] accounted(claims, trees, disk)[i]).entry,
                claims_on(claims, accounted(claims, trees, disk)[i].entry.path),
                trees,
                disk,
            ),
        forall|c: int|
            0 <= c < claims.len() ==> exists|i: int|
                0 <= i < accounted(claims, trees, disk).len() && (#[trigger] accounted(
                    claims,
                    trees,
                    disk,
                )[i]).entry.path == canonical((#[trigger] claims[c]).path),
        forall|i: int, j: int|
            0 <= i < j < accounted(claims, trees, disk).len() ==> (#[trigger] accounted(
                claims,
                trees,
                disk,
            )[i]).entry.path != (#[trigger] accounted(claims, trees, disk)[j]).entry.path,
{
    let s = accounted(claims, trees, disk);
    let raw = raw_entries(claims, trees, disk);
    let paths = claimed_paths(claims);
    lemma_claimed_paths(claims);
    assert forall|i: int| 0 <= i < s.len() implies tells(
        (#[trigger] s[i]).entry,
        claims_on(claims, s[i].entry.path),
        trees,
        disk,
    ) by {
        let p = paths[i];
        assert(s[i].entry == nested(raw)[i]);
        assert(s[i].entry.path == p);
        let l = claims_on(claims, p);
        lemma_claims_on(claims, p);
        assert(paths.contains(p));
        assert(l.len() > 0);
        lemma_entry_tells(l, s[i].entry, p, trees, disk);
    }
    assert forall|c: int| 0 <= c < claims.len() implies exists|i: int|
        0 <= i < s.len() && (#[trigger] s[i]).entry.path == canonical((#[trigger] claims[c]).path) by {
        let p = canonical(claims[c].path);
        assert(on_path(p)(claims[c]));
        claims.lemma_filter_contains(on_path(p), c);
        assert(claims_at(claims, p).len() > 0);
        assert(paths.contains(p));
        let i = choose|i: int| 0 <= i < paths.len() && paths[i] == p;
        assert(s[i].entry == nested(raw)[i]);
        assert(s[i].entry.path == p);
    }
    assert forall|i: int, j: int| 0 <= i < j < s.len() implies (#[trigger] s[i]).entry.path != (
    #[trigger] s[j]).entry.path by {
        assert(s[i].entry == nested(raw)[i] && s[j].entry == nested(raw)[j]);
        assert(crate::fspath::path_lt(paths[i], paths[j]));
        crate::fspath::lemma_path_lt_irreflexive(paths[i]);
    }
}

proof fn lemma_surest(l: Seq<ClaimView>) -> (m: int)
    requires
        l.len() > 0,
    ensures
        is_surest(l, m),
        primary(dedup(l)) == l[m],
{
    let d = dedup(l);
    law_dedup_keeps_each_owners_surest_claim(l);
    lemma_dedup_is_kept(l);
    assert(covers(d, l[0]));
    let i = lemma_primary(d);
    assert(d.contains(d[i]));
    let m = choose|m: int| #[trigger] kept(l, m) && l[m] == d[i];
    assert forall|n: int| #[trigger] kept(l, n) && n != m implies sureness(l[m].tier) < sureness(
        l[n].tier,
    ) || (sureness(l[m].tier) == sureness(l[n].tier) && chars_lt(l[m].owner, l[n].owner)) by {
        assert(d.contains(l[n]));
        let j = choose|j: int| 0 <= j < d.len() && d[j] == l[n];
        lemma_sureness(l[m].tier, l[n].tier);
        if l[m].owner == l[n].owner {
            lemma_kept_is_one(l, m, n);
        }
        if i < j {
            assert(chars_lt(d[i].owner, d[j].owner));
        } else if j < i {
            assert(chars_lt(d[j].owner, d[i].owner));
        }
    }
    m
}

proof fn lemma_measured(
    l: Seq<ClaimView>,
    e: EntryView,
    p: Seq<Seq<char>>,
    trees: Seq<TreeView>,
    disk: DiskView,
)
    requires
        l.len() > 0,
        ({
            let o = crate::attribution::accounting::entry_of(p, dedup(l), trees, disk);
            e.path == p && e.raw_bytes == o.raw_bytes && e.is_unsized == o.is_unsized
        }),
    ensures
        measured(e, l, trees, disk),
{
    let d = dedup(l);
    law_dedup_keeps_each_owners_surest_claim(l);
    lemma_dedup_is_kept(l);
    let k = lemma_known_size(d);
    if known_size(d) is Some {
        assert(d.contains(d[k]));
        let n = choose|n: int| #[trigger] kept(l, n) && l[n] == d[k];
        assert forall|x: int| #[trigger]
            kept(l, x) && x != n && l[x].raw_bytes_override is Some implies chars_lt(
            l[n].owner,
            l[x].owner,
        ) by {
            assert(d.contains(l[x]));
            let j = choose|j: int| 0 <= j < d.len() && d[j] == l[x];
            if l[x].owner == l[n].owner {
                lemma_kept_is_one(l, x, n);
            }
            if k < j {
                assert(chars_lt(d[k].owner, d[j].owner));
            }
        }
        assert(is_first_sized(l, n));
        assert(kept(l, n) && l[n].raw_bytes_override is Some);
    } else {
        if exists|n: int| #[trigger] kept(l, n) && l[n].raw_bytes_override is Some {
            let n = choose|n: int| #[trigger] kept(l, n) && l[n].raw_bytes_override is Some;
            assert(d.contains(l[n]));
            let j = choose|j: int| 0 <= j < d.len() && d[j] == l[n];
            assert(d[j].raw_bytes_override is None);
        }
    }
}

proof fn lemma_entry_tells(
    l: Seq<ClaimView>,
    e: EntryView,
    p: Seq<Seq<char>>,
    trees: Seq<TreeView>,
    disk: DiskView,
)
    requires
        l.len() > 0,
        ({
            let o = crate::attribution::accounting::entry_of(p, dedup(l), trees, disk);
            e == (EntryView { bytes: e.bytes, ..o })
        }),
    ensures
        tells(e, l, trees, disk),
{
    lemma_owners_told(l);
    let m = lemma_surest(l);
    lemma_marks(l);
    lemma_measured(l, e, p, trees, disk);
    assert(e.owners == listed_owners(dedup(l)));
    assert(e.baseline <==> e.owners.len() == 0 || marked_common(l));
}

proof fn lemma_marks(l: Seq<ClaimView>)
    ensures
        (exists|i: int| 0 <= i < dedup(l).len() && (#[trigger] dedup(l)[i]).baseline)
            <==> marked_common(l),
        (exists|i: int| 0 <= i < dedup(l).len() && (#[trigger] dedup(l)[i]).clone_of_store)
            <==> exists|m: int| #[trigger] kept(l, m) && l[m].clone_of_store,
        (exists|i: int| 0 <= i < dedup(l).len() && (#[trigger] dedup(l)[i]).virtual_bytes)
            <==> exists|m: int| #[trigger] kept(l, m) && l[m].virtual_bytes,
        (exists|i: int| 0 <= i < dedup(l).len() && (#[trigger] dedup(l)[i]).stale) <==> exists|m: int|
            #[trigger] kept(l, m) && l[m].stale,
{
    let d = dedup(l);
    assert((exists|i: int| 0 <= i < d.len() && (#[trigger] d[i]).baseline) <==> exists|m: int| #[trigger]
        kept(l, m) && l[m].baseline) by {
        lemma_dedup_is_kept(l);
        if exists|i: int| 0 <= i < d.len() && (#[trigger] d[i]).baseline {
            let i = choose|i: int| 0 <= i < d.len() && (#[trigger] d[i]).baseline;
            assert(d.contains(d[i]));
            let m = choose|m: int| #[trigger] kept(l, m) && l[m] == d[i];
            assert(kept(l, m) && l[m].baseline);
        }
        if exists|m: int| #[trigger] kept(l, m) && l[m].baseline {
            let m = choose|m: int| #[trigger] kept(l, m) && l[m].baseline;
            assert(d.contains(l[m]));
            let i = choose|i: int| 0 <= i < d.len() && d[i] == l[m];
            assert(d[i].baseline);
        }
    }
    assert((exists|i: int| 0 <= i < d.len() && (#[trigger] d[i]).clone_of_store) <==> exists|m: int| #[trigger]
        kept(l, m) && l[m].clone_of_store) by {
        lemma_dedup_is_kept(l);
        if exists|i: int| 0 <= i < d.len() && (#[trigger] d[i]).clone_of_store {
            let i = choose|i: int| 0 <= i < d.len() && (#[trigger] d[i]).clone_of_store;
            assert(d.contains(d[i]));
            let m = choose|m: int| #[trigger] kept(l, m) && l[m] == d[i];
            assert(kept(l, m) && l[m].clone_of_store);
        }
        if exists|m: int| #[trigger] kept(l, m) && l[m].clone_of_store {
            let m = choose|m: int| #[trigger] kept(l, m) && l[m].clone_of_store;
            assert(d.contains(l[m]));
            let i = choose|i: int| 0 <= i < d.len() && d[i] == l[m];
            assert(d[i].clone_of_store);
        }
    }
    assert((exists|i: int| 0 <= i < d.len() && (#[trigger] d[i]).virtual_bytes) <==> exists|m: int| #[trigger]
        kept(l, m) && l[m].virtual_bytes) by {
        lemma_dedup_is_kept(l);
        if exists|i: int| 0 <= i < d.len() && (#[trigger] d[i]).virtual_bytes {
            let i = choose|i: int| 0 <= i < d.len() && (#[trigger] d[i]).virtual_bytes;
            assert(d.contains(d[i]));
            let m = choose|m: int| #[trigger] kept(l, m) && l[m] == d[i];
            assert(kept(l, m) && l[m].virtual_bytes);
        }
        if exists|m: int| #[trigger] kept(l, m) && l[m].virtual_bytes {
            let m = choose|m: int| #[trigger] kept(l, m) && l[m].virtual_bytes;
            assert(d.contains(l[m]));
            let i = choose|i: int| 0 <= i < d.len() && d[i] == l[m];
            assert(d[i].virtual_bytes);
        }
    }
    assert((exists|i: int| 0 <= i < d.len() && (#[trigger] d[i]).stale) <==> exists|m: int| #[trigger]
        kept(l, m) && l[m].stale) by {
        lemma_dedup_is_kept(l);
        if exists|i: int| 0 <= i < d.len() && (#[trigger] d[i]).stale {
            let i = choose|i: int| 0 <= i < d.len() && (#[trigger] d[i]).stale;
            assert(d.contains(d[i]));
            let m = choose|m: int| #[trigger] kept(l, m) && l[m] == d[i];
            assert(kept(l, m) && l[m].stale);
        }
        if exists|m: int| #[trigger] kept(l, m) && l[m].stale {
            let m = choose|m: int| #[trigger] kept(l, m) && l[m].stale;
            assert(d.contains(l[m]));
            let i = choose|i: int| 0 <= i < d.len() && d[i] == l[m];
            assert(d[i].stale);
        }
    }
}

proof fn lemma_count(s: Seq<AccountedView>, p: Seq<Seq<char>>, f: spec_fn(AccountedView) -> nat)
    requires
        forall|i: int, j: int|
            0 <= i < j < s.len() ==> (#[trigger] s[i]).entry.path != (#[trigger] s[j]).entry.path,
        forall|i: int| 0 <= i < s.len() && (#[trigger] s[i]).entry.path != p ==> f(s[i]) == 0,
    ensures
        forall|i: int| 0 <= i < s.len() && (#[trigger] s[i]).entry.path == p ==> sum_of(s, f) == f(s[i]),
        (forall|i: int| 0 <= i < s.len() ==> (#[trigger] s[i]).entry.path != p) ==> sum_of(s, f)
            == 0,
    decreases s.len(),
{
    if s.len() > 0 {
        let t = s.drop_last();
        assert forall|i: int, j: int| 0 <= i < j < t.len() implies (#[trigger] t[i]).entry.path != (
        #[trigger] t[j]).entry.path by {
            assert(t[i] == s[i] && t[j] == s[j]);
        }
        assert forall|i: int| 0 <= i < t.len() && (#[trigger] t[i]).entry.path != p implies f(t[i])
            == 0 by {
            assert(t[i] == s[i]);
        }
        lemma_count(t, p, f);
        let z = s[s.len() - 1];
        if z.entry.path == p {
            assert forall|i: int| 0 <= i < t.len() implies (#[trigger] t[i]).entry.path != p by {
                assert(t[i] == s[i]);
                assert(s[i].entry.path != z.entry.path);
            }
        } else {
            assert(f(z) == 0);
            assert forall|i: int| 0 <= i < s.len() && (#[trigger] s[i]).entry.path == p implies sum_of(
                s,
                f,
            ) == f(s[i]) by {
                assert(t[i] == s[i]);
            }
            if forall|i: int| 0 <= i < s.len() ==> (#[trigger] s[i]).entry.path != p {
                assert forall|i: int| 0 <= i < t.len() implies (#[trigger] t[i]).entry.path != p by {
                    assert(t[i] == s[i]);
                }
            }
        }
    }
}

proof fn lemma_no_claims(claims: Seq<ClaimView>, trees: Seq<TreeView>, disk: DiskView, p: Seq<Seq<char>>)
    ensures
        claims_on(claims, p).len() > 0 <==> exists|i: int|
            0 <= i < accounted(claims, trees, disk).len() && (#[trigger] accounted(
                claims,
                trees,
                disk,
            )[i]).entry.path == p,
{
    let s = accounted(claims, trees, disk);
    let raw = raw_entries(claims, trees, disk);
    let paths = claimed_paths(claims);
    lemma_claimed_paths(claims);
    lemma_claims_on(claims, p);
    if claims_on(claims, p).len() > 0 {
        assert(paths.contains(p));
        let i = choose|i: int| 0 <= i < paths.len() && paths[i] == p;
        assert(s[i].entry == nested(raw)[i]);
        assert(s[i].entry.path == p);
    }
    if exists|i: int| 0 <= i < s.len() && (#[trigger] s[i]).entry.path == p {
        let i = choose|i: int| 0 <= i < s.len() && (#[trigger] s[i]).entry.path == p;
        assert(s[i].entry == nested(raw)[i]);
        assert(paths[i] == p);
        assert(paths.contains(p));
    }
}

proof fn lemma_orphan_told(e: EntryView, l: Seq<ClaimView>, trees: Seq<TreeView>, disk: DiskView)
    requires
        tells(e, l, trees, disk),
    ensures
        is_orphan(e) <==> !claimed_by_someone(l) && claimed_by(l, "unattributed"@),
        is_common(e) <==> common_path(l),
        e.owners.len() == 0 <==> !claimed_by_someone(l) && !claimed_by(l, "unattributed"@),
{
    let u = "unattributed"@;
    if claimed_by_someone(l) {
        let m = choose|m: int| 0 <= m < l.len() && real_key((#[trigger] l[m]).owner);
        assert(claimed_by(l, l[m].owner));
        assert(e.owners.contains(l[m].owner));
        if is_orphan(e) {
            assert(e.owners[0] == l[m].owner);
        }
    } else {
        assert(e.owners.contains(u) <==> claimed_by(l, u));
        assert forall|i: int| 0 <= i < e.owners.len() implies #[trigger] e.owners[i] == u by {
            assert(e.owners.contains(e.owners[i]));
            if real_key(e.owners[i]) {
                let m = choose|m: int| 0 <= m < l.len() && (#[trigger] l[m]).owner == e.owners[i];
                assert(real_key(l[m].owner));
            }
        }
        if e.owners.len() > 1 {
            assert(chars_lt(e.owners[0], e.owners[1]));
            lemma_chars_lt_irreflexive(u);
        }
        if claimed_by(l, u) {
            assert(e.owners.len() > 0);
            assert(e.owners[0] == u);
        }
        if e.owners.len() > 0 {
            assert(e.owners[0] == u);
            assert(e.owners.contains(u));
        }
    }
}

/// A row shows a path exactly once where its owner claims it and the path does not belong to its
/// ecosystems, and else not at all; so do the baseline with the paths of ecosystems and the
/// unattributed with those that a claim says nobody owns.
pub proof fn law_where_a_path_is_shown(
    r: SetView,
    claims: Seq<ClaimView>,
    owners: Seq<OwnerView>,
    trees: Seq<TreeView>,
    disk: DiskView,
    axis: Axis,
    i: int,
    p: Seq<Seq<char>>,
)
    requires
        is_account(r, claims, owners, trees, disk, axis),
        0 <= i < r.footprints.len(),
    ensures
        groups_total(r.footprints[i].groups, at_path(p)) == (if claimed_by(
            claims_on(claims, p),
            r.footprints[i].owner.key,
        ) && !common_path(claims_on(claims, p)) {
            1nat
        } else {
            0nat
        }),
{
    let s = accounted(claims, trees, disk);
    let f = r.footprints[i];
    let k = f.owner.key;
    let l = claims_on(claims, p);
    assert(is_footprint(f, s, owners, axis));
    assert(crate::attribution::accounting::has_row(claims, owners, k));
    lemma_groups_sum(f.groups, s, k, at_path(p));
    law_entries_tell_what_claims_say(claims, trees, disk);
    let g = |a: AccountedView|
        if owned_by(a.entry, k) {
            at_path(p)(a.entry)
        } else {
            0
        };
    lemma_count(s, p, g);
    lemma_no_claims(claims, trees, disk, p);
    if l.len() > 0 {
        let j = choose|j: int| 0 <= j < s.len() && (#[trigger] s[j]).entry.path == p;
        let e = s[j].entry;
        assert(tells(s[j].entry, claims_on(claims, s[j].entry.path), trees, disk));
        lemma_orphan_told(e, l, trees, disk);
        assert(sum_of(s, g) == g(s[j]));
        assert(e.owners.contains(k) <==> claimed_by(l, k));
        if claimed_by(l, k) {
            let m = choose|m: int| 0 <= m < l.len() && (#[trigger] l[m]).owner == k;
            assert(real_key(l[m].owner));
            assert(claimed_by_someone(l));
        }
    } else {
        assert(!claimed_by(l, k));
    }
}

/// The baseline shows a path exactly once where it belongs to its ecosystems, and else not at all.
pub proof fn law_what_ecosystems_have_in_common(
    r: SetView,
    claims: Seq<ClaimView>,
    owners: Seq<OwnerView>,
    trees: Seq<TreeView>,
    disk: DiskView,
    axis: Axis,
    p: Seq<Seq<char>>,
)
    requires
        is_account(r, claims, owners, trees, disk, axis),
    ensures
        total(r.baseline, at_path(p)) == (if common_path(claims_on(claims, p)) {
            1nat
        } else {
            0nat
        }),
{
    let s = accounted(claims, trees, disk);
    let l = claims_on(claims, p);
    lemma_common_sum(s, at_path(p));
    law_entries_tell_what_claims_say(claims, trees, disk);
    let g = |a: AccountedView|
        if is_common(a.entry) {
            at_path(p)(a.entry)
        } else {
            0
        };
    lemma_count(s, p, g);
    lemma_no_claims(claims, trees, disk, p);
    if l.len() > 0 {
        let j = choose|j: int| 0 <= j < s.len() && (#[trigger] s[j]).entry.path == p;
        assert(tells(s[j].entry, claims_on(claims, s[j].entry.path), trees, disk));
        lemma_orphan_told(s[j].entry, l, trees, disk);
        assert(sum_of(s, g) == g(s[j]));
    }
}

proof fn lemma_orphan_sum(s: Seq<AccountedView>, p: Seq<Seq<char>>)
    ensures
        total(crate::attribution::accounting::orphan_entries(s), at_path(p)) == sum_of(
            s,
            |a: AccountedView|
                if a.unowned is Some {
                    at_path(p)(a.entry)
                } else {
                    0
                },
        ),
    decreases s.len(),
{
    if s.len() > 0 {
        lemma_orphan_sum(s.drop_last(), p);
        let was = crate::attribution::accounting::orphan_entries(s.drop_last());
        if s.last().unowned is Some {
            let e = EntryView { reason: s.last().unowned, ..s.last().entry };
            assert(crate::attribution::accounting::orphan_entries(s) =~= was.push(e));
            assert(was.push(e).drop_last() =~= was);
            assert(at_path(p)(e) == at_path(p)(s.last().entry));
        }
    }
}

/// The unattributed shows a path exactly once where a claim says that nobody owns it, and else not at
/// all.
pub proof fn law_what_nobody_is_said_to_own(
    r: SetView,
    claims: Seq<ClaimView>,
    owners: Seq<OwnerView>,
    trees: Seq<TreeView>,
    disk: DiskView,
    axis: Axis,
    p: Seq<Seq<char>>,
)
    requires
        is_account(r, claims, owners, trees, disk, axis),
    ensures
        total(r.unattributed, at_path(p)) == (if claimed_by(
            claims_on(claims, p),
            "unattributed"@,
        ) {
            1nat
        } else {
            0nat
        }),
{
    let s = accounted(claims, trees, disk);
    let raw = raw_entries(claims, trees, disk);
    let l = claims_on(claims, p);
    lemma_orphan_sum(s, p);
    law_entries_tell_what_claims_say(claims, trees, disk);
    let g = |a: AccountedView|
        if a.unowned is Some {
            at_path(p)(a.entry)
        } else {
            0
        };
    lemma_count(s, p, g);
    lemma_no_claims(claims, trees, disk, p);
    if l.len() > 0 {
        let j = choose|j: int| 0 <= j < s.len() && (#[trigger] s[j]).entry.path == p;
        assert(s[j].entry == nested(raw)[j]);
        lemma_claims_on(claims, p);
        lemma_owners_told(l);
        assert(sum_of(s, g) == g(s[j]));
    } else {
        assert(!claimed_by(l, "unattributed"@));
    }
}

/// Every owner that claims something or is registered has one row, and no other key has one.
pub proof fn law_rows_of_owners(
    r: SetView,
    claims: Seq<ClaimView>,
    owners: Seq<OwnerView>,
    trees: Seq<TreeView>,
    disk: DiskView,
    axis: Axis,
    k: Seq<char>,
)
    requires
        is_account(r, claims, owners, trees, disk, axis),
    ensures
        (exists|i: int| 0 <= i < r.footprints.len() && (#[trigger] r.footprints[i]).owner.key == k)
            <==> real_key(k) && (claimed_by(claims, k) || exists|o: int|
            0 <= o < owners.len() && (#[trigger] owners[o]).key == k),
        forall|i: int, j: int|
            0 <= i < j < r.footprints.len() ==> (#[trigger] r.footprints[i]).exclusive > (
            #[trigger] r.footprints[j]).exclusive || (r.footprints[i].exclusive
                == r.footprints[j].exclusive && chars_lt(
                r.footprints[i].owner.key,
                r.footprints[j].owner.key,
            )),
{
    let f = r.footprints;
    let rows = crate::attribution::accounting::has_row(claims, owners, k);
    if exists|i: int| 0 <= i < f.len() && (#[trigger] f[i]).owner.key == k {
        let i = choose|i: int| 0 <= i < f.len() && (#[trigger] f[i]).owner.key == k;
        assert(crate::attribution::accounting::has_row(claims, owners, f[i].owner.key));
    }
    if real_key(k) && (claimed_by(claims, k) || exists|o: int|
        0 <= o < owners.len() && (#[trigger] owners[o]).key == k) {
        assert(rows);
    }
    assert forall|i: int, j: int| 0 <= i < j < f.len() implies (#[trigger] f[i]).exclusive > (
    #[trigger] f[j]).exclusive || (f[i].exclusive == f[j].exclusive && chars_lt(
        f[i].owner.key,
        f[j].owner.key,
    )) by {
        assert(crate::attribution::accounting::footprint_before(f[i], f[j]));
    }
}

/// A group's bytes are the owner's share of each of its entries, and its entries are of its kind.
pub proof fn law_group_bytes_are_the_shares_of_its_entries(
    r: SetView,
    claims: Seq<ClaimView>,
    owners: Seq<OwnerView>,
    trees: Seq<TreeView>,
    disk: DiskView,
    axis: Axis,
    i: int,
    g: int,
)
    requires
        is_account(r, claims, owners, trees, disk, axis),
        0 <= i < r.footprints.len(),
        0 <= g < r.footprints[i].groups.len(),
    ensures
        r.footprints[i].groups[g].bytes == total(
            r.footprints[i].groups[g].entries,
            whole_if_alone(),
        ) + total(r.footprints[i].groups[g].entries, slice_of(r.footprints[i].owner.key)),
        r.footprints[i].groups[g].entries.len() > 0,
        forall|j: int|
            0 <= j < r.footprints[i].groups[g].entries.len() ==> (
            #[trigger] r.footprints[i].groups[g].entries[j]).kind == r.footprints[i].groups[g].kind
                && r.footprints[i].groups[g].entries[j].owners.contains(r.footprints[i].owner.key),
{
    broadcast use vstd::seq_lib::group_to_multiset_ensures;

    let s = accounted(claims, trees, disk);
    let f = r.footprints[i];
    let k = f.owner.key;
    let group = f.groups[g];
    assert(is_footprint(f, s, owners, axis));
    assert(is_group(group, s, k));
    let own = owned_entries(s, k, group.kind);
    lemma_total_of_multiset(group.entries, own, whole_if_alone());
    lemma_total_of_multiset(group.entries, own, slice_of(k));
    lemma_group_parts(s, k, group.kind);
    assert(group.entries.len() == group.entries.to_multiset().len());
    assert(own.len() == own.to_multiset().len());
    assert forall|j: int| 0 <= j < group.entries.len() implies (#[trigger] group.entries[j]).kind
        == group.kind && group.entries[j].owners.contains(k) by {
        let e = group.entries[j];
        assert(group.entries.contains(e));
        assert(own.to_multiset().count(e) > 0);
        assert(own.contains(e));
        let n = choose|n: int| 0 <= n < own.len() && own[n] == e;
        lemma_owned_entry(s, k, group.kind, n);
    }
}

proof fn lemma_owned_entry(s: Seq<AccountedView>, k: Seq<char>, kind: EntryKind, n: int)
    requires
        0 <= n < owned_entries(s, k, kind).len(),
    ensures
        owned_entries(s, k, kind)[n].kind == kind,
        owned_by(owned_entries(s, k, kind)[n], k),
        exists|i: int| 0 <= i < s.len() && (#[trigger] s[i]).entry == owned_entries(s, k, kind)[n],
    decreases s.len(),
{
    if s.len() > 0 {
        let t = s.drop_last();
        let was = owned_entries(t, k, kind);
        if n < was.len() {
            lemma_owned_entry(t, k, kind, n);
            let i = choose|i: int| 0 <= i < t.len() && (#[trigger] t[i]).entry == was[n];
            assert(s[i] == t[i]);
        } else {
            assert(s[s.len() - 1].entry == owned_entries(s, k, kind)[n]);
        }
    }
}

proof fn lemma_group_parts(s: Seq<AccountedView>, k: Seq<char>, kind: EntryKind)
    ensures
        group_bytes(s, k, kind) == total(owned_entries(s, k, kind), whole_if_alone()) + total(
            owned_entries(s, k, kind),
            slice_of(k),
        ),
    decreases s.len(),
{
    if s.len() > 0 {
        let t = s.drop_last();
        let e = s.last().entry;
        lemma_group_parts(t, k, kind);
        let was = owned_entries(t, k, kind);
        if owned_by(e, k) && e.kind == kind {
            assert(owned_entries(s, k, kind) =~= was.push(e));
            assert(was.push(e).drop_last() =~= was);
            assert(e.owners.contains(k));
            assert(e.owners.len() > 0);
            assert(group_part(s.last(), k, kind) == whole_if_alone()(e) + slice_of(k)(e));
        } else {
            assert(owned_entries(s, k, kind) == was);
        }
    }
}

/// Every entry that a row shows, and every one of the baseline, tells what the claims on its path say.
#[verifier::rlimit(40)]
pub proof fn law_shown_entries_tell_what_claims_say(
    r: SetView,
    claims: Seq<ClaimView>,
    owners: Seq<OwnerView>,
    trees: Seq<TreeView>,
    disk: DiskView,
    axis: Axis,
)
    requires
        is_account(r, claims, owners, trees, disk, axis),
    ensures
        forall|i: int, g: int, j: int|
            #![trigger r.footprints[i].groups[g].entries[j]]
            0 <= i < r.footprints.len() && 0 <= g < r.footprints[i].groups.len() && 0 <= j
                < r.footprints[i].groups[g].entries.len() ==> tells(
                r.footprints[i].groups[g].entries[j],
                claims_on(claims, r.footprints[i].groups[g].entries[j].path),
                trees,
                disk,
            ),
        forall|j: int|
            0 <= j < r.baseline.len() ==> tells(
                #[trigger] r.baseline[j],
                claims_on(claims, r.baseline[j].path),
                trees,
                disk,
            ),
        forall|j: int|
            0 <= j < r.unattributed.len() ==> tells(
                #[trigger] r.unattributed[j],
                claims_on(claims, r.unattributed[j].path),
                trees,
                disk,
            ),
{
    broadcast use vstd::seq_lib::group_to_multiset_ensures;

    let s = accounted(claims, trees, disk);
    law_entries_tell_what_claims_say(claims, trees, disk);
    assert forall|i: int, g: int, j: int|
        #![trigger r.footprints[i].groups[g].entries[j]]
        0 <= i < r.footprints.len() && 0 <= g < r.footprints[i].groups.len() && 0 <= j
            < r.footprints[i].groups[g].entries.len() implies tells(
        r.footprints[i].groups[g].entries[j],
        claims_on(claims, r.footprints[i].groups[g].entries[j].path),
        trees,
        disk,
    ) by {
        let f = r.footprints[i];
        let k = f.owner.key;
        let group = f.groups[g];
        assert(is_footprint(f, s, owners, axis));
        assert(is_group(group, s, k));
        let own = owned_entries(s, k, group.kind);
        let e = group.entries[j];
        assert(group.entries.contains(e));
        assert(own.to_multiset().count(e) > 0);
        assert(own.contains(e));
        let n = choose|n: int| 0 <= n < own.len() && own[n] == e;
        lemma_owned_entry(s, k, group.kind, n);
        let x = choose|x: int| 0 <= x < s.len() && (#[trigger] s[x]).entry == e;
        assert(tells(s[x].entry, claims_on(claims, s[x].entry.path), trees, disk));
    }
    assert forall|j: int| 0 <= j < r.baseline.len() implies tells(
        #[trigger] r.baseline[j],
        claims_on(claims, r.baseline[j].path),
        trees,
        disk,
    ) by {
        let x = lemma_common_entry(s, j);
        assert(tells(s[x].entry, claims_on(claims, s[x].entry.path), trees, disk));
    }
    assert forall|j: int| 0 <= j < r.unattributed.len() implies tells(
        #[trigger] r.unattributed[j],
        claims_on(claims, r.unattributed[j].path),
        trees,
        disk,
    ) by {
        let x = lemma_orphan_entry(s, j);
        assert(tells(s[x].entry, claims_on(claims, s[x].entry.path), trees, disk));
    }
}

proof fn lemma_common_entry(s: Seq<AccountedView>, j: int) -> (i: int)
    requires
        0 <= j < common_entries(s).len(),
    ensures
        0 <= i < s.len(),
        s[i].entry == common_entries(s)[j],
    decreases s.len(),
{
    if s.len() == 0 {
        assert(false);
        0
    } else {
        let t = s.drop_last();
        if j < common_entries(t).len() {
            let i = lemma_common_entry(t, j);
            assert(t[i] == s[i]);
            i
        } else {
            s.len() - 1
        }
    }
}

proof fn lemma_orphan_entry(s: Seq<AccountedView>, j: int) -> (i: int)
    requires
        0 <= j < crate::attribution::accounting::orphan_entries(s).len(),
    ensures
        0 <= i < s.len(),
        ({
            let e = crate::attribution::accounting::orphan_entries(s)[j];
            e == (EntryView { reason: e.reason, ..s[i].entry })
        }),
    decreases s.len(),
{
    if s.len() == 0 {
        assert(false);
        0
    } else {
        let t = s.drop_last();
        if j < crate::attribution::accounting::orphan_entries(t).len() {
            let i = lemma_orphan_entry(t, j);
            assert(t[i] == s[i]);
            i
        } else {
            s.len() - 1
        }
    }
}

/// Whether the path at `i` is the nearest of the paths above the one at `j`.
pub open spec fn nearest_above(es: Seq<EntryView>, i: int, j: int) -> bool {
    &&& es[i].path.is_prefix_of(es[j].path)
    &&& es[i].path != es[j].path
    &&& forall|n: int|
        0 <= n < es.len() && (#[trigger] es[n]).path.is_prefix_of(es[j].path) && es[n].path
            != es[j].path ==> es[n].path.len() <= es[i].path.len()
}

/// What the first `n` entries measure that lie nearest below the one at `i`.
pub open spec fn nearest_below(es: Seq<EntryView>, i: int, n: int) -> nat
    decreases n,
{
    if n <= 0 {
        0
    } else {
        nearest_below(es, i, n - 1) + if nearest_above(es, i, n - 1) {
            es[n - 1].raw_bytes as nat
        } else {
            0
        }
    }
}

proof fn lemma_below(p: Seq<Seq<char>>, base: Seq<Seq<char>>)
    ensures
        below(p, base) <==> base.is_prefix_of(p) && base != p,
{
    if base.is_prefix_of(p) {
        assert(p.take(base.len() as int) =~= base);
        if base.len() == p.len() {
            assert(p.take(base.len() as int) =~= p);
        }
    }
    if under(p, base) {
        assert(p.subrange(0, base.len() as int) =~= p.take(base.len() as int));
    }
}

proof fn lemma_nearest(es: Seq<EntryView>, i: int, n: int)
    requires
        0 <= i < es.len(),
        0 <= n <= es.len(),
    ensures
        nearest_below(es, i, n) == children_sum(entry_paths(es), entry_raws(es), i, n),
    decreases n,
{
    if n > 0 {
        lemma_nearest(es, i, n - 1);
        let paths = entry_paths(es);
        let j = n - 1;
        assert(nearest_above(es, i, j) <==> is_parent(paths, i, j)) by {
            lemma_below(es[j].path, es[i].path);
            if nearest_above(es, i, j) {
                assert forall|k: int|
                    0 <= k < paths.len() && below(paths[j], #[trigger] paths[k]) implies paths[k].len()
                    <= paths[i].len() by {
                    lemma_below(es[j].path, es[k].path);
                    assert(es[k].path.is_prefix_of(es[j].path));
                }
            }
            if is_parent(paths, i, j) {
                assert forall|k: int|
                    0 <= k < es.len() && (#[trigger] es[k]).path.is_prefix_of(es[j].path)
                        && es[k].path != es[j].path implies es[k].path.len() <= es[i].path.len() by {
                    lemma_below(es[j].path, es[k].path);
                    assert(below(paths[j], paths[k]));
                }
            }
        }
    }
}

/// What is counted of a path is what the accounted paths nearest below it leave of what it measures,
/// and nothing where they measure more.
pub proof fn law_an_entry_counts_what_is_left_of_it(
    claims: Seq<ClaimView>,
    trees: Seq<TreeView>,
    disk: DiskView,
    i: int,
)
    requires
        0 <= i < accounted(claims, trees, disk).len(),
    ensures
        ({
            let es = entries_of(accounted(claims, trees, disk));
            let taken = nearest_below(es, i, es.len() as int);
            if taken <= es[i].raw_bytes {
                es[i].bytes + taken == es[i].raw_bytes
            } else {
                es[i].bytes == 0
            }
        }),
{
    let s = accounted(claims, trees, disk);
    let raw = raw_entries(claims, trees, disk);
    let es = entries_of(s);
    assert(es.len() == raw.len());
    assert(entry_paths(es) =~= entry_paths(raw));
    assert(entry_raws(es) =~= entry_raws(raw));
    lemma_nearest(es, i, es.len() as int);
    assert(es[i] == nested(raw)[i]);
}

proof fn lemma_clone_in_groups(
    gs: Seq<GroupView>,
    s: Seq<AccountedView>,
    k: Seq<char>,
)
    requires
        is_breakdown(gs, s, k),
    ensures
        (exists|i: int|
            0 <= i < s.len() && (#[trigger] s[i]).entry.clone_of_store && owned_by(s[i].entry, k))
            <==> exists|g: int, j: int|
            #![trigger gs[g].entries[j]]
            0 <= g < gs.len() && 0 <= j < gs[g].entries.len() && gs[g].entries[j].clone_of_store,
{
    broadcast use vstd::seq_lib::group_to_multiset_ensures;

    if exists|i: int|
        0 <= i < s.len() && (#[trigger] s[i]).entry.clone_of_store && owned_by(s[i].entry, k) {
        let i = choose|i: int|
            0 <= i < s.len() && (#[trigger] s[i]).entry.clone_of_store && owned_by(s[i].entry, k);
        let e = s[i].entry;
        lemma_owned_kind(s, k, i);
        let own = owned_entries(s, k, e.kind);
        assert(own.len() > 0);
        let g = choose|g: int| 0 <= g < gs.len() && (#[trigger] gs[g]).kind == e.kind;
        assert(is_group(gs[g], s, k));
        assert(own.to_multiset().count(e) > 0);
        assert(gs[g].entries.to_multiset().count(e) > 0);
        assert(gs[g].entries.contains(e));
        let j = choose|j: int| 0 <= j < gs[g].entries.len() && gs[g].entries[j] == e;
        assert(gs[g].entries[j].clone_of_store);
    }
    if exists|g: int, j: int|
        #![trigger gs[g].entries[j]]
        0 <= g < gs.len() && 0 <= j < gs[g].entries.len() && gs[g].entries[j].clone_of_store {
        let (g, j) = choose|g: int, j: int|
            #![trigger gs[g].entries[j]]
            0 <= g < gs.len() && 0 <= j < gs[g].entries.len() && gs[g].entries[j].clone_of_store;
        assert(is_group(gs[g], s, k));
        let e = gs[g].entries[j];
        let own = owned_entries(s, k, gs[g].kind);
        assert(gs[g].entries.contains(e));
        assert(own.to_multiset().count(e) > 0);
        assert(own.contains(e));
        let n = choose|n: int| 0 <= n < own.len() && own[n] == e;
        lemma_owned_entry(s, k, gs[g].kind, n);
        let x = choose|x: int| 0 <= x < s.len() && (#[trigger] s[x]).entry == e;
        assert(s[x].entry.clone_of_store);
    }
}

/// A row notes a clone where it shows one, or shares in one that its ecosystems have in common.
pub proof fn law_clones_are_noted(
    r: SetView,
    claims: Seq<ClaimView>,
    owners: Seq<OwnerView>,
    trees: Seq<TreeView>,
    disk: DiskView,
    axis: Axis,
    i: int,
)
    requires
        is_account(r, claims, owners, trees, disk, axis),
        0 <= i < r.footprints.len(),
    ensures
        r.footprints[i].clone_note <==> (exists|g: int, j: int|
            #![trigger r.footprints[i].groups[g].entries[j]]
            0 <= g < r.footprints[i].groups.len() && 0 <= j < r.footprints[i].groups[g].entries.len()
                && r.footprints[i].groups[g].entries[j].clone_of_store) || (exists|j: int|
            0 <= j < r.baseline.len() && (#[trigger] r.baseline[j]).clone_of_store && shares_in(
                claims,
                r.baseline[j].path,
                r.footprints[i].owner.key,
            )),
{
    let s = accounted(claims, trees, disk);
    let f = r.footprints[i];
    let k = f.owner.key;
    assert(is_footprint(f, s, owners, axis));
    lemma_clone_in_groups(f.groups, s, k);
    if reaches_clone(s, k) {
        let n = choose|n: int|
            0 <= n < s.len() && (#[trigger] s[n]).entry.clone_of_store && (owned_by(s[n].entry, k)
                || (is_common(s[n].entry) && s[n].universe.contains(k)));
        if !owned_by(s[n].entry, k) {
            lemma_universe(claims, trees, disk, n);
            let j = lemma_common_listed(s, n);
            assert(r.baseline[j] == s[n].entry);
        }
    }
    if exists|j: int|
        0 <= j < r.baseline.len() && (#[trigger] r.baseline[j]).clone_of_store && shares_in(
            claims,
            r.baseline[j].path,
            k,
        ) {
        let j = choose|j: int|
            0 <= j < r.baseline.len() && (#[trigger] r.baseline[j]).clone_of_store && shares_in(
                claims,
                r.baseline[j].path,
                k,
            );
        let n = lemma_common_entry_is(s, j);
        lemma_universe(claims, trees, disk, n);
        assert(s[n].entry.clone_of_store);
    }
}

proof fn lemma_common_listed(s: Seq<AccountedView>, i: int) -> (j: int)
    requires
        0 <= i < s.len(),
        is_common(s[i].entry),
    ensures
        0 <= j < common_entries(s).len(),
        common_entries(s)[j] == s[i].entry,
    decreases s.len(),
{
    let t = s.drop_last();
    if i == s.len() - 1 {
        common_entries(t).len() as int
    } else {
        assert(t[i] == s[i]);
        lemma_common_listed(t, i)
    }
}

proof fn lemma_common_entry_is(s: Seq<AccountedView>, j: int) -> (i: int)
    requires
        0 <= j < common_entries(s).len(),
    ensures
        0 <= i < s.len(),
        s[i].entry == common_entries(s)[j],
        is_common(s[i].entry),
    decreases s.len(),
{
    if s.len() == 0 {
        assert(false);
        0
    } else {
        let t = s.drop_last();
        if j < common_entries(t).len() {
            let i = lemma_common_entry_is(t, j);
            assert(t[i] == s[i]);
            i
        } else {
            s.len() - 1
        }
    }
}

proof fn lemma_real_sum(s: Seq<AccountedView>, n: int)
    requires
        0 <= n <= s.len(),
    ensures
        crate::attribution::accounting::attributed(s.take(n)) == real_bytes(entries_of(s), n),
    decreases n,
{
    if n > 0 {
        lemma_real_sum(s, n - 1);
        assert(s.take(n).drop_last() =~= s.take(n - 1));
        assert(s.take(n).last() == s[n - 1]);
    } else {
        assert(s.take(0) =~= seq![]);
    }
}

/// What the first `n` entries count, but for virtual bytes.
pub open spec fn real_bytes(es: Seq<EntryView>, n: int) -> nat
    decreases n,
{
    if n <= 0 {
        0
    } else if es[n - 1].virtual_bytes {
        real_bytes(es, n - 1)
    } else {
        real_bytes(es, n - 1) + es[n - 1].bytes as nat
    }
}

/// What an account attributes is what all its entries count, but for virtual bytes.
pub proof fn law_attributed_is_what_entries_count(
    r: SetView,
    claims: Seq<ClaimView>,
    owners: Seq<OwnerView>,
    trees: Seq<TreeView>,
    disk: DiskView,
    axis: Axis,
)
    requires
        is_account(r, claims, owners, trees, disk, axis),
    ensures
        r.attributed_total == real_bytes(
            entries_of(accounted(claims, trees, disk)),
            accounted(claims, trees, disk).len() as int,
        ),
{
    let s = accounted(claims, trees, disk);
    lemma_real_sum(s, s.len() as int);
    assert(s.take(s.len() as int) =~= s);
}

} // verus!
