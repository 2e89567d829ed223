//! From claims to footprints.
//!
//! Claims are grouped by canonical path; each path becomes one entry. An entry's `bytes` is what
//! is left of its `raw_bytes` when the raw bytes of the nearest entries below it are taken off,
//! so that the bytes of a subtree's entries sum up to what the subtree measures. From the
//! entries each owner's numbers follow: what it alone claims, its part of what it shares with
//! others, everything it reaches, and its part of its ecosystems' baseline.

use vstd::prelude::*;

use crate::attribution::model::{
    kind_place, tier_rank, Axis, Claim, ClaimView, EntryKind, EntryView, Footprint, FootprintEntry,
    FootprintGroup, FootprintSet, FootprintView, GroupView, Owner, OwnerKind, OwnerView, ResolveEnv,
    SetView, BASELINE_OWNER, UNATTRIBUTED_OWNER,
};
use crate::attribution::paths::{
    canonical, disk_total, size_at, tree_path, trees_fit, trees_total, Sized, Sizer,
};
use crate::disk::{Disk, DiskView};
use crate::fspath::{
    below, file_name, lemma_below_is_later, lemma_path_lt_asymmetric, lemma_path_lt_irreflexive,
    lemma_path_lt_total, lemma_path_lt_transitive, lemma_subtree_is_contiguous,
    lemma_under_transitive, path_lt, path_of, under, FilePath,
};
use crate::order::{
    chars_lt, insert_key, lemma_chars_lt_irreflexive, lemma_chars_lt_total, sorted_keys,
    str_before,
};
use crate::pathmap::{lemma_sorted_paths_unique, sorted_paths, PathMap};
use crate::scan::{hash_of, FindingId, TreeView};
use crate::text::{after_last, chars_of, find_last, listed, same, starts, string_of, strip_prefix};
use vstd::slice::slice_subrange;

verus! {

broadcast use crate::disk::group_asks;

/// Put `c` into a list with one claim per owner, in owner order: an owner keeps the claim with
/// the surest evidence, and of two equally sure ones the first.
pub open spec fn upsert(d: Seq<ClaimView>, c: ClaimView) -> Seq<ClaimView>
    decreases d.len(),
{
    if d.len() == 0 {
        seq![c]
    } else if d[0].owner == c.owner {
        if tier_rank(d[0].tier) <= tier_rank(c.tier) {
            d
        } else {
            seq![c] + d.skip(1)
        }
    } else if chars_lt(c.owner, d[0].owner) {
        seq![c] + d
    } else {
        seq![d[0]] + upsert(d.skip(1), c)
    }
}

/// The claims that count: each owner's surest one, in owner order.
pub open spec fn dedup(claims: Seq<ClaimView>) -> Seq<ClaimView>
    decreases claims.len(),
{
    if claims.len() == 0 {
        seq![]
    } else {
        upsert(dedup(claims.drop_last()), claims.last())
    }
}

proof fn lemma_upsert_at(d: Seq<ClaimView>, c: ClaimView, i: int)
    requires
        0 <= i <= d.len(),
        forall|j: int| 0 <= j < i ==> chars_lt((#[trigger] d[j]).owner, c.owner),
        i < d.len() ==> d[i].owner == c.owner || chars_lt(c.owner, d[i].owner),
    ensures
        upsert(d, c) == (if i < d.len() && d[i].owner == c.owner {
            if tier_rank(d[i].tier) <= tier_rank(c.tier) {
                d
            } else {
                d.update(i, c)
            }
        } else {
            d.insert(i, c)
        }),
    decreases i,
{
    if i == 0 {
        if d.len() == 0 {
            assert(d.insert(0, c) =~= seq![c]);
        } else {
            assert(d.insert(0, c) =~= seq![c] + d);
            assert(d.update(0, c) =~= seq![c] + d.skip(1));
        }
    } else {
        let t = d.skip(1);
        assert(chars_lt(d[0].owner, c.owner));
        crate::order::lemma_chars_lt_asymmetric(d[0].owner, c.owner);
        assert forall|j: int| 0 <= j < i - 1 implies chars_lt((#[trigger] t[j]).owner, c.owner) by {
            assert(t[j] == d[j + 1]);
        }
        lemma_upsert_at(t, c, i - 1);
        assert(seq![d[0]] + t =~= d);
        if i < d.len() {
            assert(t[i - 1] == d[i]);
            assert(seq![d[0]] + t.update(i - 1, c) =~= d.update(i, c));
        }
        assert(seq![d[0]] + t.insert(i - 1, c) =~= d.insert(i, c));
    }
}

/// Collapse the claims of one owner on one path to the surest one.
fn dedup_per_owner<'a>(claims: &Vec<&'a Claim>) -> (r: Vec<&'a Claim>)
    ensures
        r.deep_view() == dedup(claims.deep_view()),
        claims.len() > 0 ==> r.len() > 0,
{
    let ghost all = claims.deep_view();
    let mut best: Vec<&'a Claim> = Vec::new();
    assert(best.deep_view() =~= seq![]);
    let mut n: usize = 0;
    while n < claims.len()
        invariant
            n <= claims.len(),
            all == claims.deep_view(),
            best.deep_view() == dedup(all.take(n as int)),
            n > 0 ==> best.len() > 0,
        decreases claims.len() - n,
    {
        let c = claims[n];
        let ghost d = best.deep_view();
        let mut i: usize = 0;
        while i < best.len() && str_before(best[i].owner.as_str(), c.owner.as_str())
            invariant
                i <= best.len(),
                d == best.deep_view(),
                forall|j: int| 0 <= j < i ==> chars_lt((#[trigger] d[j]).owner, c@.owner),
            decreases best.len() - i,
        {
            assert(d[i as int] == best@[i as int]@);
            i = i + 1;
        }
        proof {
            if i < best.len() {
                assert(d[i as int] == best@[i as int]@);
                lemma_chars_lt_total(d[i as int].owner, c@.owner);
            }
            lemma_upsert_at(d, c@, i as int);
            assert(all.take(n + 1).drop_last() =~= all.take(n as int));
            assert(all.take(n + 1).last() == c@);
        }
        if i < best.len() && same(best[i].owner.as_str(), c.owner.as_str()) {
            if best[i].tier.rank() > c.tier.rank() {
                best.set(i, c);
                assert(best.deep_view() =~= d.update(i as int, c@));
            }
        } else {
            best.insert(i, c);
            assert(best.deep_view() =~= d.insert(i as int, c@));
        }
        n = n + 1;
    }
    assert(all.take(n as int) =~= all);
    best
}

/// The claims on the canonical path `p`.
pub open spec fn claims_at(claims: Seq<ClaimView>, p: Seq<Seq<char>>) -> Seq<ClaimView> {
    claims.filter(on_path(p))
}

/// Claims on the canonical path `p`.
pub open spec fn on_path(p: Seq<Seq<char>>) -> spec_fn(ClaimView) -> bool {
    |c: ClaimView| canonical(c.path) == p
}

/// Whether `k` stands for no owner: for an ecosystem, or for nobody.
pub open spec fn is_sentinel(k: Seq<char>) -> bool {
    k == BASELINE_OWNER@ || k == UNATTRIBUTED_OWNER@
}

/// The owners of claims, but for the ecosystems' own and for those that nobody makes.
pub open spec fn real_owners(d: Seq<ClaimView>) -> Seq<Seq<char>>
    decreases d.len(),
{
    if d.len() == 0 {
        seq![]
    } else if is_sentinel(d.last().owner) {
        real_owners(d.drop_last())
    } else {
        real_owners(d.drop_last()).push(d.last().owner)
    }
}

/// Why nobody is said to own the path: the evidence of the first claim that says so.
pub open spec fn unowned_reason(d: Seq<ClaimView>) -> Option<Seq<char>>
    decreases d.len(),
{
    if d.len() == 0 {
        None
    } else if unowned_reason(d.drop_last()) is Some {
        unowned_reason(d.drop_last())
    } else if d.last().owner == UNATTRIBUTED_OWNER@ {
        Some(d.last().evidence)
    } else {
        None
    }
}

/// The owners that an entry lists: the real ones, or, where there is none and a claim says that
/// nobody owns the path, the key that stands for nobody.
pub open spec fn listed_owners(d: Seq<ClaimView>) -> Seq<Seq<char>> {
    if real_owners(d).len() == 0 && unowned_reason(d) is Some {
        seq![UNATTRIBUTED_OWNER@]
    } else {
        real_owners(d)
    }
}

/// The claim with the surest evidence; of equally sure ones the first.
pub open spec fn primary(d: Seq<ClaimView>) -> ClaimView
    decreases d.len(),
{
    if d.len() <= 1 {
        d[0]
    } else if tier_rank(d.last().tier) < tier_rank(primary(d.drop_last()).tier) {
        d.last()
    } else {
        primary(d.drop_last())
    }
}

/// The first size that a claim brings along.
pub open spec fn known_size(d: Seq<ClaimView>) -> Option<u64>
    decreases d.len(),
{
    if d.len() == 0 {
        None
    } else if known_size(d.drop_last()) is Some {
        known_size(d.drop_last())
    } else {
        d.last().raw_bytes_override
    }
}

/// Whether `e` is the ecosystem of one of the claims.
pub open spec fn has_ecosystem(d: Seq<ClaimView>, e: Seq<char>) -> bool {
    exists|i: int| 0 <= i < d.len() && (#[trigger] d[i]).ecosystem == Some(e)
}

/// The entry that the counting claims `d` on `p` make, before nesting.
pub open spec fn entry_of(
    p: Seq<Seq<char>>,
    d: Seq<ClaimView>,
    trees: Seq<TreeView>,
    disk: DiskView,
) -> EntryView {
    let raw: u64 = match known_size(d) {
        Some(n) => n,
        None => match size_at(trees, disk, p) {
            Sized::Dir(n) => n,
            Sized::File(n) => n,
            Sized::Unsized => 0,
        },
    };
    EntryView {
        path: p,
        kind: primary(d).kind,
        bytes: raw,
        raw_bytes: raw,
        owners: listed_owners(d),
        tier: primary(d).tier,
        evidence: primary(d).evidence,
        label: primary(d).label,
        baseline: listed_owners(d).len() == 0 || exists|i: int|
            0 <= i < d.len() && (#[trigger] d[i]).baseline,
        clone_of_store: exists|i: int| 0 <= i < d.len() && (#[trigger] d[i]).clone_of_store,
        virtual_bytes: exists|i: int| 0 <= i < d.len() && (#[trigger] d[i]).virtual_bytes,
        is_unsized: known_size(d) is None && size_at(trees, disk, p) == Sized::Unsized,
        stale: exists|i: int| 0 <= i < d.len() && (#[trigger] d[i]).stale,
        finding: primary(d).finding,
        reason: None,
    }
}

/// The entry of one path, before nesting, the ecosystems of its claims, and why nobody is said to
/// own it.
fn build_entry(
    path: FilePath,
    claims: &Vec<&Claim>,
    sizer: &mut Sizer<'_>,
    disk: &mut Disk,
) -> (r: (FootprintEntry, Vec<&'static str>, Option<String>))
    requires
        claims.len() > 0,
        old(disk).wf(),
        old(sizer).wf(*old(disk)),
    ensures
        final(disk).asked(*old(disk)),
        final(sizer).wf(*final(disk)),
        final(sizer).trees == old(sizer).trees,
        r.0@ == entry_of(
            path@,
            claims.deep_view(),
            old(sizer).trees.deep_view(),
            old(disk).facts(),
        ),
        final(disk).holds() ==> r.0@ == entry_of(
            path@,
            claims.deep_view(),
            old(sizer).trees.deep_view(),
            old(disk)@,
        ),
        r.2.deep_view() == unowned_reason(claims.deep_view()),
        forall|e: Seq<char>|
            r.1.deep_view().contains(e) <==> #[trigger] has_ecosystem(claims.deep_view(), e),
{
    let ghost d = claims.deep_view();
    let mut owners: Vec<String> = Vec::new();
    let mut ecosystems: Vec<&'static str> = Vec::new();
    let mut best: usize = 0;
    let mut tagged_baseline = false;
    let mut clone_of_store = false;
    let mut virtual_bytes = false;
    let mut stale = false;
    let mut size: Option<u64> = None;
    let mut reason: Option<String> = None;
    let mut i: usize = 0;
    assert(owners.deep_view() =~= real_owners(d.take(0)));
    while i < claims.len()
        invariant
            i <= claims.len(),
            claims.len() > 0,
            d == claims.deep_view(),
            owners.deep_view() == real_owners(d.take(i as int)),
            best < claims.len(),
            i == 0 ==> best == 0,
            i > 0 ==> d[best as int] == primary(d.take(i as int)),
            size == known_size(d.take(i as int)),
            reason.deep_view() == unowned_reason(d.take(i as int)),
            tagged_baseline <==> exists|j: int| 0 <= j < i && (#[trigger] d[j]).baseline,
            clone_of_store <==> exists|j: int| 0 <= j < i && (#[trigger] d[j]).clone_of_store,
            virtual_bytes <==> exists|j: int| 0 <= j < i && (#[trigger] d[j]).virtual_bytes,
            stale <==> exists|j: int| 0 <= j < i && (#[trigger] d[j]).stale,
            forall|e: Seq<char>|
                ecosystems.deep_view().contains(e) <==> exists|j: int|
                    0 <= j < i && (#[trigger] d[j]).ecosystem == Some(e),
        decreases claims.len() - i,
    {
        let c = claims[i];
        assert(d[i as int] == c@);
        proof {
            assert(d.take(i + 1).drop_last() =~= d.take(i as int));
            assert(d.take(i + 1).last() == c@);
            assert(d[best as int] == claims@[best as int]@);
            if i == 0 {
                assert(d.take(1)[0] == d[0]);
            }
        }
        if same(c.owner.as_str(), UNATTRIBUTED_OWNER) {
            if reason.is_none() {
                reason = Some(c.evidence.clone());
            }
        } else if !same(c.owner.as_str(), BASELINE_OWNER) {
            let ghost was = owners.deep_view();
            owners.push(c.owner.clone());
            assert(owners.deep_view() =~= was.push(c@.owner));
        }
        if c.tier.rank() < claims[best].tier.rank() {
            best = i;
        }
        if size.is_none() {
            size = c.raw_bytes_override;
        }
        tagged_baseline = tagged_baseline || c.baseline;
        clone_of_store = clone_of_store || c.clone_of_store;
        virtual_bytes = virtual_bytes || c.virtual_bytes;
        stale = stale || c.stale;
        if let Some(e) = c.ecosystem {
            let ghost was = ecosystems.deep_view();
            ecosystems.push(e);
            proof {
                let now = ecosystems.deep_view();
                assert(now =~= was.push(e@));
                assert forall|x: Seq<char>| now.contains(x) <==> exists|j: int|
                    0 <= j < i + 1 && (#[trigger] d[j]).ecosystem == Some(x) by {
                    if now.contains(x) {
                        let k = choose|k: int| 0 <= k < now.len() && now[k] == x;
                        if k < was.len() {
                            assert(was[k] == x);
                            assert(was.contains(x));
                        } else {
                            assert(d[i as int].ecosystem == Some(x));
                        }
                    }
                    if exists|j: int| 0 <= j < i + 1 && (#[trigger] d[j]).ecosystem == Some(x) {
                        let j = choose|j: int|
                            0 <= j < i + 1 && (#[trigger] d[j]).ecosystem == Some(x);
                        if j < i {
                            assert(was.contains(x));
                            let k = choose|k: int| 0 <= k < was.len() && was[k] == x;
                            assert(now[k] == x);
                        } else {
                            assert(now[was.len() as int] == x);
                        }
                    }
                }
            }
        }
        i = i + 1;
    }
    assert(d.take(i as int) =~= d);
    let (raw_bytes, is_unsized): (u64, bool) = match size {
        Some(n) => (n, false),
        None => match sizer.bytes_of(disk, &path) {
            Sized::Dir(n) => (n, false),
            Sized::File(n) => (n, false),
            Sized::Unsized => (0, true),
        },
    };
    let first = claims[best];
    assert(d[best as int] == first@);
    if owners.len() == 0 && reason.is_some() {
        owners.push(UNATTRIBUTED_OWNER.to_string());
    }
    assert(owners.deep_view() =~= listed_owners(d));
    let baseline = owners.len() == 0 || tagged_baseline;
    let entry = FootprintEntry {
        path,
        kind: first.kind,
        bytes: raw_bytes,
        raw_bytes,
        owners,
        tier: first.tier,
        evidence: first.evidence.clone(),
        label: first.label.clone(),
        baseline,
        clone_of_store,
        virtual_bytes,
        is_unsized,
        stale,
        finding: first.finding,
        reason: None,
    };
    (entry, ecosystems, reason)
}

/// Group claims by canonical path; within a group they keep their order.
fn group_claims<'a>(claims: &'a Vec<Claim>) -> (r: PathMap<Vec<&'a Claim>>)
    ensures
        r.wf(),
        forall|p: Seq<Seq<char>>|
            #![trigger r@.contains_key(p)]
            r@.contains_key(p) <==> claims_at(claims.deep_view(), p).len() > 0,
        forall|p: Seq<Seq<char>>| #[trigger]
            r@.contains_key(p) ==> r@[p] == claims_at(claims.deep_view(), p),
{
    let ghost all = claims.deep_view();
    let mut map: PathMap<Vec<&'a Claim>> = PathMap::new();
    let mut i: usize = 0;
    proof {
        assert forall|p: Seq<Seq<char>>| #[trigger] claims_at(all.take(0), p).len() == 0 by {
            reveal(Seq::filter);
        }
    }
    while i < claims.len()
        invariant
            i <= claims.len(),
            all == claims.deep_view(),
            map.wf(),
            forall|p: Seq<Seq<char>>|
                #![trigger map@.contains_key(p)]
                map@.contains_key(p) <==> claims_at(all.take(i as int), p).len() > 0,
            forall|p: Seq<Seq<char>>| #[trigger]
                map@.contains_key(p) ==> map@[p] == claims_at(all.take(i as int), p),
        decreases claims.len() - i,
    {
        let ghost map0 = map@;
        let c = &claims[i];
        let path = tree_path(&c.path);
        let ghost q = path@;
        proof {
            assert(all[i as int] == c@);
            assert(all.take(i + 1).drop_last() =~= all.take(i as int));
            assert(all.take(i + 1).last() == c@);
            reveal(Seq::filter);
        }
        map.push_at(path, c);
        proof {
            assert forall|p: Seq<Seq<char>>| #![trigger map@.contains_key(p)] (map@.contains_key(p)
                <==> claims_at(all.take(i + 1), p).len() > 0) && (map@.contains_key(p) ==> map@[p]
                == claims_at(all.take(i + 1), p)) by {
                assert(on_path(p)(c@) <==> p == q);
                if p == q {
                    if !map0.contains_key(q) {
                        assert(claims_at(all.take(i as int), p) =~= seq![]);
                    }
                } else {
                    assert(map0.contains_key(p) == map@.contains_key(p));
                }
            }
        }
        i = i + 1;
    }
    assert(all.take(i as int) =~= all);
    map
}

/// Whether `i` is the nearest of `paths` above `j`.
pub open spec fn is_parent(paths: Seq<Seq<Seq<char>>>, i: int, j: int) -> bool {
    &&& 0 <= i < paths.len()
    &&& 0 <= j < paths.len()
    &&& below(paths[j], paths[i])
    &&& forall|k: int|
        0 <= k < paths.len() && below(paths[j], #[trigger] paths[k]) ==> paths[k].len()
            <= paths[i].len()
}

/// The sum of the sizes of those of the first `n` paths whose nearest path above is `i`.
pub open spec fn children_sum(
    paths: Seq<Seq<Seq<char>>>,
    raws: Seq<u64>,
    i: int,
    n: int,
) -> nat
    decreases n,
{
    if n <= 0 {
        0
    } else {
        children_sum(paths, raws, i, n - 1) + if is_parent(paths, i, n - 1) {
            raws[n - 1] as nat
        } else {
            0
        }
    }
}

/// What is left of path `i` when the nearest paths below it are taken off; never less than
/// nothing.
pub open spec fn own_bytes(paths: Seq<Seq<Seq<char>>>, raws: Seq<u64>, i: int) -> u64 {
    let inner = children_sum(paths, raws, i, paths.len() as int);
    if raws[i] >= inner {
        (raws[i] - inner) as u64
    } else {
        0
    }
}

/// The sum of the first `n` sizes.
pub open spec fn raw_sum(raws: Seq<u64>, n: int) -> nat
    decreases n,
{
    if n <= 0 {
        0
    } else {
        raw_sum(raws, n - 1) + raws[n - 1] as nat
    }
}

proof fn lemma_raw_sum_grows(raws: Seq<u64>, m: int, n: int)
    requires
        0 <= m <= n <= raws.len(),
    ensures
        raw_sum(raws, m) <= raw_sum(raws, n),
    decreases n - m,
{
    if m < n {
        lemma_raw_sum_grows(raws, m, n - 1);
    }
}

proof fn lemma_children_sum_bounded(paths: Seq<Seq<Seq<char>>>, raws: Seq<u64>, i: int, n: int)
    requires
        0 <= n <= raws.len(),
    ensures
        children_sum(paths, raws, i, n) <= raw_sum(raws, n),
    decreases n,
{
    if n > 0 {
        lemma_children_sum_bounded(paths, raws, i, n - 1);
    }
}

/// The paths of entries.
pub open spec fn entry_paths(entries: Seq<EntryView>) -> Seq<Seq<Seq<char>>> {
    Seq::new(entries.len(), |i: int| entries[i].path)
}

/// The sizes of entries.
pub open spec fn entry_raws(entries: Seq<EntryView>) -> Seq<u64> {
    Seq::new(entries.len(), |i: int| entries[i].raw_bytes)
}

/// For each entry the nearest entry above it.
fn parents(entries: &Vec<FootprintEntry>) -> (r: Vec<Option<usize>>)
    requires
        sorted_paths(entry_paths(entries.deep_view())),
    ensures
        r.len() == entries.len(),
        forall|j: int| 0 <= j < r.len() && (#[trigger] r@[j]) is Some ==> r@[j]->0 < r.len(),
        forall|j: int, i: int|
            #![trigger is_parent(entry_paths(entries.deep_view()), i, j)]
            0 <= j < r.len() ==> (is_parent(entry_paths(entries.deep_view()), i, j) <==> r@[j]
                == Some(i as usize) && 0 <= i < r.len()),
{
    let ghost paths = entry_paths(entries.deep_view());
    let n = entries.len();
    let mut out: Vec<Option<usize>> = Vec::new();
    let mut stack: Vec<usize> = Vec::new();
    let mut j: usize = 0;
    while j < n
        invariant
            j <= n,
            n == entries.len(),
            n == paths.len(),
            paths == entry_paths(entries.deep_view()),
            sorted_paths(paths),
            out.len() == j,
            forall|c: int| 0 <= c < j && (#[trigger] out@[c]) is Some ==> out@[c]->0 < n,
            forall|a: int| 0 <= a < stack.len() ==> (#[trigger] stack@[a]) < j,
            forall|a: int, b: int|
                0 <= a < b < stack.len() ==> below(
                    paths[#[trigger] stack@[b] as int],
                    paths[#[trigger] stack@[a] as int],
                ),
            forall|k: int|
                #![trigger paths[k]]
                0 <= k < j && under(paths[j - 1], paths[k]) ==> stack@.contains(k as usize),
            forall|c: int, i: int|
                #![trigger is_parent(paths, i, c)]
                0 <= c < j ==> (is_parent(paths, i, c) <==> out@[c] == Some(i as usize) && 0 <= i
                    < n),
        decreases n - j,
    {
        assert(paths[j as int] == entries@[j as int].path@);
        // Every path above j that comes before it is still on the stack.
        proof {
            assert forall|k: int| #![trigger paths[k]] 0 <= k < j && below(paths[j as int], paths[k])
                implies stack@.contains(k as usize) by {
                if k < j - 1 {
                    assert(path_lt(paths[k], paths[j - 1]));
                    assert(path_lt(paths[j - 1], paths[j as int]));
                    lemma_subtree_is_contiguous(paths[k], paths[j - 1], paths[j as int]);
                } else {
                    assert(paths[k].take(paths[k].len() as int) =~= paths[k]);
                }
            }
        }
        let ghost full = stack@;
        loop
            invariant
                j < n,
                n == entries.len(),
                n == paths.len(),
                paths == entry_paths(entries.deep_view()),
                sorted_paths(paths),
                stack@.len() <= full.len(),
                stack@ == full.take(stack@.len() as int),
                forall|a: int| 0 <= a < full.len() ==> (#[trigger] full[a]) < j,
                forall|a: int, b: int|
                    0 <= a < b < full.len() ==> below(
                        paths[#[trigger] full[b] as int],
                        paths[#[trigger] full[a] as int],
                    ),
                forall|k: int|
                    #![trigger paths[k]]
                    0 <= k < j && below(paths[j as int], paths[k]) ==> stack@.contains(k as usize),
            ensures
                stack@.len() <= full.len(),
                stack@ == full.take(stack@.len() as int),
                forall|k: int|
                    #![trigger paths[k]]
                    0 <= k < j && below(paths[j as int], paths[k]) ==> stack@.contains(k as usize),
                stack@.len() > 0 ==> below(paths[j as int], paths[stack@.last() as int]),
            decreases stack@.len(),
        {
            let m = stack.len();
            if m == 0 {
                break;
            }
            let top = stack[m - 1];
            assert(full[m - 1] == top);
            assert(paths[top as int] == entries@[top as int].path@);
            proof {
                assert(path_lt(paths[top as int], paths[j as int]));
                lemma_path_lt_irreflexive(paths[j as int]);
            }
            if entries[j].path.under(&entries[top].path) {
                proof {
                    if paths[j as int].len() == paths[top as int].len() {
                        assert(paths[j as int].take(paths[top as int].len() as int)
                            =~= paths[j as int]);
                    }
                }
                break;
            }
            let ghost before = stack@;
            stack.pop();
            proof {
                assert(stack@ =~= full.take(stack@.len() as int));
                assert forall|k: int| #![trigger paths[k]] 0 <= k < j && below(
                    paths[j as int],
                    paths[k],
                ) implies stack@.contains(k as usize) by {
                    let a = choose|a: int| 0 <= a < before.len() && before[a] == k as usize;
                    assert(a < m - 1);
                    assert(stack@[a] == k as usize);
                }
            }
        }
        let m = stack.len();
        let up: Option<usize> = if m > 0 {
            assert(full[m - 1] == stack@[m - 1]);
            Some(stack[m - 1])
        } else {
            None
        };
        proof {
            assert forall|i: int| #![trigger is_parent(paths, i, j as int)] is_parent(
                paths,
                i,
                j as int,
            ) <==> up == Some(i as usize) && 0 <= i < n by {
                if is_parent(paths, i, j as int) {
                    lemma_below_is_later(paths[j as int], paths[i]);
                    if i > j {
                        assert(path_lt(paths[j as int], paths[i]));
                        lemma_path_lt_asymmetric(paths[j as int], paths[i]);
                    }
                    if i == j {
                        lemma_path_lt_irreflexive(paths[i]);
                    }
                    assert(stack@.contains(i as usize));
                    let a = choose|a: int| 0 <= a < stack@.len() && stack@[a] == i as usize;
                    if a < m - 1 {
                        assert(full[a] == i as usize && full[m - 1] == stack@[m - 1]);
                        assert(below(paths[full[m - 1] as int], paths[full[a] as int]));
                        assert(below(paths[j as int], paths[stack@[m - 1] as int]));
                        assert(false);
                    }
                }
                if up == Some(i as usize) && 0 <= i < n {
                    assert(below(paths[j as int], paths[i]));
                    assert forall|k: int| 0 <= k < paths.len() && below(
                        paths[j as int],
                        #[trigger] paths[k],
                    ) implies paths[k].len() <= paths[i].len() by {
                        lemma_below_is_later(paths[j as int], paths[k]);
                        if k > j {
                            assert(path_lt(paths[j as int], paths[k]));
                            lemma_path_lt_asymmetric(paths[j as int], paths[k]);
                        }
                        if k == j {
                            lemma_path_lt_irreflexive(paths[k]);
                        }
                        assert(stack@.contains(k as usize));
                        let a = choose|a: int| 0 <= a < stack@.len() && stack@[a] == k as usize;
                        if a < m - 1 {
                            assert(full[a] == k as usize && full[m - 1] == stack@[m - 1]);
                            assert(below(paths[full[m - 1] as int], paths[full[a] as int]));
                        }
                    }
                }
            }
        }
        out.push(up);
        let ghost kept = stack@;
        stack.push(j);
        proof {
            assert forall|a: int, b: int| 0 <= a < b < stack.len() implies below(
                paths[#[trigger] stack@[b] as int],
                paths[#[trigger] stack@[a] as int],
            ) by {
                if b < m {
                    assert(full[a] == stack@[a] && full[b] == stack@[b]);
                } else {
                    let t = kept.last();
                    assert(below(paths[j as int], paths[t as int]));
                    if a < m - 1 {
                        assert(full[a] == stack@[a] && full[m - 1] == t);
                        assert(below(paths[full[m - 1] as int], paths[full[a] as int]));
                        lemma_under_transitive(paths[j as int], paths[t as int], paths[stack@[a] as int]);
                    }
                }
            }
            assert forall|k: int| #![trigger paths[k]] 0 <= k < j + 1 && under(
                paths[j as int],
                paths[k],
            ) implies stack@.contains(k as usize) by {
                if k == j {
                    assert(stack@[m as int] == k as usize);
                } else {
                    assert(path_lt(paths[k], paths[j as int]));
                    lemma_path_lt_irreflexive(paths[k]);
                    if paths[k].len() == paths[j as int].len() {
                        assert(paths[j as int].take(paths[k].len() as int) =~= paths[j as int]);
                    }
                    assert(kept.contains(k as usize));
                    let a = choose|a: int| 0 <= a < kept.len() && kept[a] == k as usize;
                    assert(stack@[a] == k as usize);
                }
            }
        }
        j = j + 1;
    }
    out
}

/// The entries with their `bytes` set to what is left of them.
pub open spec fn nested(entries: Seq<EntryView>) -> Seq<EntryView> {
    Seq::new(
        entries.len(),
        |i: int|
            EntryView {
                bytes: own_bytes(entry_paths(entries), entry_raws(entries), i),
                ..entries[i]
            },
    )
}

/// Take the nearest entries below off each entry.
fn nest(entries: Vec<FootprintEntry>) -> (r: Vec<FootprintEntry>)
    requires
        sorted_paths(entry_paths(entries.deep_view())),
        raw_sum(entry_raws(entries.deep_view()), entries.len() as int) <= u64::MAX,
    ensures
        r.deep_view() == nested(entries.deep_view()),
{
    let ghost all = entries.deep_view();
    let ghost paths = entry_paths(all);
    let ghost raws = entry_raws(all);
    let n = entries.len();
    let up = parents(&entries);
    let mut inner: Vec<u64> = Vec::new();
    let mut k: usize = 0;
    while k < n
        invariant
            k <= n,
            inner.len() == k,
            forall|a: int| 0 <= a < k ==> inner@[a] == 0,
        decreases n - k,
    {
        inner.push(0);
        k = k + 1;
    }
    let mut j: usize = 0;
    while j < n
        invariant
            j <= n,
            n == entries.len(),
            n == up.len(),
            n == inner.len(),
            all == entries.deep_view(),
            paths == entry_paths(all),
            raws == entry_raws(all),
            raw_sum(raws, n as int) <= u64::MAX,
            forall|c: int| 0 <= c < n && (#[trigger] up@[c]) is Some ==> up@[c]->0 < n,
            forall|c: int, i: int|
                #![trigger is_parent(paths, i, c)]
                0 <= c < n ==> (is_parent(paths, i, c) <==> up@[c] == Some(i as usize) && 0 <= i
                    < n),
            forall|i: int|
                0 <= i < n ==> #[trigger] inner@[i] == children_sum(paths, raws, i, j as int),
        decreases n - j,
    {
        let ghost inner0 = inner@;
        assert(raws[j as int] == entries@[j as int].raw_bytes);
        if let Some(p) = up[j] {
            proof {
                assert(is_parent(paths, p as int, j as int));
                lemma_children_sum_bounded(paths, raws, p as int, j as int);
                lemma_raw_sum_grows(raws, j + 1, n as int);
                assert(raw_sum(raws, j + 1) == raw_sum(raws, j as int) + raws[j as int]);
            }
            let sum = inner[p] + entries[j].raw_bytes;
            inner.set(p, sum);
        }
        proof {
            assert forall|i: int| 0 <= i < n implies #[trigger] inner@[i] == children_sum(
                paths,
                raws,
                i,
                j + 1,
            ) by {
                assert(inner0[i] == children_sum(paths, raws, i, j as int));
                assert(is_parent(paths, i, j as int) <==> up@[j as int] == Some(i as usize));
            }
        }
        j = j + 1;
    }
    let mut out: Vec<FootprintEntry> = Vec::new();
    let mut i: usize = 0;
    while i < n
        invariant
            i <= n,
            n == entries.len(),
            n == inner.len(),
            all == entries.deep_view(),
            paths == entry_paths(all),
            raws == entry_raws(all),
            forall|i: int|
                0 <= i < n ==> #[trigger] inner@[i] == children_sum(paths, raws, i, n as int),
            out.deep_view() =~= nested(all).take(i as int),
        decreases n - i,
    {
        let mut e = entries[i].copy();
        let ghost was = out.deep_view();
        assert(all[i as int] == entries@[i as int]@);
        assert(inner@[i as int] == children_sum(paths, raws, i as int, n as int));
        e.bytes = if e.raw_bytes >= inner[i] {
            e.raw_bytes - inner[i]
        } else {
            0
        };
        assert(e@ == nested(all)[i as int]);
        out.push(e);
        assert(out.deep_view() =~= was.push(e@));
        i = i + 1;
    }
    assert(nested(all).take(i as int) =~= nested(all));
    out
}

/// Whether `k` gets a row: it claims something or is registered, and it is no sentinel.
pub open spec fn has_row(claims: Seq<ClaimView>, owners: Seq<OwnerView>, k: Seq<char>) -> bool {
    &&& k != UNATTRIBUTED_OWNER@
    &&& k != BASELINE_OWNER@
    &&& (exists|i: int| 0 <= i < claims.len() && (#[trigger] claims[i]).owner == k) || (exists|
        i: int,
    |
        0 <= i < owners.len() && (#[trigger] owners[i]).key == k)
}

/// The keys of all rows, in order.
fn row_keys(claims: &Vec<Claim>, owners: &Vec<Owner>) -> (r: Vec<String>)
    ensures
        sorted_keys(r.deep_view()),
        forall|k: Seq<char>| #[trigger]
            r.deep_view().contains(k) <==> has_row(claims.deep_view(), owners.deep_view(), k),
{
    let ghost cs = claims.deep_view();
    let ghost os = owners.deep_view();
    let mut keys: Vec<String> = Vec::new();
    let mut i: usize = 0;
    while i < claims.len()
        invariant
            i <= claims.len(),
            cs == claims.deep_view(),
            sorted_keys(keys.deep_view()),
            forall|k: Seq<char>| #[trigger]
                keys.deep_view().contains(k) <==> k != UNATTRIBUTED_OWNER@ && k != BASELINE_OWNER@
                    && exists|j: int| 0 <= j < i && (#[trigger] cs[j]).owner == k,
        decreases claims.len() - i,
    {
        let ghost was = keys.deep_view();
        assert(cs[i as int] == claims@[i as int]@);
        if !same(claims[i].owner.as_str(), UNATTRIBUTED_OWNER) && !same(
            claims[i].owner.as_str(),
            BASELINE_OWNER,
        ) {
            insert_key(&mut keys, claims[i].owner.as_str());
            proof {
                assert forall|k: Seq<char>| #[trigger] keys.deep_view().contains(k) <==> was.contains(
                k) || k == cs[i as int].owner by {
                    assert(keys.deep_view().to_set().contains(k) <==> keys.deep_view().contains(k));
                    assert(was.to_set().contains(k) <==> was.contains(k));
                }
            }
        }
        i = i + 1;
    }
    let ghost first = keys.deep_view();
    let mut n: usize = 0;
    while n < owners.len()
        invariant
            n <= owners.len(),
            os == owners.deep_view(),
            sorted_keys(keys.deep_view()),
            forall|k: Seq<char>| #[trigger]
                keys.deep_view().contains(k) <==> first.contains(k) || (k != UNATTRIBUTED_OWNER@
                    && k != BASELINE_OWNER@ && exists|j: int|
                    0 <= j < n && (#[trigger] os[j]).key == k),
        decreases owners.len() - n,
    {
        let ghost was = keys.deep_view();
        assert(os[n as int] == owners@[n as int]@);
        if !same(owners[n].key.as_str(), UNATTRIBUTED_OWNER) && !same(
            owners[n].key.as_str(),
            BASELINE_OWNER,
        ) {
            insert_key(&mut keys, owners[n].key.as_str());
            proof {
                assert forall|k: Seq<char>| #[trigger] keys.deep_view().contains(k) <==> was.contains(
                k) || k == os[n as int].key by {
                    assert(keys.deep_view().to_set().contains(k) <==> keys.deep_view().contains(k));
                    assert(was.to_set().contains(k) <==> was.contains(k));
                }
            }
        }
        n = n + 1;
    }
    keys
}

/// Whether `o` claims something in one of the ecosystems of the claims `d`.
pub open spec fn in_ecosystem_of(
    claims: Seq<ClaimView>,
    d: Seq<ClaimView>,
    o: Seq<char>,
) -> bool {
    !is_sentinel(o) && exists|i: int|
        #![trigger claims[i]]
        0 <= i < claims.len() && claims[i].owner == o && claims[i].ecosystem is Some
            && has_ecosystem(d, claims[i].ecosystem->0)
}

/// The owners that claim something in one of the ecosystems of the claims `d`.
pub open spec fn universe_of(claims: Seq<ClaimView>, d: Seq<ClaimView>) -> Set<Seq<char>> {
    Set::new(|o: Seq<char>| in_ecosystem_of(claims, d, o))
}

/// The owners that claim something in one of `ecosystems`, in order.
fn universe(claims: &Vec<Claim>, ecosystems: &Vec<&'static str>, Ghost(d): Ghost<
    Seq<ClaimView>,
>) -> (r: Vec<String>)
    requires
        forall|e: Seq<char>|
            ecosystems.deep_view().contains(e) <==> #[trigger] has_ecosystem(d, e),
    ensures
        sorted_keys(r.deep_view()),
        r.deep_view().to_set() == universe_of(claims.deep_view(), d),
{
    let ghost cs = claims.deep_view();
    let mut keys: Vec<String> = Vec::new();
    let mut i: usize = 0;
    while i < claims.len()
        invariant
            i <= claims.len(),
            cs == claims.deep_view(),
            sorted_keys(keys.deep_view()),
            forall|e: Seq<char>|
                ecosystems.deep_view().contains(e) <==> #[trigger] has_ecosystem(d, e),
            forall|o: Seq<char>| #[trigger]
                keys.deep_view().contains(o) <==> in_ecosystem_of(cs.take(i as int), d, o),
        decreases claims.len() - i,
    {
        let ghost was = keys.deep_view();
        let c = &claims[i];
        assert(cs[i as int] == c@);
        let mut member = false;
        if let Some(e) = c.ecosystem {
            let mut k: usize = 0;
            while k < ecosystems.len()
                invariant
                    k <= ecosystems.len(),
                    member <==> exists|j: int|
                        0 <= j < k && #[trigger] ecosystems.deep_view()[j] == e@,
                decreases ecosystems.len() - k,
            {
                assert(ecosystems.deep_view()[k as int] == ecosystems@[k as int]@);
                if same(ecosystems[k], e) {
                    member = true;
                }
                k = k + 1;
            }
            assert(member <==> ecosystems.deep_view().contains(e@));
            assert(member <==> has_ecosystem(d, e@));
        }
        let counts = member && !same(c.owner.as_str(), BASELINE_OWNER) && !same(
            c.owner.as_str(),
            UNATTRIBUTED_OWNER,
        );
        if counts {
            insert_key(&mut keys, c.owner.as_str());
        }
        proof {
            let now = keys.deep_view();
            let t0 = cs.take(i as int);
            let t1 = cs.take(i + 1);
            assert forall|o: Seq<char>| #[trigger] now.contains(o) <==> in_ecosystem_of(t1, d, o) by {
                assert(now.to_set().contains(o) <==> now.contains(o));
                assert(was.to_set().contains(o) <==> was.contains(o));
                if in_ecosystem_of(t0, d, o) {
                    let j = choose|j: int|
                        #![trigger t0[j]]
                        0 <= j < t0.len() && t0[j].owner == o && t0[j].ecosystem is Some
                            && has_ecosystem(d, t0[j].ecosystem->0);
                    assert(t1[j] == t0[j]);
                }
                if counts && o == c@.owner {
                    assert(t1[i as int] == c@);
                }
                if in_ecosystem_of(t1, d, o) {
                    let j = choose|j: int|
                        #![trigger t1[j]]
                        0 <= j < t1.len() && t1[j].owner == o && t1[j].ecosystem is Some
                            && has_ecosystem(d, t1[j].ecosystem->0);
                    if j < i {
                        assert(t0[j] == t1[j]);
                        assert(in_ecosystem_of(t0, d, o));
                    } else {
                        assert(t1[j] == c@);
                    }
                }
            }
        }
        i = i + 1;
    }
    proof {
        assert(cs.take(i as int) =~= cs);
        assert forall|o: Seq<char>| #[trigger] keys.deep_view().to_set().contains(o)
            <==> universe_of(cs, d).contains(o) by {
            assert(keys.deep_view().contains(o) <==> in_ecosystem_of(cs, d, o));
        }
        assert(keys.deep_view().to_set() =~= universe_of(cs, d));
    }
    keys
}

/// An entry, the owners of its ecosystems, and why nobody is said to own it, where a claim says so.
#[verifier::ext_equal]
pub struct AccountedView {
    pub entry: EntryView,
    pub universe: Set<Seq<char>>,
    pub unowned: Option<Seq<char>>,
}

/// An entry, the owners of its ecosystems, in order, and why nobody is said to own it.
struct Accounted {
    entry: FootprintEntry,
    universe: Vec<String>,
    unowned: Option<String>,
}

impl DeepView for Accounted {
    type V = AccountedView;

    closed spec fn deep_view(&self) -> AccountedView {
        AccountedView {
            entry: self.entry@,
            universe: self.universe.deep_view().to_set(),
            unowned: self.unowned.deep_view(),
        }
    }
}

/// Whether nothing owns the entry.
pub open spec fn is_orphan(e: EntryView) -> bool {
    e.owners.len() == 1 && e.owners[0] == UNATTRIBUTED_OWNER@
}

/// Whether the entry belongs to its ecosystems rather than to its owners.
pub open spec fn is_common(e: EntryView) -> bool {
    !is_orphan(e) && e.baseline
}

/// Whether the entry is owned, by `k` among others.
pub open spec fn owned_by(e: EntryView, k: Seq<char>) -> bool {
    !is_orphan(e) && !e.baseline && e.owners.contains(k)
}

/// One of `n` equal parts; the first owner also gets what cannot be divided.
pub open spec fn part(bytes: u64, n: nat, first: bool) -> nat {
    if n == 0 {
        0
    } else {
        bytes as nat / n + if first {
            bytes as nat % n
        } else {
            0
        }
    }
}

/// Whether `k` comes first in `s`.
pub open spec fn is_least(s: Set<Seq<char>>, k: Seq<char>) -> bool {
    s.contains(k) && forall|x: Seq<char>| #[trigger] s.contains(x) ==> x == k || chars_lt(k, x)
}

/// What an entry adds to the reach of `k`.
pub open spec fn reach_part(a: AccountedView, k: Seq<char>) -> nat {
    if owned_by(a.entry, k) || (is_common(a.entry) && a.universe.contains(k)) {
        a.entry.bytes as nat
    } else {
        0
    }
}

/// What an entry adds to the baseline share of `k`.
pub open spec fn baseline_part(a: AccountedView, k: Seq<char>) -> nat {
    if is_common(a.entry) && a.universe.contains(k) {
        part(a.entry.bytes, a.universe.len(), is_least(a.universe, k))
    } else {
        0
    }
}

/// What an entry adds to what `k` owns, alone or with others.
pub open spec fn own_part(a: AccountedView, k: Seq<char>) -> nat {
    if !owned_by(a.entry, k) || a.entry.virtual_bytes {
        0
    } else if a.entry.owners.len() == 1 {
        if a.entry.clone_of_store {
            0
        } else {
            a.entry.bytes as nat
        }
    } else {
        part(a.entry.bytes, a.entry.owners.len(), a.entry.owners[0] == k)
    }
}

/// What an entry adds to what `k` alone owns.
pub open spec fn exclusive_part(a: AccountedView, k: Seq<char>) -> nat {
    if a.entry.owners.len() == 1 {
        own_part(a, k)
    } else {
        0
    }
}

/// What an entry adds to what `k` owns with others.
pub open spec fn shared_part(a: AccountedView, k: Seq<char>) -> nat {
    if a.entry.owners.len() == 1 {
        0
    } else {
        own_part(a, k)
    }
}

/// What an entry adds to the group of `kind` of `k`.
pub open spec fn group_part(a: AccountedView, k: Seq<char>, kind: EntryKind) -> nat {
    if a.entry.kind == kind {
        own_part(a, k)
    } else {
        0
    }
}

/// What an entry adds to the bytes that are accounted for.
pub open spec fn real_part(a: AccountedView) -> nat {
    if a.entry.virtual_bytes {
        0
    } else {
        a.entry.bytes as nat
    }
}

/// A sum over entries.
pub open spec fn sum_of(s: Seq<AccountedView>, f: spec_fn(AccountedView) -> nat) -> nat
    decreases s.len(),
{
    if s.len() == 0 {
        0
    } else {
        sum_of(s.drop_last(), f) + f(s.last())
    }
}

/// Everything that `k` reaches.
pub open spec fn reach(s: Seq<AccountedView>, k: Seq<char>) -> nat {
    sum_of(s, |a: AccountedView| reach_part(a, k))
}

/// The part of `k` in what its ecosystems share.
pub open spec fn baseline_share(s: Seq<AccountedView>, k: Seq<char>) -> nat {
    sum_of(s, |a: AccountedView| baseline_part(a, k))
}

/// What `k` alone owns.
pub open spec fn exclusive(s: Seq<AccountedView>, k: Seq<char>) -> nat {
    sum_of(s, |a: AccountedView| exclusive_part(a, k))
}

/// The part of `k` in what it owns with others.
pub open spec fn shared(s: Seq<AccountedView>, k: Seq<char>) -> nat {
    sum_of(s, |a: AccountedView| shared_part(a, k))
}

/// What `k` owns of one kind.
pub open spec fn group_bytes(s: Seq<AccountedView>, k: Seq<char>, kind: EntryKind) -> nat {
    sum_of(s, |a: AccountedView| group_part(a, k, kind))
}

/// The bytes that are accounted for.
pub open spec fn attributed(s: Seq<AccountedView>) -> nat {
    sum_of(s, |a: AccountedView| real_part(a))
}

/// The bytes of all entries.
pub open spec fn entry_sum(s: Seq<AccountedView>) -> nat {
    sum_of(s, |a: AccountedView| a.entry.bytes as nat)
}

/// Whether `k` reaches a clone of a package store.
pub open spec fn reaches_clone(s: Seq<AccountedView>, k: Seq<char>) -> bool {
    exists|i: int|
        0 <= i < s.len() && (#[trigger] s[i]).entry.clone_of_store && (owned_by(s[i].entry, k) || (
        is_common(s[i].entry) && s[i].universe.contains(k)))
}

/// The entries of one kind that `k` owns, in path order.
pub open spec fn owned_entries(s: Seq<AccountedView>, k: Seq<char>, kind: EntryKind) -> Seq<
    EntryView,
>
    decreases s.len(),
{
    if s.len() == 0 {
        seq![]
    } else {
        let rest = owned_entries(s.drop_last(), k, kind);
        if owned_by(s.last().entry, k) && s.last().entry.kind == kind {
            rest.push(s.last().entry)
        } else {
            rest
        }
    }
}

/// Entries are shown by falling size; of equal ones the path that comes first.
pub open spec fn entry_before(a: EntryView, b: EntryView) -> bool {
    a.bytes > b.bytes || (a.bytes == b.bytes && path_lt(a.path, b.path))
}

/// Entries in the order in which they are shown.
pub open spec fn entries_sorted(s: Seq<EntryView>) -> bool {
    forall|i: int, j: int| 0 <= i < j < s.len() ==> entry_before(#[trigger] s[i], #[trigger] s[j])
}

/// Groups are shown by falling size; of equal ones the kind that is listed first.
pub open spec fn group_before(a: GroupView, b: GroupView) -> bool {
    a.bytes > b.bytes || (a.bytes == b.bytes && kind_place(a.kind) < kind_place(b.kind))
}

/// Whether `g` is the group of its kind of `k`.
pub open spec fn is_group(g: GroupView, s: Seq<AccountedView>, k: Seq<char>) -> bool {
    &&& g.bytes == group_bytes(s, k, g.kind)
    &&& owned_entries(s, k, g.kind).len() > 0
    &&& entries_sorted(g.entries)
    &&& g.entries.to_multiset() == owned_entries(s, k, g.kind).to_multiset()
}

/// Whether `groups` is the breakdown of `k`: each kind of which it owns something, in order.
pub open spec fn is_breakdown(
    groups: Seq<GroupView>,
    s: Seq<AccountedView>,
    k: Seq<char>,
) -> bool {
    &&& forall|i: int, j: int|
        0 <= i < j < groups.len() ==> group_before(#[trigger] groups[i], #[trigger] groups[j])
    &&& forall|i: int| 0 <= i < groups.len() ==> is_group(#[trigger] groups[i], s, k)
    &&& forall|kind: EntryKind|
        (#[trigger] owned_entries(s, k, kind)).len() > 0 ==> exists|i: int|
            0 <= i < groups.len() && (#[trigger] groups[i]).kind == kind
}

proof fn lemma_part_bounded(bytes: u64, n: nat, first: bool)
    ensures
        part(bytes, n, first) <= bytes,
{
    if n > 0 {
        let b = bytes as nat;
        vstd::arithmetic::div_mod::lemma_fundamental_div_mod(b as int, n as int);
        assert(b / n <= n * (b / n)) by (nonlinear_arith)
            requires
                n >= 1,
        ;
    }
}

proof fn lemma_sum_le(
    s: Seq<AccountedView>,
    f: spec_fn(AccountedView) -> nat,
    g: spec_fn(AccountedView) -> nat,
)
    requires
        forall|a: AccountedView| #[trigger] f(a) <= g(a),
    ensures
        sum_of(s, f) <= sum_of(s, g),
    decreases s.len(),
{
    if s.len() > 0 {
        lemma_sum_le(s.drop_last(), f, g);
        assert(f(s.last()) <= g(s.last()));
    }
}

proof fn lemma_sum_prefix(s: Seq<AccountedView>, f: spec_fn(AccountedView) -> nat, n: int)
    requires
        0 <= n <= s.len(),
    ensures
        sum_of(s.take(n), f) <= sum_of(s, f),
    decreases s.len() - n,
{
    if n < s.len() {
        lemma_sum_prefix(s, f, n + 1);
        assert(s.take(n + 1).drop_last() =~= s.take(n));
    } else {
        assert(s.take(n) =~= s);
    }
}

/// Whatever an owner gets of an entry, it is no more than the entry's bytes.
proof fn lemma_parts_bounded(a: AccountedView, k: Seq<char>)
    ensures
        reach_part(a, k) <= a.entry.bytes,
        baseline_part(a, k) <= a.entry.bytes,
        own_part(a, k) <= a.entry.bytes,
        own_part(a, k) <= reach_part(a, k),
        baseline_part(a, k) <= reach_part(a, k),
        exclusive_part(a, k) + shared_part(a, k) == own_part(a, k),
{
    lemma_part_bounded(a.entry.bytes, a.universe.len(), is_least(a.universe, k));
    lemma_part_bounded(a.entry.bytes, a.entry.owners.len(), a.entry.owners[0] == k);
}

/// Each of an owner's numbers is bounded by the bytes of all entries.
proof fn lemma_numbers_bounded(s: Seq<AccountedView>, k: Seq<char>, kind: EntryKind)
    ensures
        reach(s, k) <= entry_sum(s),
        baseline_share(s, k) <= entry_sum(s),
        exclusive(s, k) <= entry_sum(s),
        shared(s, k) <= entry_sum(s),
        group_bytes(s, k, kind) <= entry_sum(s),
        attributed(s) <= entry_sum(s),
{
    let all = |a: AccountedView| a.entry.bytes as nat;
    assert forall|a: AccountedView| true implies #[trigger] reach_part(a, k) <= all(a)
        && baseline_part(a, k) <= all(a) && own_part(a, k) <= all(a) by {
        lemma_parts_bounded(a, k);
    }
    lemma_parts_bounded_all(k);
    lemma_sum_le(s, |a: AccountedView| reach_part(a, k), all);
    lemma_sum_le(s, |a: AccountedView| baseline_part(a, k), all);
    lemma_sum_le(s, |a: AccountedView| exclusive_part(a, k), all);
    lemma_sum_le(s, |a: AccountedView| shared_part(a, k), all);
    lemma_sum_le(s, |a: AccountedView| group_part(a, k, kind), all);
    lemma_sum_le(s, |a: AccountedView| real_part(a), all);
}

proof fn lemma_parts_bounded_all(k: Seq<char>)
    ensures
        forall|a: AccountedView| #[trigger] reach_part(a, k) <= a.entry.bytes,
        forall|a: AccountedView| #[trigger] baseline_part(a, k) <= a.entry.bytes,
        forall|a: AccountedView| #[trigger] own_part(a, k) <= a.entry.bytes,
{
    assert forall|a: AccountedView| #[trigger] reach_part(a, k) <= a.entry.bytes by {
        lemma_parts_bounded(a, k);
    }
    assert forall|a: AccountedView| #[trigger] baseline_part(a, k) <= a.entry.bytes by {
        lemma_parts_bounded(a, k);
    }
    assert forall|a: AccountedView| #[trigger] own_part(a, k) <= a.entry.bytes by {
        lemma_parts_bounded(a, k);
    }
}

/// In a sorted list of a set's members, the first is the least, and there are as many as the
/// set has.
proof fn lemma_sorted_members(u: Seq<Seq<char>>, k: Seq<char>)
    requires
        sorted_keys(u),
    ensures
        u.to_set().len() == u.len(),
        is_least(u.to_set(), k) <==> u.len() > 0 && u[0] == k,
{
    assert(u.no_duplicates()) by {
        assert forall|i: int, j: int| 0 <= i < u.len() && 0 <= j < u.len() && i != j implies u[i]
            != u[j] by {
            lemma_chars_lt_irreflexive(u[i]);
            if i < j {
                assert(chars_lt(u[i], u[j]));
            } else {
                assert(chars_lt(u[j], u[i]));
            }
        }
    }
    u.unique_seq_to_set();
    if u.len() > 0 && u[0] == k {
        assert(u.contains(k));
        assert forall|x: Seq<char>| #[trigger] u.to_set().contains(x) implies x == k || chars_lt(
            k,
            x,
        ) by {
            assert(u.contains(x));
            let n = choose|n: int| 0 <= n < u.len() && u[n] == x;
            if n > 0 {
                assert(chars_lt(u[0], u[n]));
            }
        }
    }
    if is_least(u.to_set(), k) {
        assert(u.contains(k));
        let n = choose|n: int| 0 <= n < u.len() && u[n] == k;
        assert(u.contains(u[0]));
        assert(u.to_set().contains(u[0]));
        if n > 0 {
            assert(chars_lt(u[0], u[n]));
            crate::order::lemma_chars_lt_asymmetric(u[0], u[n]);
        }
    }
}

/// An owner's numbers.
struct Totals {
    exclusive: u64,
    shared: u64,
    reach: u64,
    baseline_share: u64,
    clone_note: bool,
}

fn equal_part(bytes: u64, n: usize, first: bool) -> (r: u64)
    requires
        n > 0,
    ensures
        r == part(bytes, n as nat, first),
{
    proof {
        lemma_part_bounded(bytes, n as nat, first);
        lemma_part_bounded(bytes, n as nat, true);
    }
    let d: u64 = n as u64;
    if first {
        bytes / d + bytes % d
    } else {
        bytes / d
    }
}

fn orphan(e: &FootprintEntry) -> (r: bool)
    ensures
        r == is_orphan(e@),
{
    if e.owners.len() == 1 {
        assert(e@.owners[0] == e.owners@[0]@);
        same(e.owners[0].as_str(), UNATTRIBUTED_OWNER)
    } else {
        false
    }
}

fn owned(e: &FootprintEntry, key: &str) -> (r: bool)
    ensures
        r == owned_by(e@, key@),
{
    !orphan(e) && !e.baseline && listed(&e.owners, key)
}

fn own_share(e: &FootprintEntry, key: &str) -> (r: u64)
    requires
        owned_by(e@, key@),
    ensures
        forall|a: AccountedView| a.entry == e@ ==> r == #[trigger] own_part(a, key@),
{
    assert(e@.owners.len() == e.owners.len());
    if e.virtual_bytes {
        0
    } else if e.owners.len() == 1 {
        if e.clone_of_store {
            0
        } else {
            e.bytes
        }
    } else {
        assert(e@.owners.len() > 0);
        assert(e@.owners[0] == e.owners@[0]@);
        equal_part(e.bytes, e.owners.len(), same(e.owners[0].as_str(), key))
    }
}

/// Everything is accounted in path order, and the lists of owners are in order.
spec fn in_order(acc: Vec<Accounted>) -> bool {
    &&& forall|i: int, j: int|
        0 <= i < j < acc.len() ==> path_lt(
            (#[trigger] acc.deep_view()[i]).entry.path,
            (#[trigger] acc.deep_view()[j]).entry.path,
        )
    &&& forall|i: int|
        0 <= i < acc.len() ==> sorted_keys((#[trigger] acc@[i]).universe.deep_view())
}

fn totals(acc: &Vec<Accounted>, key: &str) -> (r: Totals)
    requires
        in_order(*acc),
        entry_sum(acc.deep_view()) <= u64::MAX,
    ensures
        r.exclusive == exclusive(acc.deep_view(), key@),
        r.shared == shared(acc.deep_view(), key@),
        r.reach == reach(acc.deep_view(), key@),
        r.baseline_share == baseline_share(acc.deep_view(), key@),
        r.clone_note == reaches_clone(acc.deep_view(), key@),
{
    let ghost all = acc.deep_view();
    let ghost k = key@;
    let mut t = Totals {
        exclusive: 0,
        shared: 0,
        reach: 0,
        baseline_share: 0,
        clone_note: false,
    };
    let mut i: usize = 0;
    while i < acc.len()
        invariant
            i <= acc.len(),
            all == acc.deep_view(),
            k == key@,
            in_order(*acc),
            entry_sum(all) <= u64::MAX,
            t.exclusive == exclusive(all.take(i as int), k),
            t.shared == shared(all.take(i as int), k),
            t.reach == reach(all.take(i as int), k),
            t.baseline_share == baseline_share(all.take(i as int), k),
            t.clone_note <==> exists|j: int|
                0 <= j < i && (#[trigger] all[j]).entry.clone_of_store && (owned_by(
                    all[j].entry,
                    k,
                ) || (is_common(all[j].entry) && all[j].universe.contains(k))),
        decreases acc.len() - i,
    {
        let a = &acc[i];
        let ghost av = all[i as int];
        proof {
            assert(av == acc@[i as int].deep_view());
            let next = all.take(i + 1);
            assert(next.drop_last() =~= all.take(i as int));
            assert(next.last() == av);
            lemma_numbers_bounded(next, k, EntryKind::Other);
            lemma_sum_prefix(all, |a: AccountedView| a.entry.bytes as nat, i + 1);
            lemma_sorted_members(a.universe.deep_view(), k);
        }
        if owned(&a.entry, key) {
            let share = own_share(&a.entry, key);
            assert(share == own_part(av, k));
            assert(a.entry@.owners.len() == a.entry.owners.len());
            t.reach = t.reach + a.entry.bytes;
            t.clone_note = t.clone_note || a.entry.clone_of_store;
            if a.entry.owners.len() == 1 {
                t.exclusive = t.exclusive + share;
            } else {
                t.shared = t.shared + share;
            }
        } else if !orphan(&a.entry) && a.entry.baseline {
            if listed(&a.universe, key) {
                assert(a.universe.len() > 0);
                assert(a.universe.deep_view()[0] == a.universe@[0]@);
                let share = equal_part(
                    a.entry.bytes,
                    a.universe.len(),
                    same(a.universe[0].as_str(), key),
                );
                assert(share == baseline_part(av, k));
                t.baseline_share = t.baseline_share + share;
                t.reach = t.reach + a.entry.bytes;
                t.clone_note = t.clone_note || a.entry.clone_of_store;
            }
        }
        i = i + 1;
    }
    assert(all.take(i as int) =~= all);
    t
}

/// All paths of the list come before `p`.
spec fn all_before(s: Seq<EntryView>, p: Seq<Seq<char>>) -> bool {
    forall|i: int| 0 <= i < s.len() ==> path_lt((#[trigger] s[i]).path, p)
}

/// Put an entry into its place among entries whose paths come before its own.
fn insert_entry(list: &mut Vec<FootprintEntry>, e: FootprintEntry)
    requires
        entries_sorted(old(list).deep_view()),
        all_before(old(list).deep_view(), e@.path),
    ensures
        entries_sorted(final(list).deep_view()),
        final(list).deep_view().to_multiset() == old(list).deep_view().to_multiset().insert(e@),
        forall|p: Seq<Seq<char>>|
            all_before(old(list).deep_view(), p) && path_lt(e@.path, p) ==> #[trigger] all_before(
                final(list).deep_view(),
                p,
            ),
{
    let ghost was = list.deep_view();
    let ghost ev = e@;
    let mut i: usize = 0;
    while i < list.len() && list[i].bytes >= e.bytes
        invariant
            i <= list.len(),
            was == list.deep_view(),
            ev == e@,
            forall|j: int| 0 <= j < i ==> (#[trigger] was[j]).bytes >= ev.bytes,
        decreases list.len() - i,
    {
        assert(was[i as int] == list@[i as int]@);
        i = i + 1;
    }
    proof {
        if i < list.len() {
            assert(was[i as int] == list@[i as int]@);
        }
    }
    list.insert(i, e);
    proof {
        let now = list.deep_view();
        assert(now =~= was.insert(i as int, ev));
        broadcast use vstd::seq_lib::to_multiset_insert;

        assert forall|a: int, b: int| 0 <= a < b < now.len() implies entry_before(
            #[trigger] now[a],
            #[trigger] now[b],
        ) by {
            let a0 = if a < i {
                a
            } else {
                a - 1
            };
            let b0 = if b < i {
                b
            } else {
                b - 1
            };
            if a == i {
                assert(now[b] == was[b0]);
                if b0 > i {
                    assert(entry_before(was[i as int], was[b0]));
                }
            } else if b == i {
                assert(now[a] == was[a0]);
                assert(path_lt(was[a0].path, ev.path));
            } else {
                assert(now[a] == was[a0] && now[b] == was[b0]);
            }
        }
        assert forall|p: Seq<Seq<char>>| all_before(was, p) && path_lt(ev.path, p) implies #[trigger] all_before(
        now, p) by {
            assert forall|n: int| 0 <= n < now.len() implies path_lt((#[trigger] now[n]).path, p) by {
                if n < i {
                    assert(now[n] == was[n]);
                } else if n > i {
                    assert(now[n] == was[n - 1]);
                }
            }
        }
    }
}

/// The group of one kind of `key`, if it owns anything of it.
fn group_for(acc: &Vec<Accounted>, key: &str, kind: EntryKind) -> (r: Option<FootprintGroup>)
    requires
        in_order(*acc),
        entry_sum(acc.deep_view()) <= u64::MAX,
    ensures
        r is Some <==> owned_entries(acc.deep_view(), key@, kind).len() > 0,
        r is Some ==> r->0.kind == kind && is_group(r->0@, acc.deep_view(), key@),
{
    let ghost all = acc.deep_view();
    let ghost k = key@;
    let mut bytes: u64 = 0;
    let mut entries: Vec<FootprintEntry> = Vec::new();
    let mut i: usize = 0;
    assert(entries.deep_view() =~= owned_entries(all.take(0), k, kind));
    while i < acc.len()
        invariant
            i <= acc.len(),
            all == acc.deep_view(),
            k == key@,
            in_order(*acc),
            entry_sum(all) <= u64::MAX,
            bytes == group_bytes(all.take(i as int), k, kind),
            entries_sorted(entries.deep_view()),
            entries.deep_view().to_multiset() == owned_entries(
                all.take(i as int),
                k,
                kind,
            ).to_multiset(),
            forall|j: int|
                i <= j < acc.len() ==> all_before(
                    entries.deep_view(),
                    (#[trigger] all[j]).entry.path,
                ),
        decreases acc.len() - i,
    {
        let a = &acc[i];
        let ghost av = all[i as int];
        proof {
            assert(av == acc@[i as int].deep_view());
            let next = all.take(i + 1);
            assert(next.drop_last() =~= all.take(i as int));
            assert(next.last() == av);
            lemma_numbers_bounded(next, k, kind);
            lemma_sum_prefix(all, |a: AccountedView| a.entry.bytes as nat, i + 1);
            broadcast use vstd::seq_lib::to_multiset_build;

        }
        if a.entry.kind == kind && owned(&a.entry, key) {
            let share = own_share(&a.entry, key);
            assert(share == own_part(av, k));
            bytes = bytes + share;
            let copy = a.entry.copy();
            insert_entry(&mut entries, copy);
        }
        i = i + 1;
    }
    assert(all.take(i as int) =~= all);
    proof {
        broadcast use vstd::seq_lib::to_multiset_len;

        assert(entries.deep_view().to_multiset().len() == entries.deep_view().len());
        assert(owned_entries(all, k, kind).to_multiset().len() == owned_entries(all, k, kind).len());
    }
    if entries.len() == 0 {
        None
    } else {
        Some(FootprintGroup { kind, bytes, entries })
    }
}

/// Put a group into its place among groups of kinds that are listed before its own; returns the
/// place.
fn insert_group(groups: &mut Vec<FootprintGroup>, g: FootprintGroup) -> (r: usize)
    requires
        forall|i: int, j: int|
            0 <= i < j < old(groups).len() ==> group_before(
                #[trigger] old(groups).deep_view()[i],
                #[trigger] old(groups).deep_view()[j],
            ),
        forall|i: int|
            0 <= i < old(groups).len() ==> kind_place(
                (#[trigger] old(groups).deep_view()[i]).kind,
            ) < kind_place(g@.kind),
    ensures
        r <= old(groups).len(),
        final(groups).deep_view() == old(groups).deep_view().insert(r as int, g@),
        forall|i: int, j: int|
            0 <= i < j < final(groups).len() ==> group_before(
                #[trigger] final(groups).deep_view()[i],
                #[trigger] final(groups).deep_view()[j],
            ),
{
    let ghost was = groups.deep_view();
    let ghost gv = g@;
    let mut i: usize = 0;
    while i < groups.len() && groups[i].bytes >= g.bytes
        invariant
            i <= groups.len(),
            was == groups.deep_view(),
            gv == g@,
            forall|j: int| 0 <= j < i ==> (#[trigger] was[j]).bytes >= gv.bytes,
        decreases groups.len() - i,
    {
        assert(was[i as int] == groups@[i as int]@);
        i = i + 1;
    }
    proof {
        if i < groups.len() {
            assert(was[i as int] == groups@[i as int]@);
        }
    }
    groups.insert(i, g);
    proof {
        let now = groups.deep_view();
        assert(now =~= was.insert(i as int, gv));
        assert forall|a: int, b: int| 0 <= a < b < now.len() implies group_before(
            #[trigger] now[a],
            #[trigger] now[b],
        ) by {
            let a0 = if a < i {
                a
            } else {
                a - 1
            };
            let b0 = if b < i {
                b
            } else {
                b - 1
            };
            if a == i {
                assert(now[b] == was[b0]);
                if b0 > i {
                    assert(group_before(was[i as int], was[b0]));
                }
            } else if b == i {
                assert(now[a] == was[a0]);
            } else {
                assert(now[a] == was[a0] && now[b] == was[b0]);
            }
        }
    }
    i
}

/// Each group is the one of its kind, and its kind is listed before place `n`.
#[verifier::opaque]
spec fn groups_fit(groups: Seq<GroupView>, s: Seq<AccountedView>, k: Seq<char>, n: int) -> bool {
    forall|i: int|
        0 <= i < groups.len() ==> is_group(#[trigger] groups[i], s, k) && kind_place(
            groups[i].kind,
        ) < n
}

/// Each kind that is listed before place `n`, and of which `k` owns something, has a group.
#[verifier::opaque]
spec fn groups_cover(groups: Seq<GroupView>, s: Seq<AccountedView>, k: Seq<char>, n: int) -> bool {
    forall|kind: EntryKind|
        kind_place(kind) < n && (#[trigger] owned_entries(s, k, kind)).len() > 0 ==> exists|
            i: int,
        |
            0 <= i < groups.len() && (#[trigger] groups[i]).kind == kind
}

proof fn lemma_groups_grow(
    groups: Seq<GroupView>,
    g: GroupView,
    i: int,
    s: Seq<AccountedView>,
    k: Seq<char>,
)
    requires
        groups_fit(groups, s, k, kind_place(g.kind)),
        groups_cover(groups, s, k, kind_place(g.kind)),
        is_group(g, s, k),
        0 <= i <= groups.len(),
    ensures
        groups_fit(groups.insert(i, g), s, k, kind_place(g.kind) + 1),
        groups_cover(groups.insert(i, g), s, k, kind_place(g.kind) + 1),
{
    reveal(groups_fit);
    reveal(groups_cover);
    let now = groups.insert(i, g);
    let n = kind_place(g.kind);
    assert forall|j: int| 0 <= j < now.len() implies is_group(#[trigger] now[j], s, k)
        && kind_place(now[j].kind) < n + 1 by {
        if j < i {
            assert(now[j] == groups[j]);
        } else if j > i {
            assert(now[j] == groups[j - 1]);
        }
    }
    assert forall|kd: EntryKind| kind_place(kd) < n + 1 && (#[trigger] owned_entries(
        s,
        k,
        kd,
    )).len() > 0 implies exists|j: int| 0 <= j < now.len() && (#[trigger] now[j]).kind == kd by {
        if kind_place(kd) == n {
            lemma_place_injective(kd, g.kind);
            assert(now[i].kind == kd);
        } else {
            let j = choose|j: int| 0 <= j < groups.len() && (#[trigger] groups[j]).kind == kd;
            if j < i {
                assert(now[j].kind == kd);
            } else {
                assert(now[j + 1].kind == kd);
            }
        }
    }
}

proof fn lemma_groups_skip(groups: Seq<GroupView>, s: Seq<AccountedView>, k: Seq<char>, kind: EntryKind)
    requires
        groups_fit(groups, s, k, kind_place(kind)),
        groups_cover(groups, s, k, kind_place(kind)),
        owned_entries(s, k, kind).len() == 0,
    ensures
        groups_fit(groups, s, k, kind_place(kind) + 1),
        groups_cover(groups, s, k, kind_place(kind) + 1),
{
    reveal(groups_fit);
    reveal(groups_cover);
    assert forall|kd: EntryKind| kind_place(kd) < kind_place(kind) + 1 && (#[trigger] owned_entries(
        s,
        k,
        kd,
    )).len() > 0 implies exists|j: int|
        0 <= j < groups.len() && (#[trigger] groups[j]).kind == kd by {
        if kind_place(kd) == kind_place(kind) {
            lemma_place_injective(kd, kind);
        }
    }
}

/// Two kinds at one place are the same.
proof fn lemma_place_injective(a: EntryKind, b: EntryKind)
    requires
        kind_place(a) == kind_place(b),
    ensures
        a == b,
{
}

/// The breakdown of `key`.
fn groups_for(acc: &Vec<Accounted>, key: &str) -> (r: Vec<FootprintGroup>)
    requires
        in_order(*acc),
        entry_sum(acc.deep_view()) <= u64::MAX,
    ensures
        is_breakdown(r.deep_view(), acc.deep_view(), key@),
{
    let ghost all = acc.deep_view();
    let ghost k = key@;
    let kinds = EntryKind::all();
    let mut groups: Vec<FootprintGroup> = Vec::new();
    let mut n: usize = 0;
    proof {
        reveal(groups_fit);
        reveal(groups_cover);
    }
    while n < kinds.len()
        invariant
            n <= kinds.len(),
            kinds.len() == 23,
            all == acc.deep_view(),
            k == key@,
            in_order(*acc),
            entry_sum(all) <= u64::MAX,
            forall|kind: EntryKind|
                0 <= #[trigger] kind_place(kind) < kinds.len() && kinds@[kind_place(kind)] == kind,
            forall|i: int, j: int|
                0 <= i < j < groups.len() ==> group_before(
                    #[trigger] groups.deep_view()[i],
                    #[trigger] groups.deep_view()[j],
                ),
            groups_fit(groups.deep_view(), all, k, n as int),
            groups_cover(groups.deep_view(), all, k, n as int),
        decreases kinds.len() - n,
    {
        let ghost was = groups.deep_view();
        let kind = kinds[n];
        proof {
            lemma_kind_at(kinds@, n as int);
        }
        match group_for(acc, key, kind) {
            Some(g) => {
                let ghost gv = g@;
                proof {
                    reveal(groups_fit);
                }
                let i = insert_group(&mut groups, g);
                proof {
                    lemma_groups_grow(was, gv, i as int, all, k);
                }
            },
            None => {
                proof {
                    lemma_groups_skip(was, all, k, kind);
                }
            },
        }
        n = n + 1;
    }
    proof {
        reveal(groups_fit);
        reveal(groups_cover);
    }
    groups
}

proof fn lemma_kind_at(kinds: Seq<EntryKind>, n: int)
    requires
        0 <= n < kinds.len(),
        kinds.len() == 23,
        forall|kind: EntryKind|
            0 <= #[trigger] kind_place(kind) < kinds.len() && kinds[kind_place(kind)] == kind,
    ensures
        kind_place(kinds[n]) == n,
{
    assert(kinds[kind_place(EntryKind::WorkingTree)] == EntryKind::WorkingTree);
    assert(kinds[kind_place(EntryKind::Artifacts)] == EntryKind::Artifacts);
    assert(kinds[kind_place(EntryKind::Worktree)] == EntryKind::Worktree);
    assert(kinds[kind_place(EntryKind::PackageCache)] == EntryKind::PackageCache);
    assert(kinds[kind_place(EntryKind::Toolchain)] == EntryKind::Toolchain);
    assert(kinds[kind_place(EntryKind::Xcode)] == EntryKind::Xcode);
    assert(kinds[kind_place(EntryKind::Simulator)] == EntryKind::Simulator);
    assert(kinds[kind_place(EntryKind::Docker)] == EntryKind::Docker);
    assert(kinds[kind_place(EntryKind::AgentState)] == EntryKind::AgentState);
    assert(kinds[kind_place(EntryKind::EditorState)] == EntryKind::EditorState);
    assert(kinds[kind_place(EntryKind::ProjectCache)] == EntryKind::ProjectCache);
    assert(kinds[kind_place(EntryKind::AppBundle)] == EntryKind::AppBundle);
    assert(kinds[kind_place(EntryKind::Container)] == EntryKind::Container);
    assert(kinds[kind_place(EntryKind::GroupContainer)] == EntryKind::GroupContainer);
    assert(kinds[kind_place(EntryKind::AppSupport)] == EntryKind::AppSupport);
    assert(kinds[kind_place(EntryKind::Cache)] == EntryKind::Cache);
    assert(kinds[kind_place(EntryKind::Preferences)] == EntryKind::Preferences);
    assert(kinds[kind_place(EntryKind::Logs)] == EntryKind::Logs);
    assert(kinds[kind_place(EntryKind::WebData)] == EntryKind::WebData);
    assert(kinds[kind_place(EntryKind::SavedState)] == EntryKind::SavedState);
    assert(kinds[kind_place(EntryKind::DotDir)] == EntryKind::DotDir);
    assert(kinds[kind_place(EntryKind::Data)] == EntryKind::Data);
    assert(kinds[kind_place(EntryKind::Other)] == EntryKind::Other);
}

/// The last registered owner with this key.
pub open spec fn registered(owners: Seq<OwnerView>, k: Seq<char>) -> Option<OwnerView>
    decreases owners.len(),
{
    if owners.len() == 0 {
        None
    } else if owners.last().key == k {
        Some(owners.last())
    } else {
        registered(owners.drop_last(), k)
    }
}

/// The owner that a key alone tells of.
pub open spec fn implied_owner(axis: Axis, key: Seq<char>) -> OwnerView {
    match axis {
        Axis::Projects => OwnerView {
            key,
            kind: OwnerKind::Project,
            name: match file_name(path_of(key)) {
                Some(n) => n,
                None => key,
            },
            path: Some(path_of(key)),
        },
        Axis::AppStorage => if starts(key, "formula:"@) {
            OwnerView {
                key,
                kind: OwnerKind::Formula,
                name: key.skip("formula:"@.len() as int),
                path: None,
            }
        } else if starts(key, "tool:"@) {
            OwnerView {
                key,
                kind: OwnerKind::Tool,
                name: key.skip("tool:"@.len() as int),
                path: None,
            }
        } else if key == "homebrew"@ {
            OwnerView { key, kind: OwnerKind::Homebrew, name: "Homebrew"@, path: None }
        } else {
            OwnerView {
                key,
                kind: OwnerKind::App,
                name: key.skip(after_last(key, '.') as int),
                path: None,
            }
        },
    }
}

/// The owner that a key alone tells of: a project by its path, an app by its bundle id, a
/// formula or a tool by its prefix.
fn owner_from_key(axis: Axis, key: &str) -> (r: Owner)
    ensures
        r@ == implied_owner(axis, key@),
{
    match axis {
        Axis::Projects => {
            let path = FilePath::from_text(key);
            let name = match path.file_name() {
                Some(n) => n.to_owned(),
                None => key.to_owned(),
            };
            Owner { key: key.to_owned(), kind: OwnerKind::Project, name, path: Some(path) }
        },
        Axis::AppStorage => {
            let c = chars_of(key);
            if let Some(rest) = strip_prefix(c.as_slice(), "formula:") {
                Owner {
                    key: key.to_owned(),
                    kind: OwnerKind::Formula,
                    name: string_of(rest),
                    path: None,
                }
            } else if let Some(rest) = strip_prefix(c.as_slice(), "tool:") {
                Owner {
                    key: key.to_owned(),
                    kind: OwnerKind::Tool,
                    name: string_of(rest),
                    path: None,
                }
            } else if same(key, "homebrew") {
                Owner {
                    key: key.to_owned(),
                    kind: OwnerKind::Homebrew,
                    name: "Homebrew".to_owned(),
                    path: None,
                }
            } else {
                let k = find_last(c.as_slice(), '.');
                let rest = slice_subrange(c.as_slice(), k, c.len());
                assert(rest@ =~= key@.skip(k as int));
                Owner {
                    key: key.to_owned(),
                    kind: OwnerKind::App,
                    name: string_of(rest),
                    path: None,
                }
            }
        },
    }
}

/// The owner of a row: the registered one, or the one that the key tells of.
pub open spec fn row_owner(owners: Seq<OwnerView>, axis: Axis, k: Seq<char>) -> OwnerView {
    match registered(owners, k) {
        Some(o) => o,
        None => implied_owner(axis, k),
    }
}

proof fn lemma_row_owner_key(owners: Seq<OwnerView>, axis: Axis, k: Seq<char>)
    ensures
        row_owner(owners, axis, k).key == k,
    decreases owners.len(),
{
    if owners.len() > 0 && owners.last().key != k {
        lemma_row_owner_key(owners.drop_last(), axis, k);
    }
}

fn find_owner(owners: &Vec<Owner>, axis: Axis, key: &str) -> (r: Owner)
    ensures
        r@ == row_owner(owners.deep_view(), axis, key@),
{
    let ghost all = owners.deep_view();
    let mut n: usize = owners.len();
    assert(all.take(n as int) =~= all);
    while n > 0
        invariant
            n <= owners.len(),
            all == owners.deep_view(),
            registered(all, key@) == registered(all.take(n as int), key@),
        decreases n,
    {
        assert(all.take(n as int).last() == owners@[n - 1]@);
        assert(all.take(n as int).drop_last() =~= all.take(n - 1));
        if same(owners[n - 1].key.as_str(), key) {
            return owners[n - 1].copy();
        }
        n = n - 1;
    }
    owner_from_key(axis, key)
}

/// Whether `f` is the footprint of its owner.
pub open spec fn is_footprint(
    f: FootprintView,
    s: Seq<AccountedView>,
    owners: Seq<OwnerView>,
    axis: Axis,
) -> bool {
    let k = f.owner.key;
    &&& f.finding.0 == hash_of(axis.spec_finding_kind(), k)
    &&& f.owner == row_owner(owners, axis, k)
    &&& f.exclusive == exclusive(s, k)
    &&& f.shared == shared(s, k)
    &&& f.reach == reach(s, k)
    &&& f.baseline_share == baseline_share(s, k)
    &&& f.clone_note == reaches_clone(s, k)
    &&& is_breakdown(f.groups, s, k)
    &&& f.worktrees.len() == 0
    &&& f.processes.len() == 0
    &&& f.ports.len() == 0
}

/// Footprints are shown by falling exclusive size; of equal ones the key that comes first.
pub open spec fn footprint_before(a: FootprintView, b: FootprintView) -> bool {
    a.exclusive > b.exclusive || (a.exclusive == b.exclusive && chars_lt(a.owner.key, b.owner.key))
}

/// Put a row into its place among rows whose keys come before its own; returns the place.
fn insert_row(rows: &mut Vec<Footprint>, f: Footprint) -> (r: usize)
    requires
        forall|i: int, j: int|
            0 <= i < j < old(rows).len() ==> footprint_before(
                #[trigger] old(rows).deep_view()[i],
                #[trigger] old(rows).deep_view()[j],
            ),
        forall|i: int|
            0 <= i < old(rows).len() ==> chars_lt(
                (#[trigger] old(rows).deep_view()[i]).owner.key,
                f@.owner.key,
            ),
    ensures
        r <= old(rows).len(),
        final(rows).deep_view() == old(rows).deep_view().insert(r as int, f@),
        forall|i: int, j: int|
            0 <= i < j < final(rows).len() ==> footprint_before(
                #[trigger] final(rows).deep_view()[i],
                #[trigger] final(rows).deep_view()[j],
            ),
{
    let ghost was = rows.deep_view();
    let ghost fv = f@;
    let mut i: usize = 0;
    while i < rows.len() && rows[i].exclusive >= f.exclusive
        invariant
            i <= rows.len(),
            was == rows.deep_view(),
            fv == f@,
            forall|j: int| 0 <= j < i ==> (#[trigger] was[j]).exclusive >= fv.exclusive,
        decreases rows.len() - i,
    {
        assert(was[i as int] == rows@[i as int]@);
        i = i + 1;
    }
    proof {
        if i < rows.len() {
            assert(was[i as int] == rows@[i as int]@);
        }
    }
    rows.insert(i, f);
    proof {
        let now = rows.deep_view();
        assert(now =~= was.insert(i as int, fv));
        assert forall|a: int, b: int| 0 <= a < b < now.len() implies footprint_before(
            #[trigger] now[a],
            #[trigger] now[b],
        ) by {
            let a0 = if a < i {
                a
            } else {
                a - 1
            };
            let b0 = if b < i {
                b
            } else {
                b - 1
            };
            if a == i {
                assert(now[b] == was[b0]);
                if b0 > i {
                    assert(footprint_before(was[i as int], was[b0]));
                }
            } else if b == i {
                assert(now[a] == was[a0]);
            } else {
                assert(now[a] == was[a0] && now[b] == was[b0]);
            }
        }
    }
    i
}

/// The footprint of one row.
fn footprint_for(acc: &Vec<Accounted>, key: &str, owners: &Vec<Owner>, axis: Axis) -> (r: Footprint)
    requires
        in_order(*acc),
        entry_sum(acc.deep_view()) <= u64::MAX,
    ensures
        is_footprint(r@, acc.deep_view(), owners.deep_view(), axis),
        r@.owner.key == key@,
{
    let t = totals(acc, key);
    let groups = groups_for(acc, key);
    let owner = find_owner(owners, axis, key);
    proof {
        lemma_row_owner_key(owners.deep_view(), axis, key@);
    }
    Footprint {
        finding: FindingId::new(axis.finding_kind(), key),
        owner,
        exclusive: t.exclusive,
        shared: t.shared,
        reach: t.reach,
        baseline_share: t.baseline_share,
        groups,
        worktrees: Vec::new(),
        processes: Vec::new(),
        ports: Vec::new(),
        clone_note: t.clone_note,
    }
}

/// Each row is the footprint of its owner, which is one of `ks`.
#[verifier::opaque]
spec fn rows_fit(
    rows: Seq<FootprintView>,
    s: Seq<AccountedView>,
    owners: Seq<OwnerView>,
    axis: Axis,
    ks: Seq<Seq<char>>,
) -> bool {
    forall|i: int|
        0 <= i < rows.len() ==> is_footprint(#[trigger] rows[i], s, owners, axis) && ks.contains(
            rows[i].owner.key,
        )
}

/// Each of `ks` has a row.
#[verifier::opaque]
spec fn rows_cover(rows: Seq<FootprintView>, ks: Seq<Seq<char>>) -> bool {
    forall|m: int|
        0 <= m < ks.len() ==> exists|i: int|
            0 <= i < rows.len() && (#[trigger] rows[i]).owner.key == #[trigger] ks[m]
}

proof fn lemma_rows_grow(
    rows: Seq<FootprintView>,
    f: FootprintView,
    i: int,
    s: Seq<AccountedView>,
    owners: Seq<OwnerView>,
    axis: Axis,
    ks: Seq<Seq<char>>,
)
    requires
        rows_fit(rows, s, owners, axis, ks),
        rows_cover(rows, ks),
        is_footprint(f, s, owners, axis),
        0 <= i <= rows.len(),
    ensures
        rows_fit(rows.insert(i, f), s, owners, axis, ks.push(f.owner.key)),
        rows_cover(rows.insert(i, f), ks.push(f.owner.key)),
{
    reveal(rows_fit);
    reveal(rows_cover);
    let now = rows.insert(i, f);
    let kn = ks.push(f.owner.key);
    assert forall|j: int| 0 <= j < now.len() implies is_footprint(
        #[trigger] now[j],
        s,
        owners,
        axis,
    ) && kn.contains(now[j].owner.key) by {
        if j == i {
            assert(kn[ks.len() as int] == now[j].owner.key);
        } else {
            let j0 = if j < i {
                j
            } else {
                j - 1
            };
            assert(now[j] == rows[j0]);
            let m = choose|m: int| 0 <= m < ks.len() && ks[m] == rows[j0].owner.key;
            assert(kn[m] == now[j].owner.key);
        }
    }
    assert forall|m: int| 0 <= m < kn.len() implies exists|j: int|
        0 <= j < now.len() && (#[trigger] now[j]).owner.key == #[trigger] kn[m] by {
        if m == ks.len() {
            assert(now[i].owner.key == kn[m]);
        } else {
            assert(ks[m] == kn[m]);
            let j = choose|j: int| 0 <= j < rows.len() && (#[trigger] rows[j]).owner.key == ks[m];
            if j < i {
                assert(now[j].owner.key == kn[m]);
            } else {
                assert(now[j + 1].owner.key == kn[m]);
            }
        }
    }
}

/// The footprints of all rows, in order.
fn footprints_for(
    acc: &Vec<Accounted>,
    keys: &Vec<String>,
    owners: &Vec<Owner>,
    axis: Axis,
) -> (r: Vec<Footprint>)
    requires
        in_order(*acc),
        entry_sum(acc.deep_view()) <= u64::MAX,
        sorted_keys(keys.deep_view()),
    ensures
        forall|i: int, j: int|
            0 <= i < j < r.len() ==> footprint_before(
                #[trigger] r.deep_view()[i],
                #[trigger] r.deep_view()[j],
            ),
        forall|i: int|
            0 <= i < r.len() ==> is_footprint(
                #[trigger] r.deep_view()[i],
                acc.deep_view(),
                owners.deep_view(),
                axis,
            ) && keys.deep_view().contains(r.deep_view()[i].owner.key),
        forall|k: Seq<char>| #[trigger]
            keys.deep_view().contains(k) ==> exists|i: int|
                0 <= i < r.len() && (#[trigger] r.deep_view()[i]).owner.key == k,
{
    let ghost all = acc.deep_view();
    let ghost os = owners.deep_view();
    let ghost ks = keys.deep_view();
    let mut out: Vec<Footprint> = Vec::new();
    let mut n: usize = 0;
    proof {
        reveal(rows_fit);
        reveal(rows_cover);
    }
    while n < keys.len()
        invariant
            n <= keys.len(),
            all == acc.deep_view(),
            os == owners.deep_view(),
            ks == keys.deep_view(),
            in_order(*acc),
            entry_sum(all) <= u64::MAX,
            sorted_keys(ks),
            forall|i: int, j: int|
                0 <= i < j < out.len() ==> footprint_before(
                    #[trigger] out.deep_view()[i],
                    #[trigger] out.deep_view()[j],
                ),
            rows_fit(out.deep_view(), all, os, axis, ks.take(n as int)),
            rows_cover(out.deep_view(), ks.take(n as int)),
        decreases keys.len() - n,
    {
        let ghost was = out.deep_view();
        let key = keys[n].as_str();
        assert(ks[n as int] == key@);
        let f = footprint_for(acc, key, owners, axis);
        let ghost fv = f@;
        proof {
            assert forall|i: int| 0 <= i < was.len() implies chars_lt(
                (#[trigger] was[i]).owner.key,
                fv.owner.key,
            ) by {
                reveal(rows_fit);
                let x = was[i].owner.key;
                assert(ks.take(n as int).contains(x));
                let m = choose|m: int| 0 <= m < n && ks.take(n as int)[m] == x;
                assert(ks[m] == x);
                assert(chars_lt(ks[m], ks[n as int]));
            }
        }
        let i = insert_row(&mut out, f);
        proof {
            lemma_rows_grow(was, fv, i as int, all, os, axis, ks.take(n as int));
            assert(ks.take(n + 1) =~= ks.take(n as int).push(fv.owner.key));
        }
        n = n + 1;
    }
    proof {
        assert(ks.take(n as int) =~= ks);
        reveal(rows_fit);
        reveal(rows_cover);
        assert forall|k: Seq<char>| #[trigger] ks.contains(k) implies exists|i: int|
            0 <= i < out.len() && (#[trigger] out.deep_view()[i]).owner.key == k by {
            let m = choose|m: int| 0 <= m < ks.len() && ks[m] == k;
            assert(ks[m] == k);
        }
    }
    out
}

/// Whether `s` lists the canonical paths of the claims, each once, in order.
pub open spec fn lists_paths(claims: Seq<ClaimView>, s: Seq<Seq<Seq<char>>>) -> bool {
    &&& sorted_paths(s)
    &&& forall|p: Seq<Seq<char>>| #[trigger] s.contains(p) <==> claims_at(claims, p).len() > 0
}

/// Sorted paths with one more, unless it is among them.
pub open spec fn with_path(s: Seq<Seq<Seq<char>>>, p: Seq<Seq<char>>) -> Seq<Seq<Seq<char>>>
    decreases s.len(),
{
    if s.len() == 0 {
        seq![p]
    } else if s.last() == p {
        s
    } else if path_lt(s.last(), p) {
        s.push(p)
    } else {
        with_path(s.drop_last(), p).push(s.last())
    }
}

/// The canonical paths of the claims, each once, in order.
pub open spec fn claimed_paths(claims: Seq<ClaimView>) -> Seq<Seq<Seq<char>>>
    decreases claims.len(),
{
    if claims.len() == 0 {
        seq![]
    } else {
        with_path(claimed_paths(claims.drop_last()), canonical(claims.last().path))
    }
}

/// A path put into a list in rising order.
pub proof fn lemma_with_path(s: Seq<Seq<Seq<char>>>, p: Seq<Seq<char>>)
    requires
        sorted_paths(s),
    ensures
        sorted_paths(with_path(s, p)),
        forall|q: Seq<Seq<char>>| #[trigger]
            with_path(s, p).contains(q) <==> s.contains(q) || q == p,
    decreases s.len(),
{
    let t = with_path(s, p);
    if s.len() == 0 {
        assert(t[0] == p);
    } else if s.last() == p {
        assert(s[s.len() - 1] == p);
    } else if path_lt(s.last(), p) {
        assert forall|i: int, j: int| 0 <= i < j < t.len() implies path_lt(
            #[trigger] t[i],
            #[trigger] t[j],
        ) by {
            if j < s.len() {
                assert(path_lt(s[i], s[j]));
            } else if i < s.len() - 1 {
                assert(path_lt(s[i], s[s.len() - 1]));
                lemma_path_lt_transitive(s[i], s.last(), p);
            }
        }
        assert forall|q: Seq<Seq<char>>| #[trigger] t.contains(q) <==> s.contains(q) || q == p by {
            if s.contains(q) {
                let i = choose|i: int| 0 <= i < s.len() && s[i] == q;
                assert(t[i] == q);
            }
            assert(t[s.len() as int] == p);
        }
    } else {
        let front = s.drop_last();
        let u = with_path(front, p);
        let last = s.last();
        assert(sorted_paths(front)) by {
            assert forall|i: int, j: int| 0 <= i < j < front.len() implies path_lt(
                #[trigger] front[i],
                #[trigger] front[j],
            ) by {
                assert(path_lt(s[i], s[j]));
            }
        }
        lemma_with_path(front, p);
        lemma_path_lt_total(last, p);
        assert forall|i: int, j: int| 0 <= i < j < t.len() implies path_lt(
            #[trigger] t[i],
            #[trigger] t[j],
        ) by {
            if j < u.len() {
                assert(path_lt(u[i], u[j]));
            } else {
                assert(u.contains(u[i]));
                if u[i] != p {
                    let k = choose|k: int| 0 <= k < front.len() && front[k] == u[i];
                    assert(path_lt(s[k], s[s.len() - 1]));
                }
            }
        }
        assert forall|q: Seq<Seq<char>>| #[trigger] t.contains(q) <==> s.contains(q) || q == p by {
            if t.contains(q) {
                let i = choose|i: int| 0 <= i < t.len() && t[i] == q;
                if i < u.len() {
                    assert(u.contains(u[i]));
                    if q != p {
                        let k = choose|k: int| 0 <= k < front.len() && front[k] == q;
                        assert(s[k] == q);
                    }
                } else {
                    assert(s[s.len() - 1] == q);
                }
            }
            if s.contains(q) {
                let i = choose|i: int| 0 <= i < s.len() && s[i] == q;
                if i < front.len() {
                    assert(front[i] == q);
                    assert(u.contains(q));
                    let k = choose|k: int| 0 <= k < u.len() && u[k] == q;
                    assert(t[k] == q);
                } else {
                    assert(t[u.len() as int] == q);
                }
            }
            assert(u.contains(p));
            let k = choose|k: int| 0 <= k < u.len() && u[k] == p;
            assert(t[k] == p);
        }
    }
}

/// The claimed paths are sorted, and they are the paths that a claim is on.
pub proof fn lemma_claimed_paths(claims: Seq<ClaimView>)
    ensures
        lists_paths(claims, claimed_paths(claims)),
    decreases claims.len(),
{
    if claims.len() > 0 {
        let rest = claims.drop_last();
        lemma_claimed_paths(rest);
        lemma_with_path(claimed_paths(rest), canonical(claims.last().path));
        assert forall|p: Seq<Seq<char>>| #[trigger]
            claimed_paths(claims).contains(p) <==> claims_at(claims, p).len() > 0 by {
            reveal(Seq::filter);
            assert(claimed_paths(rest).contains(p) <==> claims_at(rest, p).len() > 0);
        }
    } else {
        assert forall|p: Seq<Seq<char>>| #[trigger]
            claimed_paths(claims).contains(p) <==> claims_at(claims, p).len() > 0 by {
            reveal(Seq::filter);
        }
    }
}

proof fn lemma_claimed_paths_are(claims: Seq<ClaimView>, s: Seq<Seq<Seq<char>>>)
    requires
        lists_paths(claims, s),
    ensures
        claimed_paths(claims) == s,
{
    let t = claimed_paths(claims);
    lemma_claimed_paths(claims);
    assert forall|p: Seq<Seq<char>>| #[trigger] t.contains(p) <==> s.contains(p) by {
        assert(claims_at(claims, p).len() > 0 <==> t.contains(p));
    }
    lemma_sorted_paths_unique(t, s);
}

/// The entries of the claims, in path order, before nesting.
pub open spec fn raw_entries(
    claims: Seq<ClaimView>,
    trees: Seq<TreeView>,
    disk: DiskView,
) -> Seq<EntryView> {
    let paths = claimed_paths(claims);
    Seq::new(
        paths.len(),
        |i: int| entry_of(paths[i], dedup(claims_at(claims, paths[i])), trees, disk),
    )
}

/// The owners among whom a baseline entry on `p` is divided; of no other entry any.
pub open spec fn sharers(claims: Seq<ClaimView>, baseline: bool, p: Seq<Seq<char>>) -> Set<
    Seq<char>,
> {
    if baseline {
        universe_of(claims, dedup(claims_at(claims, p)))
    } else {
        Set::empty()
    }
}

/// The entries of the claims, in path order, with what is left of each, and the owners among
/// whom each is divided.
pub open spec fn accounted(
    claims: Seq<ClaimView>,
    trees: Seq<TreeView>,
    disk: DiskView,
) -> Seq<AccountedView> {
    let raw = raw_entries(claims, trees, disk);
    Seq::new(
        raw.len(),
        |i: int|
            AccountedView {
                entry: nested(raw)[i],
                universe: sharers(claims, raw[i].baseline, raw[i].path),
                unowned: unowned_reason(dedup(claims_at(claims, raw[i].path))),
            },
    )
}

/// The bytes of all claimed paths together, before nesting.
pub open spec fn claimed_total(
    claims: Seq<ClaimView>,
    trees: Seq<TreeView>,
    disk: DiskView,
) -> nat {
    let raws = entry_raws(raw_entries(claims, trees, disk));
    raw_sum(raws, raws.len() as int)
}

/// The entries that belong to their ecosystems, in path order.
pub open spec fn common_entries(s: Seq<AccountedView>) -> Seq<EntryView>
    decreases s.len(),
{
    if s.len() == 0 {
        seq![]
    } else if is_common(s.last().entry) {
        common_entries(s.drop_last()).push(s.last().entry)
    } else {
        common_entries(s.drop_last())
    }
}

/// The entries of the paths that a claim says nobody owns, in path order; each gives that claim's
/// evidence as the reason.
pub open spec fn orphan_entries(s: Seq<AccountedView>) -> Seq<EntryView>
    decreases s.len(),
{
    if s.len() == 0 {
        seq![]
    } else if s.last().unowned is Some {
        orphan_entries(s.drop_last()).push(
            EntryView { reason: s.last().unowned, ..s.last().entry },
        )
    } else {
        orphan_entries(s.drop_last())
    }
}

/// Whether `f` holds the rows of all owners, each once, in order.
pub open spec fn are_rows(
    f: Seq<FootprintView>,
    claims: Seq<ClaimView>,
    owners: Seq<OwnerView>,
    axis: Axis,
    s: Seq<AccountedView>,
) -> bool {
    &&& forall|i: int, j: int|
        0 <= i < j < f.len() ==> footprint_before(#[trigger] f[i], #[trigger] f[j])
    &&& forall|i: int|
        0 <= i < f.len() ==> is_footprint(#[trigger] f[i], s, owners, axis) && has_row(
            claims,
            owners,
            f[i].owner.key,
        )
    &&& forall|k: Seq<char>| #[trigger]
        has_row(claims, owners, k) ==> exists|i: int|
            0 <= i < f.len() && (#[trigger] f[i]).owner.key == k
}

/// Whether `r` is what the claims come to.
pub open spec fn is_account(
    r: SetView,
    claims: Seq<ClaimView>,
    owners: Seq<OwnerView>,
    trees: Seq<TreeView>,
    disk: DiskView,
    axis: Axis,
) -> bool {
    let s = accounted(claims, trees, disk);
    &&& r.axis == axis
    &&& r.gen == 0
    &&& are_rows(r.footprints, claims, owners, axis, s)
    &&& r.baseline == common_entries(s)
    &&& r.unattributed == orphan_entries(s)
    &&& r.disk_total == trees_total(trees)
    &&& r.attributed_total == attributed(s)
    &&& r.missing_deps.len() == 0
}

proof fn lemma_entry_sum_bounded(s: Seq<AccountedView>, entries: Seq<EntryView>, n: int)
    requires
        s.len() == entries.len(),
        0 <= n <= s.len(),
        forall|i: int| 0 <= i < s.len() ==> (#[trigger] s[i]).entry == nested(entries)[i],
    ensures
        entry_sum(s.take(n)) <= raw_sum(entry_raws(entries), n),
    decreases n,
{
    if n > 0 {
        lemma_entry_sum_bounded(s, entries, n - 1);
        assert(s.take(n).drop_last() =~= s.take(n - 1));
        assert(s.take(n).last() == s[n - 1]);
        assert(s[n - 1].entry == nested(entries)[n - 1]);
    } else {
        assert(s.take(0) =~= seq![]);
    }
}

/// The accounted entries of the claims.
fn account_entries(claims: &Vec<Claim>, env: &ResolveEnv, disk: &mut Disk) -> (r: Vec<Accounted>)
    requires
        old(disk).wf(),
        claimed_total(claims.deep_view(), env@.trees, old(disk).facts()) <= u64::MAX,
    ensures
        final(disk).asked(*old(disk)),
        final(disk).holds() ==> r.deep_view() == accounted(
            claims.deep_view(),
            env@.trees,
            old(disk)@,
        ),
        in_order(r),
        entry_sum(r.deep_view()) <= claimed_total(
            claims.deep_view(),
            env@.trees,
            old(disk).facts(),
        ),
{
    let ghost cs = claims.deep_view();
    let ghost facts = disk.facts();
    let ghost trees = env@.trees;
    let map = group_claims(claims);
    let ghost paths = map.keys.deep_view();
    proof {
        assert forall|p: Seq<Seq<char>>| #[trigger] paths.contains(p) <==> claims_at(cs, p).len()
            > 0 by {
            assert(map@.contains_key(p) <==> paths.contains(p));
        }
        lemma_claimed_paths_are(cs, paths);
    }
    let ghost raw = raw_entries(cs, trees, facts);
    let ghost truth = raw_entries(cs, trees, disk@);
    let mut sizer = Sizer::new(&env.trees);
    let mut entries: Vec<FootprintEntry> = Vec::new();
    let mut universes: Vec<Vec<String>> = Vec::new();
    let mut reasons: Vec<Option<String>> = Vec::new();
    let mut i: usize = 0;
    while i < map.keys.len()
        invariant
            i <= map.keys.len(),
            cs == claims.deep_view(),
            trees == env@.trees,
            trees == env.trees.deep_view(),
            facts == old(disk).facts(),
            truth == raw_entries(cs, trees, old(disk)@),
            disk.asked(*old(disk)),
            sizer.wf(*disk),
            sizer.trees == &env.trees,
            map.wf(),
            paths == map.keys.deep_view(),
            paths == claimed_paths(cs),
            raw == raw_entries(cs, trees, facts),
            forall|p: Seq<Seq<char>>|
                #![trigger map@.contains_key(p)]
                map@.contains_key(p) <==> claims_at(cs, p).len() > 0,
            forall|p: Seq<Seq<char>>| #[trigger]
                map@.contains_key(p) ==> map@[p] == claims_at(cs, p),
            entries.len() == i,
            universes.len() == i,
            reasons.len() == i,
            forall|j: int| 0 <= j < i ==> (#[trigger] entries@[j])@ == raw[j],
            disk.holds() ==> forall|j: int| 0 <= j < i ==> (#[trigger] entries@[j])@ == truth[j],
            forall|j: int|
                0 <= j < i ==> (#[trigger] reasons@[j]).deep_view() == unowned_reason(
                    dedup(claims_at(cs, raw[j].path)),
                ),
            forall|j: int|
                0 <= j < i ==> sorted_keys((#[trigger] universes@[j]).deep_view())
                    && universes@[j].deep_view().to_set() == sharers(
                    cs,
                    raw[j].baseline,
                    raw[j].path,
                ),
        decreases map.keys.len() - i,
    {
        let ghost p = paths[i as int];
        proof {
            assert(p == map.keys@[i as int]@);
            assert(paths.contains(p));
            assert(map@.contains_key(p));
            crate::pathmap::lemma_sorted_place(paths, i as int, paths.index_of(p));
            assert(map@[p] == map.values.deep_view()[i as int]);
            assert(map.values@[i as int].deep_view() == claims_at(cs, p));
        }
        let counting = dedup_per_owner(&map.values[i]);
        let (entry, ecosystems, reason) = build_entry(map.keys[i].copy(), &counting, &mut sizer, disk);
        assert(entry@ == raw[i as int]);
        assert(disk.holds() ==> entry@ == truth[i as int]);
        let users: Vec<String> = if entry.baseline {
            universe(claims, &ecosystems, Ghost(counting.deep_view()))
        } else {
            let none: Vec<String> = Vec::new();
            assert(none.deep_view().to_set() =~= Set::empty());
            none
        };
        entries.push(entry);
        universes.push(users);
        reasons.push(reason);
        i = i + 1;
    }
    proof {
        assert(entries.deep_view() =~= raw);
        assert(disk.holds() ==> entries.deep_view() =~= truth);
        assert(entry_paths(raw) =~= paths);
    }
    let mut left = nest(entries);
    let mut out: Vec<Accounted> = Vec::new();
    proof {
        assert(left.deep_view() == nested(raw));
    }
    let n = left.len();
    let ghost want = accounted(cs, trees, facts);
    proof {
        assert(nested(raw).len() == n);
        assert(universes.len() == n);
        assert(reasons.len() == n);
    }
    let mut m: usize = n;
    // Taken from the back, and put in front of what is there.
    while m > 0
        invariant
            m <= n,
            left.len() == m,
            universes.len() == m,
            reasons.len() == m,
            n == raw.len(),
            want == accounted(cs, trees, facts),
            raw == raw_entries(cs, trees, facts),
            left.deep_view() == nested(raw).take(m as int),
            forall|j: int|
                0 <= j < m ==> sorted_keys((#[trigger] universes@[j]).deep_view())
                    && universes@[j].deep_view().to_set() == sharers(
                    cs,
                    raw[j].baseline,
                    raw[j].path,
                ),
            forall|j: int|
                0 <= j < m ==> (#[trigger] reasons@[j]).deep_view() == unowned_reason(
                    dedup(claims_at(cs, raw[j].path)),
                ),
            out.len() == n - m,
            forall|j: int|
                0 <= j < out.len() ==> (#[trigger] out@[j]).deep_view() == want[n - 1 - j],
            forall|j: int|
                0 <= j < out.len() ==> sorted_keys((#[trigger] out@[j]).universe.deep_view()),
        decreases m,
    {
        let ghost before = left.deep_view();
        let entry = left.pop();
        let users = universes.pop();
        let reason = reasons.pop();
        if let (Some(entry), Some(users), Some(unowned)) = (entry, users, reason) {
            proof {
                assert(before[m - 1] == entry@);
                assert(nested(raw)[m - 1] == entry@);
                assert(left.deep_view() =~= nested(raw).take(m - 1));
            }
            out.push(Accounted { entry, universe: users, unowned });
        }
        m = m - 1;
    }
    reverse(&mut out);
    proof {
        let s = out.deep_view();
        assert(s =~= want);
        assert forall|i: int, j: int| 0 <= i < j < s.len() implies path_lt(
            (#[trigger] s[i]).entry.path,
            (#[trigger] s[j]).entry.path,
        ) by {
            assert(s[i].entry.path == paths[i] && s[j].entry.path == paths[j]);
        }
        lemma_entry_sum_bounded(s, raw, s.len() as int);
        assert(s.take(s.len() as int) =~= s);
    }
    out
}

/// Turn a list round.
fn reverse(v: &mut Vec<Accounted>)
    ensures
        final(v)@ == old(v)@.reverse(),
{
    let n = v.len();
    let mut out: Vec<Accounted> = Vec::new();
    let ghost all = v@;
    let mut i: usize = 0;
    while i < n
        invariant
            i <= n,
            n == all.len(),
            v@ == all.take(n - i),
            out@ == all.reverse().take(i as int),
        decreases n - i,
    {
        if let Some(x) = v.pop() {
            out.push(x);
            assert(v@ =~= all.take(n - i - 1));
            assert(out@ =~= all.reverse().take(i + 1));
        }
        i = i + 1;
    }
    assert(all.reverse().take(n as int) =~= all.reverse());
    *v = out;
}

/// Account for the claims: one footprint for each owner that claims something or is registered,
/// and the entries that belong to ecosystems or to nobody.
pub fn account(
    claims: Vec<Claim>,
    owners: &Vec<Owner>,
    env: &ResolveEnv,
    disk: &mut Disk,
    axis: Axis,
) -> (r: FootprintSet)
    requires
        old(disk).wf(),
        claimed_total(claims.deep_view(), env@.trees, old(disk).facts()) <= u64::MAX,
        trees_total(env@.trees) <= u64::MAX,
    ensures
        final(disk).asked(*old(disk)),
        final(disk).holds() ==> is_account(
            r@,
            claims.deep_view(),
            owners.deep_view(),
            env@.trees,
            old(disk)@,
            axis,
        ),
{
    let keys = row_keys(&claims, owners);
    let acc = account_entries(&claims, env, disk);
    let footprints = footprints_for(&acc, &keys, owners, axis);
    let ghost all = acc.deep_view();
    let mut baseline: Vec<FootprintEntry> = Vec::new();
    let mut unattributed: Vec<FootprintEntry> = Vec::new();
    let mut attributed_total: u64 = 0;
    let mut i: usize = 0;
    assert(baseline.deep_view() =~= common_entries(all.take(0)));
    assert(unattributed.deep_view() =~= orphan_entries(all.take(0)));
    while i < acc.len()
        invariant
            i <= acc.len(),
            all == acc.deep_view(),
            entry_sum(all) <= u64::MAX,
            baseline.deep_view() == common_entries(all.take(i as int)),
            unattributed.deep_view() == orphan_entries(all.take(i as int)),
            attributed_total == attributed(all.take(i as int)),
        decreases acc.len() - i,
    {
        let a = &acc[i];
        proof {
            assert(all[i as int] == acc@[i as int].deep_view());
            let next = all.take(i + 1);
            assert(next.drop_last() =~= all.take(i as int));
            assert(next.last() == all[i as int]);
            lemma_numbers_bounded(next, seq![], EntryKind::Other);
            lemma_sum_prefix(all, |a: AccountedView| a.entry.bytes as nat, i + 1);
        }
        if !a.entry.virtual_bytes {
            attributed_total = attributed_total + a.entry.bytes;
        }
        if let Some(reason) = &a.unowned {
            let ghost was = unattributed.deep_view();
            let mut e = a.entry.copy();
            e.reason = Some(reason.clone());
            unattributed.push(e);
            assert(unattributed.deep_view() =~= was.push(e@));
        }
        if !orphan(&a.entry) && a.entry.baseline {
            let ghost was = baseline.deep_view();
            let e = a.entry.copy();
            baseline.push(e);
            assert(baseline.deep_view() =~= was.push(e@));
        }
        i = i + 1;
    }
    assert(all.take(i as int) =~= all);
    let set = FootprintSet {
        axis,
        gen: 0,
        footprints,
        baseline,
        unattributed,
        disk_total: disk_total(&env.trees),
        attributed_total,
        missing_deps: Vec::new(),
    };
    proof {
        let ks = keys.deep_view();
        let f = set@.footprints;
        assert forall|k: Seq<char>| #[trigger] has_row(
            claims.deep_view(),
            owners.deep_view(),
            k,
        ) implies exists|i: int| 0 <= i < f.len() && (#[trigger] f[i]).owner.key == k by {
            assert(ks.contains(k));
        }
    }
    set
}

/// Whether the bytes of all claimed paths together fit a number.
fn claims_fit(claims: &Vec<Claim>, env: &ResolveEnv, disk: &mut Disk) -> (r: bool)
    requires
        old(disk).wf(),
    ensures
        final(disk).asked(*old(disk)),
        r == (claimed_total(claims.deep_view(), env@.trees, old(disk).facts()) <= u64::MAX),
        final(disk).holds() ==> r == (claimed_total(claims.deep_view(), env@.trees, old(disk)@)
            <= u64::MAX),
{
    let ghost cs = claims.deep_view();
    let ghost facts = disk.facts();
    let ghost trees = env@.trees;
    let map = group_claims(claims);
    let ghost paths = map.keys.deep_view();
    proof {
        assert forall|p: Seq<Seq<char>>| #[trigger] paths.contains(p) <==> claims_at(cs, p).len()
            > 0 by {
            assert(map@.contains_key(p) <==> paths.contains(p));
        }
        lemma_claimed_paths_are(cs, paths);
    }
    let ghost raw = raw_entries(cs, trees, facts);
    let ghost raws = entry_raws(raw);
    let ghost truth = entry_raws(raw_entries(cs, trees, disk@));
    let mut sizer = Sizer::new(&env.trees);
    let mut total: u64 = 0;
    let mut i: usize = 0;
    while i < map.keys.len()
        invariant
            i <= map.keys.len(),
            cs == claims.deep_view(),
            trees == env@.trees,
            trees == env.trees.deep_view(),
            facts == old(disk).facts(),
            truth == entry_raws(raw_entries(cs, trees, old(disk)@)),
            disk.asked(*old(disk)),
            sizer.wf(*disk),
            sizer.trees == &env.trees,
            map.wf(),
            paths == map.keys.deep_view(),
            paths == claimed_paths(cs),
            raw == raw_entries(cs, trees, facts),
            raws == entry_raws(raw),
            raws.len() == map.keys.len(),
            forall|p: Seq<Seq<char>>|
                #![trigger map@.contains_key(p)]
                map@.contains_key(p) <==> claims_at(cs, p).len() > 0,
            forall|p: Seq<Seq<char>>| #[trigger]
                map@.contains_key(p) ==> map@[p] == claims_at(cs, p),
            total == raw_sum(raws, i as int),
            truth.len() == raws.len(),
            disk.holds() ==> total == raw_sum(truth, i as int),
        decreases map.keys.len() - i,
    {
        let ghost p = paths[i as int];
        proof {
            assert(p == map.keys@[i as int]@);
            assert(paths.contains(p));
            assert(map@.contains_key(p));
            crate::pathmap::lemma_sorted_place(paths, i as int, paths.index_of(p));
            assert(map@[p] == map.values.deep_view()[i as int]);
            assert(map.values@[i as int].deep_view() == claims_at(cs, p));
            lemma_raw_sum_grows(raws, i + 1, raws.len() as int);
            lemma_raw_sum_grows(truth, i + 1, truth.len() as int);
        }
        let counting = dedup_per_owner(&map.values[i]);
        let (entry, _, _) = build_entry(map.keys[i].copy(), &counting, &mut sizer, disk);
        assert(entry@ == raw[i as int]);
        assert(raws[i as int] == entry@.raw_bytes);
        assert(disk.holds() ==> truth[i as int] == entry@.raw_bytes);
        if entry.raw_bytes > u64::MAX - total {
            return false;
        }
        total = total + entry.raw_bytes;
        i = i + 1;
    }
    true
}

/// The account of the claims, unless the bytes of all claimed paths, or those of all walked trees,
/// are too many for a number.
pub fn account_if_it_fits(
    claims: Vec<Claim>,
    owners: &Vec<Owner>,
    env: &ResolveEnv,
    disk: &mut Disk,
    axis: Axis,
) -> (r: Option<FootprintSet>)
    requires
        old(disk).wf(),
    ensures
        final(disk).asked(*old(disk)),
        r is Some <==> claimed_total(claims.deep_view(), env@.trees, old(disk).facts()) <= u64::MAX
            && trees_total(env@.trees) <= u64::MAX,
        final(disk).holds() ==> (r is Some <==> claimed_total(
            claims.deep_view(),
            env@.trees,
            old(disk)@,
        ) <= u64::MAX && trees_total(env@.trees) <= u64::MAX),
        r is Some && final(disk).holds() ==> is_account(
            r->0@,
            claims.deep_view(),
            owners.deep_view(),
            env@.trees,
            old(disk)@,
            axis,
        ),
{
    if claims_fit(&claims, env, disk) && trees_fit(&env.trees) {
        Some(account(claims, owners, env, disk, axis))
    } else {
        None
    }
}

} // verus!
