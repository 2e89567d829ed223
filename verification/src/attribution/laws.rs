//! What holds of every account.

use vstd::prelude::*;

use crate::attribution::accounting::{
    accounted, are_rows, attributed, baseline_part, baseline_share, children_sum, claimed_paths,
    claims_at, dedup, entry_paths, entry_raws, entry_sum, exclusive, exclusive_part,
    footprint_before, has_row, is_account, is_least, is_orphan, is_parent, is_sentinel,
    lemma_claimed_paths, listed_owners, nested, on_path, orphan_entries, own_bytes, own_part,
    owned_by, part, raw_entries, reach, reach_part, real_owners, real_part, shared, shared_part,
    unowned_reason, upsert, AccountedView,
};
use crate::attribution::model::{
    tier_rank, Axis, ClaimView, EntryView, FootprintView, OwnerView, SetView, BASELINE_OWNER,
    UNATTRIBUTED_OWNER,
};
use crate::attribution::paths::canonical;
use crate::disk::DiskView;
use crate::fspath::{below, lemma_under_chain, lemma_under_transitive, under};
use crate::order::{chars_lt, lemma_chars_lt_irreflexive, lemma_chars_lt_total, sorted_keys};
use crate::pathmap::{lemma_sorted_place, sorted_paths};
use crate::scan::TreeView;

verus! {

/// The sum of `values` over those of the first `n` paths that are `paths[i]` or below it.
pub open spec fn subtree_sum(
    paths: Seq<Seq<Seq<char>>>,
    values: Seq<u64>,
    i: int,
    n: int,
) -> nat
    decreases n,
{
    if n <= 0 {
        0
    } else {
        subtree_sum(paths, values, i, n - 1) + if under(paths[n - 1], paths[i]) {
            values[n - 1] as nat
        } else {
            0
        }
    }
}

/// The bytes of entries.
pub open spec fn entry_bytes(entries: Seq<EntryView>) -> Seq<u64> {
    Seq::new(entries.len(), |i: int| entries[i].bytes)
}

/// The sum of `values` over those of the first `n` paths that are strictly below `paths[i]`.
spec fn below_sum(paths: Seq<Seq<Seq<char>>>, values: Seq<u64>, i: int, n: int) -> nat
    decreases n,
{
    if n <= 0 {
        0
    } else {
        below_sum(paths, values, i, n - 1) + if below(paths[n - 1], paths[i]) {
            values[n - 1] as nat
        } else {
            0
        }
    }
}

/// What the first `m` paths take off the first `n` paths at or below `paths[i]`.
spec fn taken_off(paths: Seq<Seq<Seq<char>>>, raws: Seq<u64>, i: int, n: int, m: int) -> nat
    decreases n,
{
    if n <= 0 {
        0
    } else {
        taken_off(paths, raws, i, n - 1, m) + if under(paths[n - 1], paths[i]) {
            children_sum(paths, raws, n - 1, m)
        } else {
            0
        }
    }
}

/// What path `c` is taken off, of the first `n` paths at or below `paths[i]`.
spec fn taken_by(paths: Seq<Seq<Seq<char>>>, raws: Seq<u64>, i: int, n: int, c: int) -> nat
    decreases n,
{
    if n <= 0 {
        0
    } else {
        taken_by(paths, raws, i, n - 1, c) + if under(paths[n - 1], paths[i]) && is_parent(
            paths,
            n - 1,
            c,
        ) {
            raws[c] as nat
        } else {
            0
        }
    }
}

/// A path below another has a nearest path above it, which is at or below that other one.
proof fn lemma_parent_exists(paths: Seq<Seq<Seq<char>>>, c: int, i: int, n: int) -> (q: int)
    requires
        0 <= c < paths.len(),
        0 <= i < n <= paths.len(),
        below(paths[c], paths[i]),
    ensures
        0 <= q < n,
        below(paths[c], paths[q]),
        under(paths[q], paths[i]),
        forall|k: int|
            0 <= k < n && below(paths[c], #[trigger] paths[k]) ==> paths[k].len() <= paths[q].len(),
    decreases n,
{
    if n == i + 1 {
        if i == 0 {
            assert(paths[i].take(paths[i].len() as int) =~= paths[i]);
            i
        } else {
            lemma_parent_from(paths, c, i, i)
        }
    } else {
        let q = lemma_parent_exists(paths, c, i, n - 1);
        if below(paths[c], paths[n - 1]) && paths[n - 1].len() > paths[q].len() {
            lemma_under_chain(paths[c], paths[q], paths[n - 1]);
            lemma_under_transitive(paths[n - 1], paths[q], paths[i]);
            n - 1
        } else {
            q
        }
    }
}

proof fn lemma_parent_from(paths: Seq<Seq<Seq<char>>>, c: int, i: int, n: int) -> (q: int)
    requires
        0 <= c < paths.len(),
        0 <= n <= i < paths.len(),
        below(paths[c], paths[i]),
    ensures
        0 <= q <= i,
        below(paths[c], paths[q]),
        under(paths[q], paths[i]),
        paths[i].len() <= paths[q].len(),
        forall|k: int|
            0 <= k < n && below(paths[c], #[trigger] paths[k]) ==> paths[k].len() <= paths[q].len(),
    decreases n,
{
    if n == 0 {
        assert(paths[i].take(paths[i].len() as int) =~= paths[i]);
        i
    } else {
        let q = lemma_parent_from(paths, c, i, n - 1);
        if below(paths[c], paths[n - 1]) && paths[n - 1].len() > paths[q].len() {
            lemma_under_chain(paths[c], paths[q], paths[n - 1]);
            lemma_under_transitive(paths[n - 1], paths[q], paths[i]);
            n - 1
        } else {
            q
        }
    }
}

proof fn lemma_parents_agree(paths: Seq<Seq<Seq<char>>>, a: int, b: int, c: int)
    requires
        sorted_paths(paths),
        is_parent(paths, a, c),
        is_parent(paths, b, c),
    ensures
        a == b,
{
    assert(paths[a].len() == paths[b].len());
    lemma_under_chain(paths[c], paths[a], paths[b]);
    assert(paths[b].take(paths[a].len() as int) =~= paths[b]);
    lemma_sorted_place(paths, a, b);
}

proof fn lemma_taken_by_one(
    paths: Seq<Seq<Seq<char>>>,
    raws: Seq<u64>,
    i: int,
    n: int,
    c: int,
    q: int,
)
    requires
        sorted_paths(paths),
        0 <= n <= paths.len(),
        is_parent(paths, q, c),
        under(paths[q], paths[i]),
    ensures
        taken_by(paths, raws, i, n, c) == (if q < n {
            raws[c] as nat
        } else {
            0
        }),
    decreases n,
{
    if n > 0 {
        lemma_taken_by_one(paths, raws, i, n - 1, c, q);
        if is_parent(paths, n - 1, c) {
            lemma_parents_agree(paths, n - 1, q, c);
        }
    }
}

proof fn lemma_taken_by_none(paths: Seq<Seq<Seq<char>>>, raws: Seq<u64>, i: int, n: int, c: int)
    requires
        0 <= n <= paths.len(),
        0 <= i < paths.len(),
        0 <= c < paths.len(),
        !below(paths[c], paths[i]),
    ensures
        taken_by(paths, raws, i, n, c) == 0,
    decreases n,
{
    if n > 0 {
        lemma_taken_by_none(paths, raws, i, n - 1, c);
        if under(paths[n - 1], paths[i]) && is_parent(paths, n - 1, c) {
            lemma_under_transitive(paths[c], paths[n - 1], paths[i]);
        }
    }
}

proof fn lemma_taken_off_step(
    paths: Seq<Seq<Seq<char>>>,
    raws: Seq<u64>,
    i: int,
    n: int,
    m: int,
)
    requires
        0 <= m,
    ensures
        taken_off(paths, raws, i, n, m + 1) == taken_off(paths, raws, i, n, m) + taken_by(
            paths,
            raws,
            i,
            n,
            m,
        ),
    decreases n,
{
    if n > 0 {
        lemma_taken_off_step(paths, raws, i, n - 1, m);
    }
}

proof fn lemma_taken_off_zero(paths: Seq<Seq<Seq<char>>>, raws: Seq<u64>, i: int, n: int)
    ensures
        taken_off(paths, raws, i, n, 0) == 0,
    decreases n,
{
    if n > 0 {
        lemma_taken_off_zero(paths, raws, i, n - 1);
    }
}

proof fn lemma_taken_off_is_below(paths: Seq<Seq<Seq<char>>>, raws: Seq<u64>, i: int, m: int)
    requires
        sorted_paths(paths),
        0 <= i < paths.len(),
        0 <= m <= paths.len(),
    ensures
        taken_off(paths, raws, i, paths.len() as int, m) == below_sum(paths, raws, i, m),
    decreases m,
{
    let n = paths.len() as int;
    if m == 0 {
        lemma_taken_off_zero(paths, raws, i, n);
    } else {
        let c = m - 1;
        lemma_taken_off_is_below(paths, raws, i, c);
        lemma_taken_off_step(paths, raws, i, n, c);
        if below(paths[c], paths[i]) {
            let q = lemma_parent_exists(paths, c, i, n);
            assert(is_parent(paths, q, c));
            lemma_taken_by_one(paths, raws, i, n, c, q);
        } else {
            lemma_taken_by_none(paths, raws, i, n, c);
        }
    }
}

proof fn lemma_subtree_is_self_and_below(
    paths: Seq<Seq<Seq<char>>>,
    values: Seq<u64>,
    i: int,
    n: int,
)
    requires
        sorted_paths(paths),
        0 <= i < paths.len(),
        0 <= n <= paths.len(),
    ensures
        subtree_sum(paths, values, i, n) == below_sum(paths, values, i, n) + if i < n {
            values[i] as nat
        } else {
            0
        },
    decreases n,
{
    if n > 0 {
        let p = paths[n - 1];
        lemma_subtree_is_self_and_below(paths, values, i, n - 1);
        if under(p, paths[i]) && p.len() == paths[i].len() {
            assert(p.take(paths[i].len() as int) =~= p);
            lemma_sorted_place(paths, n - 1, i);
        }
        if n - 1 == i {
            assert(p.take(p.len() as int) =~= p);
        }
    }
}

proof fn lemma_left_plus_taken(entries: Seq<EntryView>, i: int, n: int)
    requires
        0 <= i < entries.len(),
        0 <= n <= entries.len(),
        forall|j: int|
            0 <= j < entries.len() && under(#[trigger] entry_paths(entries)[j], entries[i].path)
                ==> children_sum(
                entry_paths(entries),
                entry_raws(entries),
                j,
                entries.len() as int,
            ) <= entries[j].raw_bytes,
    ensures
        subtree_sum(entry_paths(entries), entry_bytes(nested(entries)), i, n) + taken_off(
            entry_paths(entries),
            entry_raws(entries),
            i,
            n,
            entries.len() as int,
        ) == subtree_sum(entry_paths(entries), entry_raws(entries), i, n),
    decreases n,
{
    let paths = entry_paths(entries);
    if n > 0 {
        lemma_left_plus_taken(entries, i, n - 1);
        assert(paths[i] == entries[i].path);
        if under(paths[n - 1], paths[i]) {
            assert(nested(entries)[n - 1].bytes == own_bytes(paths, entry_raws(entries), n - 1));
        }
    }
}

/// The bytes of a claimed path and of everything claimed below it sum up to what the path itself
/// measures: nothing is counted twice and nothing is dropped. It holds wherever no path measures
/// less than the claimed paths directly below it.
pub proof fn law_bytes_of_a_subtree_sum_to_its_raw_bytes(entries: Seq<EntryView>, i: int)
    requires
        sorted_paths(entry_paths(entries)),
        0 <= i < entries.len(),
        forall|j: int|
            0 <= j < entries.len() && under(#[trigger] entry_paths(entries)[j], entries[i].path)
                ==> children_sum(
                entry_paths(entries),
                entry_raws(entries),
                j,
                entries.len() as int,
            ) <= entries[j].raw_bytes,
    ensures
        subtree_sum(
            entry_paths(entries),
            entry_bytes(nested(entries)),
            i,
            entries.len() as int,
        ) == entries[i].raw_bytes,
{
    let paths = entry_paths(entries);
    let raws = entry_raws(entries);
    let n = entries.len() as int;
    lemma_left_plus_taken(entries, i, n);
    lemma_taken_off_is_below(paths, raws, i, n);
    lemma_subtree_is_self_and_below(paths, raws, i, n);
}

/// The sum of the first `m` of `n` parts.
spec fn parts_sum(bytes: u64, n: nat, m: nat) -> nat
    decreases m,
{
    if m == 0 {
        0
    } else {
        parts_sum(bytes, n, (m - 1) as nat) + part(bytes, n, m == 1)
    }
}

proof fn lemma_parts_sum(bytes: u64, n: nat, m: nat)
    requires
        n > 0,
    ensures
        parts_sum(bytes, n, m) == (bytes as nat / n) * m + if m > 0 {
            bytes as nat % n
        } else {
            0
        },
    decreases m,
{
    let b = bytes as nat / n;
    if m > 0 {
        lemma_parts_sum(bytes, n, (m - 1) as nat);
        assert(b * m == b * (m - 1) + b) by (nonlinear_arith)
            requires
                m > 0,
        ;
    } else {
        assert(b * 0 == 0) by (nonlinear_arith);
    }
}

proof fn lemma_parts_are_whole(bytes: u64, n: nat)
    requires
        n > 0,
    ensures
        parts_sum(bytes, n, n) == bytes,
{
    lemma_parts_sum(bytes, n, n);
    vstd::arithmetic::div_mod::lemma_fundamental_div_mod(bytes as int, n as int);
    assert((bytes as nat / n) * n == n * (bytes as nat / n)) by (nonlinear_arith);
}

/// What the first `n` owners of an entry get of it.
pub open spec fn owners_get(a: AccountedView, n: int) -> nat
    decreases n,
{
    if n <= 0 {
        0
    } else {
        owners_get(a, n - 1) + own_part(a, a.entry.owners[n - 1])
    }
}

proof fn lemma_owners_get(a: AccountedView, n: int)
    requires
        a.entry.owners.no_duplicates(),
        a.entry.owners.len() >= 2,
        !a.entry.baseline,
        !a.entry.virtual_bytes,
        0 <= n <= a.entry.owners.len(),
    ensures
        owners_get(a, n) == parts_sum(a.entry.bytes, a.entry.owners.len(), n as nat),
    decreases n,
{
    if n > 0 {
        lemma_owners_get(a, n - 1);
        assert(a.entry.owners.contains(a.entry.owners[n - 1]));
    }
}

/// The shares of an entry that several owners claim sum up to the entry's bytes, to the last
/// byte.
pub proof fn law_shares_of_an_entry_sum_to_its_bytes(a: AccountedView)
    requires
        a.entry.owners.no_duplicates(),
        a.entry.owners.len() >= 2,
        !a.entry.baseline,
        !a.entry.virtual_bytes,
    ensures
        owners_get(a, a.entry.owners.len() as int) == a.entry.bytes,
{
    lemma_owners_get(a, a.entry.owners.len() as int);
    lemma_parts_are_whole(a.entry.bytes, a.entry.owners.len());
}

/// What the first `n` of `users` get of a baseline entry.
pub open spec fn users_get(a: AccountedView, users: Seq<Seq<char>>, n: int) -> nat
    decreases n,
{
    if n <= 0 {
        0
    } else {
        users_get(a, users, n - 1) + baseline_part(a, users[n - 1])
    }
}

proof fn lemma_first_is_least(u: Seq<Seq<char>>, k: Seq<char>)
    requires
        sorted_keys(u),
        u.len() > 0,
    ensures
        u.to_set().len() == u.len(),
        is_least(u.to_set(), k) <==> u[0] == k,
{
    assert(u.no_duplicates()) by {
        assert forall|i: int, j: int| 0 <= i < u.len() && 0 <= j < u.len() && i != j implies u[i]
            != u[j] by {
            lemma_chars_lt_irreflexive(u[i]);
            if i < j {
                assert(chars_lt(u[i], u[j]));
            } else {
                assert(chars_lt(u[j], u[i]));
            }
        }
    }
    u.unique_seq_to_set();
    if u[0] == k {
        assert(u.contains(k));
        assert forall|x: Seq<char>| #[trigger] u.to_set().contains(x) implies x == k || chars_lt(
            k,
            x,
        ) by {
            assert(u.contains(x));
            let n = choose|n: int| 0 <= n < u.len() && u[n] == x;
            if n > 0 {
                assert(chars_lt(u[0], u[n]));
            }
        }
    }
    if is_least(u.to_set(), k) {
        assert(u.contains(k));
        let n = choose|n: int| 0 <= n < u.len() && u[n] == k;
        assert(u.contains(u[0]));
        assert(u.to_set().contains(u[0]));
        if n > 0 {
            assert(chars_lt(u[0], u[n]));
            crate::order::lemma_chars_lt_asymmetric(u[0], u[n]);
        }
    }
}

proof fn lemma_users_get(a: AccountedView, users: Seq<Seq<char>>, n: int)
    requires
        a.entry.baseline,
        !(a.entry.owners.len() == 1 && a.entry.owners[0] == UNATTRIBUTED_OWNER@),
        sorted_keys(users),
        users.len() > 0,
        users.to_set() == a.universe,
        0 <= n <= users.len(),
    ensures
        users_get(a, users, n) == parts_sum(a.entry.bytes, users.len(), n as nat),
    decreases n,
{
    if n > 0 {
        lemma_users_get(a, users, n - 1);
        let k = users[n - 1];
        assert(users.contains(k));
        assert(users.to_set().contains(k));
        lemma_first_is_least(users, k);
        if n > 1 {
            assert(chars_lt(users[0], users[n - 1]));
            lemma_chars_lt_irreflexive(users[0]);
        }
    }
}

/// The shares of a baseline entry among the owners of its ecosystems sum up to the entry's bytes,
/// to the last byte.
pub proof fn law_shares_of_a_baseline_entry_sum_to_its_bytes(
    a: AccountedView,
    users: Seq<Seq<char>>,
)
    requires
        a.entry.baseline,
        !(a.entry.owners.len() == 1 && a.entry.owners[0] == UNATTRIBUTED_OWNER@),
        sorted_keys(users),
        users.len() > 0,
        users.to_set() == a.universe,
    ensures
        users_get(a, users, users.len() as int) == a.entry.bytes,
{
    lemma_users_get(a, users, users.len() as int);
    lemma_parts_are_whole(a.entry.bytes, users.len());
}

/// A baseline entry whose ecosystems nobody is in is divided among nobody.
pub proof fn law_baseline_without_users_is_not_divided(a: AccountedView, k: Seq<char>)
    requires
        a.universe == Set::<Seq<char>>::empty(),
    ensures
        baseline_part(a, k) == 0,
{
}

/// A clone of a package store is reached by its owner and is never exclusive.
pub proof fn law_clone_is_reached_but_never_exclusive(a: AccountedView, k: Seq<char>)
    requires
        a.entry.clone_of_store,
        owned_by(a.entry, k),
    ensures
        reach_part(a, k) == a.entry.bytes,
        exclusive_part(a, k) == 0,
{
}

/// What takes no room on this disk is in nobody's own bytes, nor in the accounted total.
pub proof fn law_virtual_bytes_are_not_owned(a: AccountedView, k: Seq<char>)
    requires
        a.entry.virtual_bytes,
    ensures
        own_part(a, k) == 0,
        real_part(a) == 0,
{
}

proof fn lemma_part_within(bytes: u64, n: nat, first: bool)
    ensures
        part(bytes, n, first) <= bytes,
{
    if n > 0 {
        let b = bytes as nat;
        vstd::arithmetic::div_mod::lemma_fundamental_div_mod(b as int, n as int);
        assert(b / n <= n * (b / n)) by (nonlinear_arith)
            requires
                n >= 1,
        ;
    }
}

/// An owner's exclusive and shared bytes and its baseline share are all within its reach.
pub proof fn law_reach_covers_every_share(s: Seq<AccountedView>, k: Seq<char>)
    ensures
        exclusive(s, k) + shared(s, k) + baseline_share(s, k) <= reach(s, k),
        reach(s, k) <= entry_sum(s),
    decreases s.len(),
{
    if s.len() > 0 {
        let a = s.last();
        law_reach_covers_every_share(s.drop_last(), k);
        lemma_part_within(a.entry.bytes, a.universe.len(), is_least(a.universe, k));
        lemma_part_within(a.entry.bytes, a.entry.owners.len(), a.entry.owners[0] == k);
        assert(exclusive_part(a, k) + shared_part(a, k) + baseline_part(a, k) <= reach_part(a, k));
    }
}

/// Neither sentinel ever has a row.
pub proof fn law_sentinels_have_no_row(
    f: Seq<FootprintView>,
    claims: Seq<ClaimView>,
    owners: Seq<OwnerView>,
    axis: Axis,
    s: Seq<AccountedView>,
    i: int,
)
    requires
        are_rows(f, claims, owners, axis, s),
        0 <= i < f.len(),
    ensures
        f[i].owner.key != UNATTRIBUTED_OWNER@,
        f[i].owner.key != BASELINE_OWNER@,
{
}

/// One claim for each owner, in owner order.
pub open spec fn one_per_owner(d: Seq<ClaimView>) -> bool {
    forall|i: int, j: int|
        0 <= i < j < d.len() ==> chars_lt((#[trigger] d[i]).owner, (#[trigger] d[j]).owner)
}

/// Whether `d` holds a claim of the same owner as `c` that is at least as sure.
pub open spec fn covers(d: Seq<ClaimView>, c: ClaimView) -> bool {
    exists|i: int|
        0 <= i < d.len() && (#[trigger] d[i]).owner == c.owner && tier_rank(d[i].tier)
            <= tier_rank(c.tier)
}

proof fn lemma_upsert(d: Seq<ClaimView>, c: ClaimView)
    requires
        one_per_owner(d),
    ensures
        one_per_owner(upsert(d, c)),
        covers(upsert(d, c), c),
        forall|x: ClaimView| covers(d, x) ==> #[trigger] covers(upsert(d, c), x),
        forall|i: int|
            0 <= i < upsert(d, c).len() ==> (#[trigger] upsert(d, c)[i]) == c || d.contains(
                upsert(d, c)[i],
            ),
    decreases d.len(),
{
    let u = upsert(d, c);
    if d.len() == 0 {
        assert(u[0] == c);
    } else if d[0].owner == c.owner {
        assert(u[0].owner == c.owner);
        assert forall|x: ClaimView| covers(d, x) implies #[trigger] covers(u, x) by {
            let i = choose|i: int|
                0 <= i < d.len() && (#[trigger] d[i]).owner == x.owner && tier_rank(d[i].tier)
                    <= tier_rank(x.tier);
            assert(u[i].owner == d[i].owner && tier_rank(u[i].tier) <= tier_rank(x.tier));
        }
        assert forall|i: int| 0 <= i < u.len() implies (#[trigger] u[i]) == c || d.contains(u[i]) by {
            if u[i] != c {
                assert(u[i] == d[i]);
            }
        }
        assert forall|i: int, j: int| 0 <= i < j < u.len() implies chars_lt(
            (#[trigger] u[i]).owner,
            (#[trigger] u[j]).owner,
        ) by {
            assert(u[i].owner == d[i].owner && u[j].owner == d[j].owner);
            assert(chars_lt(d[i].owner, d[j].owner));
        }
    } else if chars_lt(c.owner, d[0].owner) {
        assert(u[0] == c);
        assert forall|x: ClaimView| covers(d, x) implies #[trigger] covers(u, x) by {
            let i = choose|i: int|
                0 <= i < d.len() && (#[trigger] d[i]).owner == x.owner && tier_rank(d[i].tier)
                    <= tier_rank(x.tier);
            assert(u[i + 1] == d[i]);
        }
        assert forall|i: int| 0 <= i < u.len() implies (#[trigger] u[i]) == c || d.contains(u[i]) by {
            if i > 0 {
                assert(u[i] == d[i - 1]);
            }
        }
        assert forall|i: int, j: int| 0 <= i < j < u.len() implies chars_lt(
            (#[trigger] u[i]).owner,
            (#[trigger] u[j]).owner,
        ) by {
            assert(u[j] == d[j - 1]);
            if i > 0 {
                assert(u[i] == d[i - 1]);
                assert(chars_lt(d[i - 1].owner, d[j - 1].owner));
            } else if j > 1 {
                assert(chars_lt(d[0].owner, d[j - 1].owner));
                crate::order::lemma_chars_lt_transitive(c.owner, d[0].owner, d[j - 1].owner);
            }
        }
    } else {
        let t = d.skip(1);
        let v = upsert(t, c);
        lemma_chars_lt_total(d[0].owner, c.owner);
        assert(one_per_owner(t)) by {
            assert forall|i: int, j: int| 0 <= i < j < t.len() implies chars_lt(
                (#[trigger] t[i]).owner,
                (#[trigger] t[j]).owner,
            ) by {
                assert(t[i] == d[i + 1] && t[j] == d[j + 1]);
            }
        }
        lemma_upsert(t, c);
        assert(u =~= seq![d[0]] + v);
        let n = choose|i: int|
            0 <= i < v.len() && (#[trigger] v[i]).owner == c.owner && tier_rank(v[i].tier)
                <= tier_rank(c.tier);
        assert(u[n + 1] == v[n]);
        assert forall|x: ClaimView| covers(d, x) implies #[trigger] covers(u, x) by {
            let i = choose|i: int|
                0 <= i < d.len() && (#[trigger] d[i]).owner == x.owner && tier_rank(d[i].tier)
                    <= tier_rank(x.tier);
            if i == 0 {
                assert(u[0] == d[0]);
            } else {
                assert(t[i - 1] == d[i]);
                assert(covers(t, x));
                assert(covers(v, x));
                let j = choose|j: int|
                    0 <= j < v.len() && (#[trigger] v[j]).owner == x.owner && tier_rank(v[j].tier)
                        <= tier_rank(x.tier);
                assert(u[j + 1] == v[j]);
            }
        }
        assert forall|i: int| 0 <= i < u.len() implies (#[trigger] u[i]) == c || d.contains(u[i]) by {
            if i == 0 {
                assert(u[0] == d[0]);
            } else {
                assert(u[i] == v[i - 1]);
                if v[i - 1] != c {
                    assert(t.contains(v[i - 1]));
                    let j = choose|j: int| 0 <= j < t.len() && t[j] == v[i - 1];
                    assert(d[j + 1] == u[i]);
                }
            }
        }
        assert forall|i: int, j: int| 0 <= i < j < u.len() implies chars_lt(
            (#[trigger] u[i]).owner,
            (#[trigger] u[j]).owner,
        ) by {
            assert(u[j] == v[j - 1]);
            if i > 0 {
                assert(u[i] == v[i - 1]);
                assert(chars_lt(v[i - 1].owner, v[j - 1].owner));
            } else {
                assert(u[0] == d[0]);
                if v[j - 1] != c {
                    assert(t.contains(v[j - 1]));
                    let m = choose|m: int| 0 <= m < t.len() && t[m] == v[j - 1];
                    assert(d[m + 1] == v[j - 1]);
                    assert(chars_lt(d[0].owner, d[m + 1].owner));
                }
            }
        }
    }
}

/// Of the claims on one path each owner keeps exactly one: one that it made, and none that it
/// made is surer.
pub proof fn law_dedup_keeps_each_owners_surest_claim(claims: Seq<ClaimView>)
    ensures
        one_per_owner(dedup(claims)),
        forall|i: int| 0 <= i < claims.len() ==> covers(dedup(claims), #[trigger] claims[i]),
        forall|i: int|
            0 <= i < dedup(claims).len() ==> claims.contains(#[trigger] dedup(claims)[i]),
    decreases claims.len(),
{
    if claims.len() > 0 {
        let rest = claims.drop_last();
        let d = dedup(rest);
        law_dedup_keeps_each_owners_surest_claim(rest);
        lemma_upsert(d, claims.last());
        assert forall|i: int| 0 <= i < claims.len() implies covers(
            dedup(claims),
            #[trigger] claims[i],
        ) by {
            if i < rest.len() {
                assert(rest[i] == claims[i]);
                assert(covers(d, rest[i]));
            }
        }
        assert forall|i: int| 0 <= i < dedup(claims).len() implies claims.contains(
            #[trigger] dedup(claims)[i],
        ) by {
            let x = dedup(claims)[i];
            if x == claims.last() {
                assert(claims[claims.len() - 1] == x);
            } else {
                assert(d.contains(x));
                let j = choose|j: int| 0 <= j < d.len() && d[j] == x;
                assert(rest.contains(d[j]));
                let m = choose|m: int| 0 <= m < rest.len() && rest[m] == x;
                assert(claims[m] == x);
            }
        }
    }
}

/// The entries of an account.
pub open spec fn entries_of(s: Seq<AccountedView>) -> Seq<EntryView> {
    Seq::new(s.len(), |i: int| s[i].entry)
}

proof fn lemma_account_is_nested(claims: Seq<ClaimView>, trees: Seq<TreeView>, disk: DiskView)
    ensures
        entries_of(accounted(claims, trees, disk)) == nested(raw_entries(claims, trees, disk)),
        entry_paths(entries_of(accounted(claims, trees, disk))) == entry_paths(
            raw_entries(claims, trees, disk),
        ),
        entry_raws(entries_of(accounted(claims, trees, disk))) == entry_raws(
            raw_entries(claims, trees, disk),
        ),
        sorted_paths(entry_paths(raw_entries(claims, trees, disk))),
{
    let raw = raw_entries(claims, trees, disk);
    let e = entries_of(accounted(claims, trees, disk));
    lemma_claimed_paths(claims);
    assert(e =~= nested(raw));
    assert(entry_paths(e) =~= entry_paths(raw));
    assert(entry_raws(e) =~= entry_raws(raw));
    assert(entry_paths(raw) =~= claimed_paths(claims));
}

/// In every account the bytes of a path and of all accounted paths below it sum up to what the path
/// itself measures. It holds wherever no path there measures less than the accounted paths directly
/// below it.
pub proof fn law_account_counts_each_byte_once(
    claims: Seq<ClaimView>,
    trees: Seq<TreeView>,
    disk: DiskView,
    i: int,
)
    requires
        0 <= i < accounted(claims, trees, disk).len(),
        forall|j: int|
            #![trigger accounted(claims, trees, disk)[j]]
            0 <= j < accounted(claims, trees, disk).len() && under(
                accounted(claims, trees, disk)[j].entry.path,
                accounted(claims, trees, disk)[i].entry.path,
            ) ==> children_sum(
                entry_paths(entries_of(accounted(claims, trees, disk))),
                entry_raws(entries_of(accounted(claims, trees, disk))),
                j,
                accounted(claims, trees, disk).len() as int,
            ) <= accounted(claims, trees, disk)[j].entry.raw_bytes,
    ensures
        subtree_sum(
            entry_paths(entries_of(accounted(claims, trees, disk))),
            entry_bytes(entries_of(accounted(claims, trees, disk))),
            i,
            accounted(claims, trees, disk).len() as int,
        ) == accounted(claims, trees, disk)[i].entry.raw_bytes,
{
    let s = accounted(claims, trees, disk);
    let raw = raw_entries(claims, trees, disk);
    lemma_account_is_nested(claims, trees, disk);
    assert forall|j: int|
        0 <= j < raw.len() && under(#[trigger] entry_paths(raw)[j], raw[i].path) implies children_sum(
        entry_paths(raw),
        entry_raws(raw),
        j,
        raw.len() as int,
    ) <= raw[j].raw_bytes by {
        assert(s[j].entry == nested(raw)[j]);
        assert(s[i].entry == nested(raw)[i]);
    }
    law_bytes_of_a_subtree_sum_to_its_raw_bytes(raw, i);
    assert(s[i].entry == nested(raw)[i]);
}

proof fn lemma_real_owners(d: Seq<ClaimView>)
    requires
        one_per_owner(d),
    ensures
        real_owners(d).no_duplicates(),
        forall|i: int|
            0 <= i < real_owners(d).len() ==> exists|j: int|
                0 <= j < d.len() && (#[trigger] d[j]).owner == #[trigger] real_owners(d)[i],
    decreases d.len(),
{
    if d.len() > 0 {
        let front = d.drop_last();
        let f = real_owners(front);
        let r = real_owners(d);
        assert(one_per_owner(front)) by {
            assert forall|i: int, j: int| 0 <= i < j < front.len() implies chars_lt(
                (#[trigger] front[i]).owner,
                (#[trigger] front[j]).owner,
            ) by {
                assert(chars_lt(d[i].owner, d[j].owner));
            }
        }
        lemma_real_owners(front);
        assert forall|i: int| 0 <= i < r.len() implies exists|j: int|
            0 <= j < d.len() && (#[trigger] d[j]).owner == #[trigger] r[i] by {
            if i < f.len() {
                assert(f[i] == r[i]);
                let j = choose|j: int| 0 <= j < front.len() && (#[trigger] front[j]).owner == f[i];
                assert(d[j].owner == r[i]);
            } else {
                assert(d[d.len() - 1].owner == r[i]);
            }
        }
        assert forall|i: int, j: int| 0 <= i < r.len() && 0 <= j < r.len() && i != j implies r[i]
            != r[j] by {
            let (a, b) = if i < j {
                (i, j)
            } else {
                (j, i)
            };
            if b < f.len() {
                assert(f[a] == r[a] && f[b] == r[b]);
            } else {
                assert(f[a] == r[a]);
                let k = choose|k: int| 0 <= k < front.len() && (#[trigger] front[k]).owner == f[a];
                assert(chars_lt(d[k].owner, d[d.len() - 1].owner));
                lemma_chars_lt_irreflexive(d[k].owner);
            }
        }
    }
}

/// What the first `m` of the keys own of an entry.
pub open spec fn keys_own(a: AccountedView, keys: Seq<Seq<char>>, m: int) -> nat
    decreases m,
{
    if m <= 0 {
        0
    } else {
        keys_own(a, keys, m - 1) + own_part(a, keys[m - 1])
    }
}

/// What `k` owns of an entry, where it is one of its first `n` owners.
spec fn part_among(a: AccountedView, k: Seq<char>, n: int) -> nat {
    if exists|j: int| 0 <= j < n && #[trigger] a.entry.owners[j] == k {
        own_part(a, k)
    } else {
        0
    }
}

spec fn keys_among(a: AccountedView, keys: Seq<Seq<char>>, m: int, n: int) -> nat
    decreases m,
{
    if m <= 0 {
        0
    } else {
        keys_among(a, keys, m - 1, n) + part_among(a, keys[m - 1], n)
    }
}

proof fn lemma_one_more_owner(a: AccountedView, keys: Seq<Seq<char>>, m: int, n: int)
    requires
        keys.no_duplicates(),
        a.entry.owners.no_duplicates(),
        0 <= m <= keys.len(),
        0 < n <= a.entry.owners.len(),
    ensures
        keys_among(a, keys, m, n) == keys_among(a, keys, m, n - 1) + (if exists|i: int|
            0 <= i < m && #[trigger] keys[i] == a.entry.owners[n - 1] {
            own_part(a, a.entry.owners[n - 1])
        } else {
            0
        }),
    decreases m,
{
    if m > 0 {
        lemma_one_more_owner(a, keys, m - 1, n);
        let k = keys[m - 1];
        let o = a.entry.owners[n - 1];
        if k == o {
            assert forall|i: int| 0 <= i < m - 1 implies #[trigger] keys[i] != o by {
                assert(keys[i] != keys[m - 1]);
            }
            assert forall|j: int| 0 <= j < n - 1 implies #[trigger] a.entry.owners[j] != k by {
                assert(a.entry.owners[j] != a.entry.owners[n - 1]);
            }
            assert(a.entry.owners[n - 1] == k);
        } else {
            if exists|j: int| 0 <= j < n - 1 && #[trigger] a.entry.owners[j] == k {
                let j = choose|j: int| 0 <= j < n - 1 && #[trigger] a.entry.owners[j] == k;
                assert(0 <= j < n);
            }
            if exists|j: int| 0 <= j < n && #[trigger] a.entry.owners[j] == k {
                let j = choose|j: int| 0 <= j < n && #[trigger] a.entry.owners[j] == k;
                assert(0 <= j < n - 1);
            }
            if exists|i: int| 0 <= i < m && #[trigger] keys[i] == o {
                let i = choose|i: int| 0 <= i < m && #[trigger] keys[i] == o;
                assert(0 <= i < m - 1);
            }
            if exists|i: int| 0 <= i < m - 1 && #[trigger] keys[i] == o {
                let i = choose|i: int| 0 <= i < m - 1 && #[trigger] keys[i] == o;
                assert(0 <= i < m && keys[i] == o);
            }
        }
    }
}

proof fn lemma_keys_among(a: AccountedView, keys: Seq<Seq<char>>, n: int)
    requires
        keys.no_duplicates(),
        a.entry.owners.no_duplicates(),
        0 <= n <= a.entry.owners.len(),
    ensures
        keys_among(a, keys, keys.len() as int, n) <= owners_get(a, n),
        (forall|j: int| 0 <= j < n ==> keys.contains(#[trigger] a.entry.owners[j])) ==> keys_among(
            a,
            keys,
            keys.len() as int,
            n,
        ) == owners_get(a, n),
    decreases n,
{
    if n > 0 {
        lemma_keys_among(a, keys, n - 1);
        lemma_one_more_owner(a, keys, keys.len() as int, n);
        if forall|j: int| 0 <= j < n ==> keys.contains(#[trigger] a.entry.owners[j]) {
            assert(keys.contains(a.entry.owners[n - 1]));
            let i = choose|i: int| 0 <= i < keys.len() && keys[i] == a.entry.owners[n - 1];
            assert(0 <= i < keys.len() && keys[i] == a.entry.owners[n - 1]);
        }
    } else {
        lemma_nothing_among(a, keys, keys.len() as int);
    }
}

proof fn lemma_nothing_among(a: AccountedView, keys: Seq<Seq<char>>, m: int)
    ensures
        keys_among(a, keys, m, 0) == 0,
    decreases m,
{
    if m > 0 {
        lemma_nothing_among(a, keys, m - 1);
    }
}

proof fn lemma_all_among(a: AccountedView, keys: Seq<Seq<char>>, m: int)
    ensures
        keys_own(a, keys, m) == keys_among(a, keys, m, a.entry.owners.len() as int),
    decreases m,
{
    if m > 0 {
        lemma_all_among(a, keys, m - 1);
        let k = keys[m - 1];
        if owned_by(a.entry, k) {
            let j = choose|j: int| 0 <= j < a.entry.owners.len() && a.entry.owners[j] == k;
            assert(a.entry.owners[j] == k);
        }
    }
}

/// Distinct owners together never own more of an entry than it measures on this disk.
pub proof fn law_owners_of_an_entry_get_no_more_than_it_is(a: AccountedView, keys: Seq<Seq<char>>)
    requires
        a.entry.owners.no_duplicates(),
        keys.no_duplicates(),
    ensures
        keys_own(a, keys, keys.len() as int) <= real_part(a),
{
    let n = a.entry.owners.len() as int;
    lemma_all_among(a, keys, keys.len() as int);
    lemma_keys_among(a, keys, n);
    if a.entry.virtual_bytes || a.entry.baseline {
        lemma_nothing_owned(a, n);
    } else if n >= 2 {
        law_shares_of_an_entry_sum_to_its_bytes(a);
    } else if n == 1 {
        assert(owners_get(a, 1) == owners_get(a, 0) + own_part(a, a.entry.owners[0]));
        assert(owners_get(a, 0) == 0);
    }
}

proof fn lemma_nothing_owned(a: AccountedView, n: int)
    requires
        a.entry.virtual_bytes || a.entry.baseline,
    ensures
        owners_get(a, n) == 0,
    decreases n,
{
    if n > 0 {
        lemma_nothing_owned(a, n - 1);
    }
}

/// What the first `n` rows own, alone or with others.
pub open spec fn rows_own(f: Seq<FootprintView>, n: int) -> nat
    decreases n,
{
    if n <= 0 {
        0
    } else {
        rows_own(f, n - 1) + f[n - 1].exclusive as nat + f[n - 1].shared as nat
    }
}

/// The keys of rows.
pub open spec fn row_keys_of(f: Seq<FootprintView>) -> Seq<Seq<char>> {
    Seq::new(f.len(), |i: int| f[i].owner.key)
}

spec fn keys_own_all(s: Seq<AccountedView>, keys: Seq<Seq<char>>, m: int) -> nat
    decreases m,
{
    if m <= 0 {
        0
    } else {
        keys_own_all(s, keys, m - 1) + exclusive(s, keys[m - 1]) + shared(s, keys[m - 1])
    }
}

proof fn lemma_one_more_entry(s: Seq<AccountedView>, keys: Seq<Seq<char>>, m: int)
    requires
        s.len() > 0,
    ensures
        keys_own_all(s, keys, m) == keys_own_all(s.drop_last(), keys, m) + keys_own(
            s.last(),
            keys,
            m,
        ),
    decreases m,
{
    if m > 0 {
        lemma_one_more_entry(s, keys, m - 1);
        let k = keys[m - 1];
        assert(exclusive(s, k) == exclusive(s.drop_last(), k) + exclusive_part(s.last(), k));
        assert(shared(s, k) == shared(s.drop_last(), k) + shared_part(s.last(), k));
    }
}

proof fn lemma_no_entries(keys: Seq<Seq<char>>, m: int)
    ensures
        keys_own_all(Seq::<AccountedView>::empty(), keys, m) == 0,
    decreases m,
{
    if m > 0 {
        lemma_no_entries(keys, m - 1);
    }
}

proof fn lemma_keys_own_all(s: Seq<AccountedView>, keys: Seq<Seq<char>>)
    requires
        keys.no_duplicates(),
        forall|i: int| 0 <= i < s.len() ==> (#[trigger] s[i]).entry.owners.no_duplicates(),
    ensures
        keys_own_all(s, keys, keys.len() as int) <= attributed(s),
    decreases s.len(),
{
    if s.len() > 0 {
        let front = s.drop_last();
        assert forall|i: int| 0 <= i < front.len() implies (
        #[trigger] front[i]).entry.owners.no_duplicates() by {
            assert(front[i] == s[i]);
        }
        lemma_keys_own_all(front, keys);
        lemma_one_more_entry(s, keys, keys.len() as int);
        assert(s[s.len() - 1].entry.owners.no_duplicates());
        law_owners_of_an_entry_get_no_more_than_it_is(s.last(), keys);
        assert(attributed(s) == attributed(front) + real_part(s.last()));
    } else {
        assert(s =~= seq![]);
        lemma_no_entries(keys, keys.len() as int);
    }
}

proof fn lemma_rows_own(f: Seq<FootprintView>, s: Seq<AccountedView>, n: int)
    requires
        0 <= n <= f.len(),
        forall|i: int|
            0 <= i < f.len() ==> (#[trigger] f[i]).exclusive == exclusive(s, f[i].owner.key)
                && f[i].shared == shared(s, f[i].owner.key),
    ensures
        rows_own(f, n) == keys_own_all(s, row_keys_of(f), n),
    decreases n,
{
    if n > 0 {
        lemma_rows_own(f, s, n - 1);
        assert(f[n - 1].exclusive == exclusive(s, f[n - 1].owner.key));
    }
}

proof fn lemma_row_keys(f: Seq<FootprintView>, s: Seq<AccountedView>)
    requires
        forall|i: int|
            0 <= i < f.len() ==> (#[trigger] f[i]).exclusive == exclusive(s, f[i].owner.key),
        forall|i: int, j: int|
            0 <= i < j < f.len() ==> footprint_before(#[trigger] f[i], #[trigger] f[j]),
    ensures
        row_keys_of(f).no_duplicates(),
{
    let keys = row_keys_of(f);
    assert forall|i: int, j: int| 0 <= i < keys.len() && 0 <= j < keys.len() && i != j implies keys[i]
        != keys[j] by {
        let (a, b) = if i < j {
            (i, j)
        } else {
            (j, i)
        };
        assert(footprint_before(f[a], f[b]));
        assert(f[a].exclusive == exclusive(s, keys[a]) && f[b].exclusive == exclusive(s, keys[b]));
        if keys[a] == keys[b] {
            lemma_chars_lt_irreflexive(keys[a]);
        }
    }
}

proof fn lemma_listed_once(claims: Seq<ClaimView>, trees: Seq<TreeView>, disk: DiskView)
    ensures
        forall|i: int|
            0 <= i < accounted(claims, trees, disk).len() ==> (#[trigger] accounted(
                claims,
                trees,
                disk,
            )[i]).entry.owners.no_duplicates(),
{
    let s = accounted(claims, trees, disk);
    let raw = raw_entries(claims, trees, disk);
    assert forall|i: int| 0 <= i < s.len() implies (
    #[trigger] s[i]).entry.owners.no_duplicates() by {
        let d = dedup(claims_at(claims, claimed_paths(claims)[i]));
        law_dedup_keeps_each_owners_surest_claim(claims_at(claims, claimed_paths(claims)[i]));
        lemma_real_owners(d);
        assert(s[i].entry == nested(raw)[i]);
        assert(raw[i].owners == listed_owners(d));
    }
}

/// What all rows of an account own, alone or with others, is together never more than what the
/// account attributes: no byte is in two rows.
pub proof fn law_rows_own_no_more_than_is_attributed(
    r: SetView,
    claims: Seq<ClaimView>,
    owners: Seq<OwnerView>,
    trees: Seq<TreeView>,
    disk: DiskView,
    axis: Axis,
)
    requires
        is_account(r, claims, owners, trees, disk, axis),
    ensures
        rows_own(r.footprints, r.footprints.len() as int) <= r.attributed_total,
{
    let s = accounted(claims, trees, disk);
    let f = r.footprints;
    lemma_row_keys(f, s);
    lemma_listed_once(claims, trees, disk);
    lemma_keys_own_all(s, row_keys_of(f));
    lemma_rows_own(f, s, f.len() as int);
}

/// Whether a claim is an owner's own and its bytes are plainly on this disk: neither of an ecosystem
/// nor of nobody, neither virtual nor a clone.
pub open spec fn is_plain(c: ClaimView) -> bool {
    !is_sentinel(c.owner) && !c.baseline && !c.virtual_bytes && !c.clone_of_store
}

proof fn lemma_all_real(d: Seq<ClaimView>)
    requires
        forall|i: int| 0 <= i < d.len() ==> !is_sentinel((#[trigger] d[i]).owner),
    ensures
        real_owners(d).len() == d.len(),
    decreases d.len(),
{
    if d.len() > 0 {
        let front = d.drop_last();
        assert forall|i: int| 0 <= i < front.len() implies !is_sentinel((#[trigger] front[i]).owner) by {
            assert(front[i] == d[i]);
        }
        lemma_all_real(front);
        assert(!is_sentinel(d[d.len() - 1].owner));
    }
}

/// The counting claims on the path of the entry at `i` are claims on that path, and there is one.
proof fn lemma_counting(claims: Seq<ClaimView>, i: int) -> (d: Seq<ClaimView>)
    requires
        0 <= i < claimed_paths(claims).len(),
    ensures
        d == dedup(claims_at(claims, claimed_paths(claims)[i])),
        d.len() > 0,
        one_per_owner(d),
        forall|j: int|
            0 <= j < d.len() ==> claims.contains(#[trigger] d[j]) && canonical(d[j].path)
                == claimed_paths(claims)[i],
{
    let p = claimed_paths(claims)[i];
    let at = claims_at(claims, p);
    let d = dedup(at);
    lemma_claimed_paths(claims);
    assert(claimed_paths(claims).contains(p));
    law_dedup_keeps_each_owners_surest_claim(at);
    assert(covers(d, at[0]));
    assert forall|j: int| 0 <= j < d.len() implies claims.contains(#[trigger] d[j]) && canonical(
        d[j].path,
    ) == p by {
        assert(at.contains(d[j]));
        claims.lemma_filter_contains_rev(on_path(p), d[j]);
        let m = choose|m: int| 0 <= m < at.len() && at[m] == d[j];
        claims.lemma_filter_pred(on_path(p), m);
        assert(on_path(p)(d[j]));
    }
    d
}

proof fn lemma_rows_own_entry(a: AccountedView, keys: Seq<Seq<char>>)
    requires
        a.entry.owners.no_duplicates(),
        a.entry.owners.len() > 0,
        keys.no_duplicates(),
        !a.entry.baseline && !a.entry.virtual_bytes && !a.entry.clone_of_store,
        forall|j: int|
            0 <= j < a.entry.owners.len() ==> keys.contains(#[trigger] a.entry.owners[j]),
        !is_orphan(a.entry),
    ensures
        keys_own(a, keys, keys.len() as int) == real_part(a),
{
    let n = a.entry.owners.len() as int;
    lemma_all_among(a, keys, keys.len() as int);
    lemma_keys_among(a, keys, n);
    if n >= 2 {
        law_shares_of_an_entry_sum_to_its_bytes(a);
    } else {
        assert(owners_get(a, 1) == owners_get(a, 0) + own_part(a, a.entry.owners[0]));
        assert(owners_get(a, 0) == 0);
        assert(a.entry.owners.contains(a.entry.owners[0]));
    }
}

proof fn lemma_keys_own_everything(s: Seq<AccountedView>, keys: Seq<Seq<char>>)
    requires
        forall|i: int|
            0 <= i < s.len() ==> keys_own(#[trigger] s[i], keys, keys.len() as int) == real_part(
                s[i],
            ),
    ensures
        keys_own_all(s, keys, keys.len() as int) == attributed(s),
    decreases s.len(),
{
    if s.len() > 0 {
        let front = s.drop_last();
        assert forall|i: int| 0 <= i < front.len() implies keys_own(
            #[trigger] front[i],
            keys,
            keys.len() as int,
        ) == real_part(front[i]) by {
            assert(front[i] == s[i]);
        }
        lemma_keys_own_everything(front, keys);
        lemma_one_more_entry(s, keys, keys.len() as int);
        assert(keys_own(s[s.len() - 1], keys, keys.len() as int) == real_part(s[s.len() - 1]));
        assert(attributed(s) == attributed(front) + real_part(s.last()));
    } else {
        assert(s =~= seq![]);
        lemma_no_entries(keys, keys.len() as int);
    }
}

/// Where every claim is an owner's own, and its bytes are plainly on this disk, the rows own all
/// that the account attributes, to the last byte.
pub proof fn law_rows_own_all_that_plain_claims_attribute(
    r: SetView,
    claims: Seq<ClaimView>,
    owners: Seq<OwnerView>,
    trees: Seq<TreeView>,
    disk: DiskView,
    axis: Axis,
)
    requires
        is_account(r, claims, owners, trees, disk, axis),
        forall|i: int| 0 <= i < claims.len() ==> is_plain(#[trigger] claims[i]),
    ensures
        rows_own(r.footprints, r.footprints.len() as int) == r.attributed_total,
{
    let s = accounted(claims, trees, disk);
    let raw = raw_entries(claims, trees, disk);
    let f = r.footprints;
    let keys = row_keys_of(f);
    lemma_row_keys(f, s);
    lemma_listed_once(claims, trees, disk);
    assert forall|i: int| 0 <= i < s.len() implies keys_own(
        #[trigger] s[i],
        keys,
        keys.len() as int,
    ) == real_part(s[i]) by {
        let d = lemma_counting(claims, i);
        let a = s[i];
        assert(a.entry == nested(raw)[i]);
        assert forall|j: int| 0 <= j < d.len() implies is_plain(#[trigger] d[j]) by {
            assert(claims.contains(d[j]));
        }
        lemma_all_real(d);
        lemma_real_owners(d);
        let own = real_owners(d);
        assert(raw[i].owners == own);
        assert forall|j: int| 0 <= j < own.len() implies keys.contains(#[trigger] own[j])
            && !is_sentinel(own[j]) by {
            let m = choose|m: int| 0 <= m < d.len() && (#[trigger] d[m]).owner == own[j];
            assert(claims.contains(d[m]));
            let c = choose|c: int| 0 <= c < claims.len() && claims[c] == d[m];
            assert(claims[c].owner == own[j]);
            assert(is_plain(claims[c]));
            assert(has_row(claims, owners, own[j]));
            let x = choose|x: int| 0 <= x < f.len() && (#[trigger] f[x]).owner.key == own[j];
            assert(keys[x] == own[j]);
        }
        assert(!is_sentinel(own[0]));
        lemma_rows_own_entry(a, keys);
    }
    lemma_keys_own_everything(s, keys);
    lemma_rows_own(f, s, f.len() as int);
}

proof fn lemma_unowned(d: Seq<ClaimView>)
    ensures
        unowned_reason(d) is Some <==> exists|i: int|
            0 <= i < d.len() && (#[trigger] d[i]).owner == UNATTRIBUTED_OWNER@,
        unowned_reason(d) is Some ==> exists|i: int|
            0 <= i < d.len() && (#[trigger] d[i]).owner == UNATTRIBUTED_OWNER@ && unowned_reason(d)
                == Some(d[i].evidence),
    decreases d.len(),
{
    if d.len() > 0 {
        let front = d.drop_last();
        lemma_unowned(front);
        if unowned_reason(front) is Some {
            let i = choose|i: int|
                0 <= i < front.len() && (#[trigger] front[i]).owner == UNATTRIBUTED_OWNER@
                    && unowned_reason(front) == Some(front[i].evidence);
            assert(d[i] == front[i]);
        } else if d.last().owner == UNATTRIBUTED_OWNER@ {
            assert(d[d.len() - 1].owner == UNATTRIBUTED_OWNER@);
        } else {
            assert forall|i: int| 0 <= i < d.len() implies (#[trigger] d[i]).owner
                != UNATTRIBUTED_OWNER@ by {
                if i < front.len() {
                    assert(front[i] == d[i]);
                }
            }
        }
    }
}

proof fn lemma_orphan_listed(s: Seq<AccountedView>, i: int)
    requires
        0 <= i < s.len(),
        s[i].unowned is Some,
    ensures
        orphan_entries(s).contains(EntryView { reason: s[i].unowned, ..s[i].entry }),
    decreases s.len(),
{
    let front = s.drop_last();
    let e = EntryView { reason: s[i].unowned, ..s[i].entry };
    if i == s.len() - 1 {
        let n = orphan_entries(front).len() as int;
        assert(orphan_entries(s)[n] == e);
    } else {
        assert(front[i] == s[i]);
        lemma_orphan_listed(front, i);
        let j = choose|j: int| 0 <= j < orphan_entries(front).len() && orphan_entries(front)[j] == e;
        assert(orphan_entries(s)[j] == e);
    }
}

/// A claim that nobody makes always shows among what is not attributed: its path has an entry there,
/// whoever else claims the path, and the entry's reason is the evidence of such a claim on the path.
pub proof fn law_claims_of_nobody_are_listed_with_their_evidence(
    r: SetView,
    claims: Seq<ClaimView>,
    owners: Seq<OwnerView>,
    trees: Seq<TreeView>,
    disk: DiskView,
    axis: Axis,
    i: int,
)
    requires
        is_account(r, claims, owners, trees, disk, axis),
        0 <= i < claims.len(),
        claims[i].owner == UNATTRIBUTED_OWNER@,
    ensures
        exists|j: int, c: int|
            0 <= j < r.unattributed.len() && 0 <= c < claims.len() && (
            #[trigger] r.unattributed[j]).path == canonical(claims[i].path) && (
            #[trigger] claims[c]).owner == UNATTRIBUTED_OWNER@ && canonical(claims[c].path)
                == canonical(claims[i].path) && r.unattributed[j].reason == Some(claims[c].evidence),
{
    let s = accounted(claims, trees, disk);
    let raw = raw_entries(claims, trees, disk);
    let p = canonical(claims[i].path);
    let at = claims_at(claims, p);
    assert(on_path(p)(claims[i]));
    claims.lemma_filter_contains(on_path(p), i);
    assert(at.contains(claims[i]));
    lemma_claimed_paths(claims);
    assert(claimed_paths(claims).contains(p));
    let n = choose|n: int| 0 <= n < claimed_paths(claims).len() && claimed_paths(claims)[n] == p;
    let d = lemma_counting(claims, n);
    law_dedup_keeps_each_owners_surest_claim(at);
    let m = choose|m: int| 0 <= m < at.len() && at[m] == claims[i];
    assert(covers(d, at[m]));
    lemma_unowned(d);
    assert(s[n].entry == nested(raw)[n]);
    assert(raw[n].path == p);
    assert(s[n].unowned == unowned_reason(d));
    let w = choose|w: int|
        0 <= w < d.len() && (#[trigger] d[w]).owner == UNATTRIBUTED_OWNER@ && unowned_reason(d)
            == Some(d[w].evidence);
    assert(claims.contains(d[w]));
    let c = choose|c: int| 0 <= c < claims.len() && claims[c] == d[w];
    lemma_orphan_listed(s, n);
    let e = EntryView { reason: s[n].unowned, ..s[n].entry };
    let j = choose|j: int| 0 <= j < r.unattributed.len() && r.unattributed[j] == e;
    assert(r.unattributed[j].path == p && claims[c].owner == UNATTRIBUTED_OWNER@);
}

} // verus!
