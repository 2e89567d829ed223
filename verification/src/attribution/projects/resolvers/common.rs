//! What the modules of the single ecosystems share.

use vstd::prelude::*;

use crate::attribution::model::{
    plain_claim, put, Claim, ClaimView, EntryKind, EvidenceTier, BASELINE_OWNER,
};
use crate::disk::{Disk, DiskView, NodeKind};
use crate::fspath::{child, FilePath};
use crate::order::{chars_lt, str_before};
use crate::seqs::lemma_filter_map_start;
use crate::text::{starts, str_starts};

use crate::attribution::projects::put_text;

verus! {

broadcast use crate::disk::group_asks;

/// A labelled claim.
pub open spec fn own(
    path: Seq<Seq<char>>,
    owner: Seq<char>,
    kind: EntryKind,
    tier: EvidenceTier,
    evidence: Seq<char>,
    label: Seq<char>,
) -> ClaimView {
    plain_claim(path, owner, kind, tier, evidence).labelled(label)
}

/// A labelled claim.
pub fn own_claim(
    path: FilePath,
    owner: &str,
    kind: EntryKind,
    tier: EvidenceTier,
    evidence: &str,
    label: &str,
) -> (r: Claim)
    ensures
        r@ == own(path@, owner@, kind, tier, evidence@, label@),
{
    Claim::new(path, owner, kind, tier, evidence).label(label)
}

/// A claim on what belongs to a whole ecosystem.
pub open spec fn shared(
    path: Seq<Seq<char>>,
    kind: EntryKind,
    evidence: Seq<char>,
    label: Seq<char>,
    ecosystem: Seq<char>,
) -> ClaimView {
    own(
        path,
        BASELINE_OWNER@,
        kind,
        EvidenceTier::EcosystemDefault,
        evidence,
        label,
    ).in_baseline(ecosystem)
}

/// A claim on what belongs to a whole ecosystem.
pub fn shared_claim(
    path: FilePath,
    kind: EntryKind,
    evidence: &str,
    label: &str,
    ecosystem: &'static str,
) -> (r: Claim)
    ensures
        r@ == shared(path@, kind, evidence@, label@, ecosystem@),
{
    own_claim(
        path,
        BASELINE_OWNER,
        kind,
        EvidenceTier::EcosystemDefault,
        evidence,
        label,
    ).baseline(ecosystem)
}

/// Where something of an ecosystem may lie in the home directory, what it is and how it is called.
#[derive(Clone, Copy, Debug)]
pub struct Place {
    pub rel: &'static str,
    pub kind: EntryKind,
    pub label: &'static str,
}

/// The claim on a place, where something is there.
pub open spec fn place_claim(
    disk: DiskView,
    home: Seq<Seq<char>>,
    evidence: Seq<char>,
    ecosystem: Seq<char>,
) -> spec_fn(Place) -> Option<ClaimView> {
    |p: Place|
        if disk.present(child(home, p.rel@)) {
            Some(shared(child(home, p.rel@), p.kind, evidence, p.label@, ecosystem))
        } else {
            None
        }
}

/// The claims on those places where something is.
pub fn place_claims(
    places: &Vec<Place>,
    home: &FilePath,
    evidence: &str,
    ecosystem: &'static str,
    disk: &mut Disk,
) -> (r: Vec<Claim>)
    requires
        old(disk).wf(),
    ensures
        final(disk).asked(*old(disk)),
        final(disk).holds() ==> r.deep_view() == places@.filter_map(
            place_claim(old(disk)@, home@, evidence@, ecosystem@),
        ),
{
    let ghost facts = disk@;
    let ghost pick = place_claim(facts, home@, evidence@, ecosystem@);
    let mut out: Vec<Claim> = Vec::new();
    let mut i: usize = 0;
    proof {
        lemma_filter_map_start(places@, pick);
        assert(out.deep_view() =~= places@.take(0).filter_map(pick));
    }
    while i < places.len()
        invariant
            i <= places.len(),
            facts == old(disk)@,
            disk.asked(*old(disk)),
            pick == place_claim(facts, home@, evidence@, ecosystem@),
            disk.holds() ==> out.deep_view() == places@.take(i as int).filter_map(pick),
        decreases places.len() - i,
    {
        proof {
            places@.lemma_filter_map_take_succ(pick, i as int);
        }
        let p = places[i];
        let path = home.child(p.rel);
        if disk.present(&path) {
            put(&mut out, shared_claim(path, p.kind, evidence, p.label, ecosystem));
        }
        assert(disk.holds() ==> out.deep_view() =~= places@.take(i + 1).filter_map(pick));
        i = i + 1;
    }
    assert(places@.take(i as int) =~= places@);
    out
}

/// Claims, all tagged with an ecosystem.
pub open spec fn all_tagged(claims: Seq<ClaimView>, ecosystem: Seq<char>) -> Seq<ClaimView> {
    Seq::new(claims.len(), |i: int| claims[i].tagged(ecosystem))
}

/// The claims, all tagged with an ecosystem.
pub fn tag_all(claims: Vec<Claim>, ecosystem: &'static str) -> (r: Vec<Claim>)
    ensures
        r.deep_view() == all_tagged(claims.deep_view(), ecosystem@),
{
    let ghost all = claims.deep_view();
    let ghost want = all_tagged(all, ecosystem@);
    let mut rest = claims;
    let mut out: Vec<Claim> = Vec::new();
    assert(rest.deep_view() =~= all.skip(0));
    while rest.len() > 0
        invariant
            out.len() + rest.len() == all.len(),
            rest.deep_view() == all.skip(out.len() as int),
            want == all_tagged(all, ecosystem@),
            out.deep_view() =~= want.take(out.len() as int),
        decreases rest.len(),
    {
        let ghost n = out.len() as int;
        let ghost before = rest.deep_view();
        let ghost items = rest@;
        let c = rest.remove(0);
        proof {
            assert(c@ == before[0]);
            assert(before[0] == all[n]);
            assert(rest@ == items.remove(0));
            assert(rest.deep_view() =~= before.skip(1));
            assert(rest.deep_view() =~= all.skip(n + 1));
        }
        put(&mut out, c.ecosystem(ecosystem));
        assert(out.deep_view().len() == out.len());
    }
    assert(out.deep_view() =~= want);
    out
}

/// The name of an entry that is, links followed, a directory.
pub open spec fn real_dir(disk: DiskView, dir: Seq<Seq<char>>) -> spec_fn(
    (Seq<char>, NodeKind),
) -> Option<Seq<char>> {
    |e: (Seq<char>, NodeKind)|
        if disk.is_dir(child(dir, e.0)) {
            Some(e.0)
        } else {
            None
        }
}

/// The names of the entries of a directory that are, links followed, directories.
pub open spec fn real_dirs(disk: DiskView, dir: Seq<Seq<char>>) -> Seq<Seq<char>> {
    match disk.list(dir) {
        Some(entries) => entries.filter_map(real_dir(disk, dir)),
        None => seq![],
    }
}

/// The names of the entries of a directory that are, links followed, directories.
pub fn real_dir_names(disk: &mut Disk, dir: &FilePath) -> (r: Vec<String>)
    requires
        old(disk).wf(),
    ensures
        final(disk).asked(*old(disk)),
        final(disk).holds() ==> r.deep_view() == real_dirs(old(disk)@, dir@),
{
    let ghost facts = disk@;
    let ghost pick = real_dir(facts, dir@);
    let mut out: Vec<String> = Vec::new();
    match disk.list(dir) {
        Some(entries) => {
            let ghost all = entries.deep_view();
            let mut i: usize = 0;
            proof {
                lemma_filter_map_start(all, pick);
                assert(out.deep_view() =~= all.take(0).filter_map(pick));
            }
            let ghost start = *disk;
            while i < entries.len()
                invariant
                    i <= entries.len(),
                    all == entries.deep_view(),
                    facts == old(disk)@,
                    disk.asked(*old(disk)),
                    disk.holds() ==> start.holds(),
                    pick == real_dir(facts, dir@),
                    disk.holds() ==> out.deep_view() == all.take(i as int).filter_map(pick),
                decreases entries.len() - i,
            {
                proof {
                    assert(all[i as int] == entries@[i as int].deep_view());
                    all.lemma_filter_map_take_succ(pick, i as int);
                }
                if disk.is_dir(&dir.child(entries[i].name.as_str())) {
                    put_text(&mut out, entries[i].name.clone());
                }
                assert(disk.holds() ==> out.deep_view() =~= all.take(i + 1).filter_map(pick));
                i = i + 1;
            }
            assert(all.take(i as int) =~= all);
            out
        },
        None => {
            assert(out.deep_view() =~= seq![]);
            out
        },
    }
}

/// The names of the entries of a directory.
pub open spec fn names_in(disk: DiskView, dir: Seq<Seq<char>>) -> Seq<Seq<char>> {
    match disk.list(dir) {
        Some(entries) => Seq::new(entries.len(), |i: int| entries[i].0),
        None => seq![],
    }
}

/// The names of the entries of a directory.
pub fn list_names(disk: &mut Disk, dir: &FilePath) -> (r: Vec<String>)
    requires
        old(disk).wf(),
    ensures
        final(disk).asked(*old(disk)),
        final(disk).holds() ==> r.deep_view() == names_in(old(disk)@, dir@),
{
    let ghost want = names_in(disk@, dir@);
    let mut out: Vec<String> = Vec::new();
    match disk.list(dir) {
        Some(entries) => {
            let mut i: usize = 0;
            while i < entries.len()
                invariant
                    i <= entries.len(),
                    disk.holds() ==> want == Seq::new(
                        entries.deep_view().len(),
                        |i: int| entries.deep_view()[i].0,
                    ),
                    disk.holds() ==> out.deep_view() =~= want.take(i as int),
                decreases entries.len() - i,
            {
                assert(entries.deep_view()[i as int] == entries@[i as int].deep_view());
                put_text(&mut out, entries[i].name.clone());
                i = i + 1;
            }
            assert(disk.holds() ==> want.take(i as int) =~= want);
        },
        None => {
            assert(disk.holds() ==> out.deep_view() =~= want);
        },
    }
    out
}

/// The last, in their order, of the names that begin with the prefix.
pub open spec fn greatest_with(names: Seq<Seq<char>>, prefix: Seq<char>) -> Option<Seq<char>>
    decreases names.len(),
{
    if names.len() == 0 {
        None
    } else {
        let n = names.last();
        match greatest_with(names.drop_last(), prefix) {
            Some(best) => if starts(n, prefix) && chars_lt(best, n) {
                Some(n)
            } else {
                Some(best)
            },
            None => if starts(n, prefix) {
                Some(n)
            } else {
                None
            },
        }
    }
}

/// The last, in their order, of the names that begin with the prefix.
pub fn last_with_prefix(names: &Vec<String>, prefix: &str) -> (r: Option<String>)
    ensures
        r.deep_view() == greatest_with(names.deep_view(), prefix@),
{
    let ghost all = names.deep_view();
    let mut best: Option<String> = None;
    let mut i: usize = 0;
    while i < names.len()
        invariant
            i <= names.len(),
            all == names.deep_view(),
            best.deep_view() == greatest_with(all.take(i as int), prefix@),
        decreases names.len() - i,
    {
        proof {
            assert(all.take(i + 1).drop_last() =~= all.take(i as int));
            assert(all.take(i + 1).last() == names@[i as int]@);
        }
        if str_starts(names[i].as_str(), prefix) {
            let better = match &best {
                Some(b) => str_before(b.as_str(), names[i].as_str()),
                None => true,
            };
            if better {
                best = Some(names[i].clone());
            }
        }
        i = i + 1;
    }
    assert(all.take(i as int) =~= all);
    best
}

/// The claim on an entry of a package cache whose name begins with a prefix.
pub open spec fn prefixed_claim(
    dir: Seq<Seq<char>>,
    owner: Seq<char>,
    tier: EvidenceTier,
    prefix: Seq<char>,
    evidence: Seq<char>,
    label: Seq<char>,
) -> spec_fn((Seq<char>, NodeKind)) -> Option<ClaimView> {
    |e: (Seq<char>, NodeKind)|
        if starts(e.0, prefix) {
            Some(
                own(
                    child(dir, e.0),
                    owner,
                    EntryKind::PackageCache,
                    tier,
                    evidence,
                    label,
                ),
            )
        } else {
            None
        }
}

/// The claims on the entries of a package cache whose names begin with a prefix.
pub open spec fn prefixed_claims(
    disk: DiskView,
    dir: Seq<Seq<char>>,
    owner: Seq<char>,
    tier: EvidenceTier,
    prefix: Seq<char>,
    evidence: Seq<char>,
    label: Seq<char>,
) -> Seq<ClaimView> {
    match disk.list(dir) {
        Some(entries) => entries.filter_map(prefixed_claim(dir, owner, tier, prefix, evidence, label)),
        None => seq![],
    }
}

/// Puts the claims on the entries of a package cache whose names begin with a prefix.
pub fn put_prefixed_claims(
    dir: &FilePath,
    owner: &str,
    tier: EvidenceTier,
    prefix: &str,
    evidence: &str,
    label: &str,
    disk: &mut Disk,
    out: &mut Vec<Claim>,
)
    requires
        old(disk).wf(),
    ensures
        final(disk).asked(*old(disk)),
        final(disk).holds() ==> final(out).deep_view() == old(out).deep_view() + prefixed_claims(
            old(disk)@,
            dir@,
            owner@,
            tier,
            prefix@,
            evidence@,
            label@,
        ),
{
    let ghost was = out.deep_view();
    match disk.list(dir) {
        Some(entries) => {
            let ghost all = entries.deep_view();
            let ghost pick = prefixed_claim(dir@, owner@, tier, prefix@, evidence@, label@);
            let mut i: usize = 0;
            proof {
                lemma_filter_map_start(all, pick);
                assert(out.deep_view() =~= was + all.take(0).filter_map(pick));
            }
            while i < entries.len()
                invariant
                    i <= entries.len(),
                    all == entries.deep_view(),
                    pick == prefixed_claim(dir@, owner@, tier, prefix@, evidence@, label@),
                    disk.holds() ==> out.deep_view() == was + all.take(i as int).filter_map(pick),
                decreases entries.len() - i,
            {
                proof {
                    assert(all[i as int] == entries@[i as int].deep_view());
                    all.lemma_filter_map_take_succ(pick, i as int);
                }
                let name = entries[i].name.as_str();
                if str_starts(name, prefix) {
                    put(
                        out,
                        own_claim(
                            dir.child(name),
                            owner,
                            EntryKind::PackageCache,
                            tier,
                            evidence,
                            label,
                        ),
                    );
                }
                assert(disk.holds() ==> out.deep_view() =~= was + all.take(i + 1).filter_map(pick));
                i = i + 1;
            }
            assert(all.take(i as int) =~= all);
        },
        None => {
            assert(out.deep_view() =~= was + Seq::<ClaimView>::empty());
        },
    }
}

} // verus!
