//! The app axis: who owns what under the home directory.

pub mod candidate_laws;
pub mod candidates;
pub mod curated;
pub mod data_laws;
pub mod entitlements;
pub mod linker_laws;
pub mod linkers;
pub mod owners;
pub mod roster_laws;

use vstd::prelude::*;

use crate::attribution::apps::candidates::{
    apple_data, apple_data_in, candidates_in, collect, AppleDataView,
};
use crate::attribution::apps::curated::{apple_name, apple_owner_name};
use crate::attribution::apps::linkers::{link, linked, Groups};
use crate::attribution::apps::owners::{discover, owners_in};
use crate::attribution::model::{
    plain_claim, put, Claim, ClaimView, EntryKind, EnvView, EvidenceTier, Owner, OwnerKind,
    OwnerView, ResolveEnv,
};
use crate::disk::{Disk, DiskView};
use crate::fspath::FilePath;
use crate::pathmap::PathMap;
use crate::text::same;

verus! {

broadcast use crate::disk::group_asks;

/// The claims on the data of Apple's apps.
pub open spec fn data_claims(data: Seq<AppleDataView>) -> Seq<ClaimView> {
    Seq::new(
        data.len(),
        |i: int|
            plain_claim(
                data[i].path,
                data[i].bundle_id,
                EntryKind::Data,
                EvidenceTier::Exact,
                "well-known data location"@,
            ).labelled(data[i].label),
    )
}

/// The owners, and those of Apple's apps behind them that keep data but were not found.
pub open spec fn with_apple(owners: Seq<OwnerView>, data: Seq<AppleDataView>) -> Seq<OwnerView>
    decreases data.len(),
{
    if data.len() == 0 {
        owners
    } else {
        let before = with_apple(owners, data.drop_last());
        let id = data.last().bundle_id;
        if exists|i: int| 0 <= i < before.len() && (#[trigger] before[i]).key == id {
            before
        } else {
            match apple_name(id) {
                Some(name) => before.push(
                    OwnerView { key: id, kind: OwnerKind::App, name, path: None },
                ),
                None => before,
            }
        }
    }
}

/// The app axis's owners and claims.
pub open spec fn app_axis(
    env: EnvView,
    disk: DiskView,
    groups: Groups,
    observed: Seq<(Seq<char>, Seq<Seq<char>>)>,
) -> (Seq<OwnerView>, Seq<ClaimView>) {
    let data = apple_data_in(env, disk);
    (
        with_apple(owners_in(env).all(), data),
        linked(env.home, owners_in(env), groups, observed, candidates_in(env, disk)) + data_claims(
            data,
        ),
    )
}

fn knows(owners: &Vec<Owner>, key: &str) -> (r: bool)
    ensures
        r == exists|i: int|
            0 <= i < owners.deep_view().len() && (#[trigger] owners.deep_view()[i]).key == key@,
{
    let mut i: usize = 0;
    while i < owners.len()
        invariant
            i <= owners.len(),
            forall|j: int| 0 <= j < i ==> (#[trigger] owners.deep_view()[j]).key != key@,
        decreases owners.len() - i,
    {
        assert(owners.deep_view()[i as int] == owners@[i as int]@);
        if same(owners[i].key.as_str(), key) {
            return true;
        }
        i = i + 1;
    }
    false
}

/// Resolve the app axis: its owners, and what they and nobody claim. Whom the entitlements give
/// which groups, and who has which path open, has been asked of the system before.
pub fn resolve(
    env: &ResolveEnv,
    disk: &mut Disk,
    groups: &PathMap<Vec<String>>,
    observed: &Vec<(String, FilePath)>,
) -> (r: (Vec<Owner>, Vec<Claim>))
    requires
        old(disk).wf(),
        groups.wf(),
    ensures
        final(disk).asked(*old(disk)),
        final(disk).holds() ==> (r.0.deep_view(), r.1.deep_view()) == app_axis(
            env@,
            old(disk)@,
            groups@,
            observed.deep_view(),
        ),
{
    let ghost facts = disk@;
    let discovered = discover(env);
    let list = collect(env, disk);
    let mut claims = link(env, &discovered, &list, groups, observed);
    let data = apple_data(env, disk);
    let ghost dv = data.deep_view();
    let mut owners = discovered.into_owners();
    let ghost o0 = owners.deep_view();
    let ghost c0 = claims.deep_view();
    let ghost more = data_claims(dv);
    let mut i: usize = 0;
    assert(c0 + more.take(0) =~= c0);
    while i < data.len()
        invariant
            i <= data.len(),
            dv == data.deep_view(),
            more == data_claims(dv),
            disk.holds() ==> claims.deep_view() == c0 + more.take(i as int),
            disk.holds() ==> owners.deep_view() == with_apple(o0, dv.take(i as int)),
        decreases data.len() - i,
    {
        let d = &data[i];
        proof {
            assert(dv[i as int] == d.deep_view());
            assert(dv.take(i + 1).drop_last() =~= dv.take(i as int));
            assert(dv.take(i + 1).last() == d.deep_view());
        }
        put(
            &mut claims,
            Claim::new(
                d.path.copy(),
                d.bundle_id,
                EntryKind::Data,
                EvidenceTier::Exact,
                "well-known data location",
            ).label(d.label.as_str()),
        );
        assert(disk.holds() ==> claims.deep_view() =~= c0 + more.take(i + 1));
        if !knows(&owners, d.bundle_id) {
            if let Some(name) = apple_owner_name(d.bundle_id) {
                let ghost was = owners.deep_view();
                let o = Owner {
                    key: d.bundle_id.to_owned(),
                    kind: OwnerKind::App,
                    name: name.to_owned(),
                    path: None,
                };
                owners.push(o);
                assert(owners.deep_view() =~= was.push(o@));
            }
        }
        i = i + 1;
    }
    assert(more.take(i as int) =~= more);
    assert(dv.take(i as int) =~= dv);
    (owners, claims)
}

} // verus!
