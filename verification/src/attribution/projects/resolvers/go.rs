//! Go: the modules that a project's `go.sum` names, and the build cache.

use vstd::prelude::*;

use crate::attribution::model::{
    put, Claim, ClaimView, EntryKind, EnvView, EvidenceTier, ResolveEnv,
};
use crate::attribution::projects::{Project, ProjectView};
use crate::disk::{Disk, DiskView};
use crate::fspath::{child, path_text};
use crate::seqs::{flat, lemma_flat_start, lemma_flat_step};
use crate::text::{cat3, lines};

use super::common::{
    all_tagged, own, own_claim, place_claim, place_claims, tag_all, Place,
};
use super::derive::{existing, go_module_cache, module_paths};
use super::parsers::{go_modules, go_sum, Key, KeyView};

verus! {

broadcast use crate::disk::group_asks;

/// How much of a `go.sum` is read.
pub const MAX_GO_SUM_BYTES: usize = 2097152;

/// The claims on what the module cache keeps of a module.
pub open spec fn module_claims(p: ProjectView, env: EnvView, disk: DiskView) -> spec_fn(
    KeyView,
) -> Seq<ClaimView> {
    |key: KeyView|
        {
            let paths = existing(disk, module_paths(env, key));
            Seq::new(
                paths.len(),
                |i: int|
                    own(
                        paths[i],
                        path_text(p.root),
                        EntryKind::PackageCache,
                        EvidenceTier::Exact,
                        "go.sum"@,
                        key.name + " "@ + key.version,
                    ),
            )
        }
}

fn put_module_claims(
    project: &Project,
    env: &ResolveEnv,
    key: &Key,
    disk: &mut Disk,
    out: &mut Vec<Claim>,
)
    requires
        old(disk).wf(),
    ensures
        final(disk).asked(*old(disk)),
        final(disk).holds() ==> final(out).deep_view() == old(out).deep_view() + module_claims(
            project@,
            env@,
            old(disk)@,
        )(key@),
{
    let ghost was = out.deep_view();
    let ghost want = module_claims(project@, env@, disk@)(key@);
    let owner = project.root.text();
    let label = cat3(key.name.as_str(), " ", key.version.as_str());
    let paths = go_module_cache(key, env, disk);
    let ghost ps = paths.deep_view();
    let mut i: usize = 0;
    assert(out.deep_view() =~= was + want.take(0));
    assert(ps.len() == paths.len());
    while i < paths.len()
        invariant
            i <= paths.len(),
            ps == paths.deep_view(),
            disk.asked(*old(disk)),
            owner@ == path_text(project@.root),
            label@ == key@.name + " "@ + key@.version,
            disk.holds() ==> want.len() == paths.len(),
            disk.holds() ==> want == Seq::new(
                ps.len(),
                |i: int|
                    own(
                        ps[i],
                        path_text(project@.root),
                        EntryKind::PackageCache,
                        EvidenceTier::Exact,
                        "go.sum"@,
                        key@.name + " "@ + key@.version,
                    ),
            ),
            disk.holds() ==> out.deep_view() == was + want.take(i as int),
        decreases paths.len() - i,
    {
        assert(ps[i as int] == paths@[i as int]@);
        put(
            out,
            own_claim(
                paths[i].copy(),
                owner.as_str(),
                EntryKind::PackageCache,
                EvidenceTier::Exact,
                "go.sum",
                label.as_str(),
            ),
        );
        assert(disk.holds() ==> out.deep_view() =~= was + want.take(i + 1));
        i = i + 1;
    }
    assert(disk.holds() ==> want.take(i as int) =~= want);
}

/// The claims of a project on the modules that its `go.sum` names.
pub open spec fn go_claims(p: ProjectView, env: EnvView, disk: DiskView) -> Seq<ClaimView> {
    match disk.head(child(p.root, "go.sum"@), MAX_GO_SUM_BYTES) {
        Some(text) => all_tagged(
            flat(go_modules(lines(text)), module_claims(p, env, disk)),
            "go"@,
        ),
        None => seq![],
    }
}

/// The claims of a project on what the module cache keeps of the modules that its `go.sum` names.
pub fn resolve(project: &Project, env: &ResolveEnv, disk: &mut Disk) -> (r: Vec<Claim>)
    requires
        old(disk).wf(),
    ensures
        final(disk).asked(*old(disk)),
        final(disk).holds() ==> r.deep_view() == go_claims(project@, env@, old(disk)@),
{
    let ghost facts = disk@;
    let mut out: Vec<Claim> = Vec::new();
    let text = match env.read_head(disk, &project.root.child("go.sum"), MAX_GO_SUM_BYTES) {
        Some(t) => t,
        None => {
            assert(out.deep_view() =~= seq![]);
            return out;
        },
    };
    let keys = go_sum(text.as_str());
    let ghost all = keys.deep_view();
    let ghost f = module_claims(project@, env@, facts);
    let mut i: usize = 0;
    proof {
        lemma_flat_start(all, f);
        assert(out.deep_view() =~= flat(all.take(0), f));
    }
    let ghost start = *disk;
    while i < keys.len()
        invariant
            i <= keys.len(),
            all == keys.deep_view(),
            facts == old(disk)@,
            disk.asked(*old(disk)),
            disk.holds() ==> start.holds(),
            f == module_claims(project@, env@, facts),
            disk.holds() ==> out.deep_view() == flat(all.take(i as int), f),
        decreases keys.len() - i,
    {
        proof {
            assert(all[i as int] == keys@[i as int]@);
            lemma_flat_step(all, f, i as int);
        }
        put_module_claims(project, env, &keys[i], disk, &mut out);
        i = i + 1;
    }
    assert(all.take(i as int) =~= all);
    tag_all(out, "go")
}

/// The claim on the build cache.
pub fn baseline(env: &ResolveEnv, disk: &mut Disk) -> (r: Vec<Claim>)
    requires
        old(disk).wf(),
    ensures
        final(disk).asked(*old(disk)),
        final(disk).holds() ==> r.deep_view() == seq![
            Place { rel: "Library/Caches/go-build", kind: EntryKind::Cache, label: "go-build" },
        ].filter_map(place_claim(old(disk)@, env@.home, "Go build cache"@, "go"@)),
{
    let places = vec![
        Place { rel: "Library/Caches/go-build", kind: EntryKind::Cache, label: "go-build" },
    ];
    assert(places@ =~= seq![
        Place { rel: "Library/Caches/go-build", kind: EntryKind::Cache, label: "go-build" },
    ]);
    place_claims(&places, &env.home, "Go build cache", "go", disk)
}

} // verus!
