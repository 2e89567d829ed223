//! Caches that are named after a project or after one of its bundle ids.

use vstd::prelude::*;

use crate::attribution::apps::candidates::{dirs_in, tree_child_names};
use crate::attribution::model::{
    put, Claim, ClaimView, EntryKind, EnvView, EvidenceTier, ResolveEnv,
};
use crate::attribution::projects::{Project, ProjectView};
use crate::disk::{Disk, DiskView};
use crate::fspath::{child, path_text};
use crate::order::{insert_key, sorted_keys};
use crate::scan::TreeView;
use crate::seqs::{flat, lemma_filter_map_start, lemma_flat_start, lemma_flat_step};
use crate::text::{cat2, cat3, chars_of, lower_text, lowered, string_of};

use super::common::{own, own_claim};
use super::derive::{
    cache_parent_dirs, cache_parents, is_generic, name_variants, telling_name, variants_of,
};

verus! {

broadcast use crate::disk::group_asks;

/// Whether a name is a form of one of the project's names that says enough.
pub open spec fn is_candidate(names: Seq<Seq<char>>, x: Seq<char>) -> bool {
    exists|i: int|
        0 <= i < names.len() && telling_name(#[trigger] names[i]) && name_variants(
            names[i],
        ).contains(x)
}

/// The forms of the project's names that say enough, in their order, each once.
pub fn candidate_project_names(project: &Project) -> (r: Vec<String>)
    ensures
        sorted_keys(r.deep_view()),
        forall|x: Seq<char>| #[trigger]
            r.deep_view().contains(x) <==> is_candidate(project@.names, x),
{
    let ghost all = project@.names;
    let mut out: Vec<String> = Vec::new();
    let mut i: usize = 0;
    while i < project.names.len()
        invariant
            i <= project.names.len(),
            all == project@.names,
            sorted_keys(out.deep_view()),
            forall|x: Seq<char>| #[trigger]
                out.deep_view().contains(x) <==> is_candidate(all.take(i as int), x),
        decreases project.names.len() - i,
    {
        let ghost before = out.deep_view();
        let ghost name = project.names@[i as int]@;
        assert(all[i as int] == name);
        let c = chars_of(project.names[i].as_str());
        let l = string_of(lower_text(c.as_slice()).as_slice());
        let ghost vs = name_variants(name);
        if l.as_str().len() >= 4 && !is_generic(l.as_str()) {
            let variants = variants_of(project.names[i].as_str());
            let mut k: usize = 0;
            while k < variants.len()
                invariant
                    k <= variants.len(),
                    vs == variants.deep_view(),
                    sorted_keys(out.deep_view()),
                    forall|x: Seq<char>| #[trigger]
                        out.deep_view().contains(x) <==> before.contains(x) || exists|j: int|
                            0 <= j < k && #[trigger] vs[j] == x,
                decreases variants.len() - k,
            {
                let ghost was = out.deep_view();
                assert(vs[k as int] == variants@[k as int]@);
                insert_key(&mut out, variants[k].as_str());
                assert forall|x: Seq<char>| #[trigger] out.deep_view().contains(x)
                    <==> before.contains(x) || exists|j: int|
                    0 <= j < k + 1 && #[trigger] vs[j] == x by {
                    assert(out.deep_view().contains(x) <==> out.deep_view().to_set().contains(x));
                    assert(was.contains(x) <==> was.to_set().contains(x));
                    if exists|j: int| 0 <= j < k && #[trigger] vs[j] == x {
                        let j = choose|j: int| 0 <= j < k && #[trigger] vs[j] == x;
                        assert(0 <= j < k + 1 && vs[j] == x);
                    }
                    if x == vs[k as int] {
                        assert(0 <= k < k + 1 && vs[k as int] == x);
                    }
                    if exists|j: int| 0 <= j < k + 1 && #[trigger] vs[j] == x {
                        let j = choose|j: int| 0 <= j < k + 1 && #[trigger] vs[j] == x;
                        if j < k {
                            assert(0 <= j < k && vs[j] == x);
                        }
                    }
                }
                k = k + 1;
            }
        }
        assert forall|x: Seq<char>| #[trigger] out.deep_view().contains(x) <==> is_candidate(
            all.take(i + 1),
            x,
        ) by {
            lemma_candidate_step(all, i as int, x);
            if telling_name(name) {
                assert(vs.contains(x) <==> exists|j: int| 0 <= j < vs.len() && #[trigger] vs[j]
                    == x);
            }
        }
        i = i + 1;
    }
    assert(all.take(i as int) =~= all);
    out
}

proof fn lemma_candidate_step(names: Seq<Seq<char>>, i: int, x: Seq<char>)
    requires
        0 <= i < names.len(),
    ensures
        is_candidate(names.take(i + 1), x) <==> is_candidate(names.take(i), x) || (telling_name(
            names[i],
        ) && name_variants(names[i]).contains(x)),
{
    let s = names.take(i + 1);
    let t = names.take(i);
    if is_candidate(s, x) {
        let j = choose|j: int|
            0 <= j < s.len() && telling_name(#[trigger] s[j]) && name_variants(s[j]).contains(x);
        if j < i {
            assert(t[j] == s[j]);
        }
    }
    if is_candidate(t, x) {
        let j = choose|j: int|
            0 <= j < t.len() && telling_name(#[trigger] t[j]) && name_variants(t[j]).contains(x);
        assert(s[j] == t[j]);
    }
    if telling_name(names[i]) && name_variants(names[i]).contains(x) {
        assert(s[i] == names[i]);
    }
}

/// The candidate that a directory is called after; the case of letters does not matter.
pub fn matches_any_name<'a>(child_name: &str, candidates: &'a Vec<String>) -> (r: Option<&'a str>)
    ensures
        r is Some <==> candidates.deep_view().contains(lowered(child_name@)),
        r is Some ==> r->0@ == lowered(child_name@),
{
    let c = chars_of(child_name);
    let l = string_of(lower_text(c.as_slice()).as_slice());
    let mut i: usize = 0;
    while i < candidates.len()
        invariant
            i <= candidates.len(),
            l@ == lowered(child_name@),
            forall|j: int| 0 <= j < i ==> #[trigger] candidates.deep_view()[j] != l@,
        decreases candidates.len() - i,
    {
        assert(candidates.deep_view()[i as int] == candidates@[i as int]@);
        if crate::text::same(candidates[i].as_str(), l.as_str()) {
            return Some(candidates[i].as_str());
        }
        i = i + 1;
    }
    None
}

/// The claim on a directory that is called after the project.
pub open spec fn cache_claim(p: ProjectView, parent: Seq<Seq<char>>) -> spec_fn(
    Seq<char>,
) -> Option<ClaimView> {
    |n: Seq<char>|
        if is_candidate(p.names, lowered(n)) {
            Some(
                own(
                    child(parent, n),
                    path_text(p.root),
                    EntryKind::ProjectCache,
                    EvidenceTier::NameMatch,
                    "named after project ("@ + lowered(n) + ")"@,
                    n,
                ),
            )
        } else {
            None
        }
}

/// The claims on the directories in one place that are called after the project.
pub open spec fn cache_claims_in(p: ProjectView, trees: Seq<TreeView>, home: Seq<Seq<char>>) -> spec_fn(
    Seq<char>,
) -> Seq<ClaimView> {
    |rel: Seq<char>|
        dirs_in(trees, child(home, rel)).filter_map(cache_claim(p, child(home, rel)))
}

fn put_cache_claims(
    project: &Project,
    env: &ResolveEnv,
    rel: &str,
    candidates: &Vec<String>,
    out: &mut Vec<Claim>,
)
    requires
        forall|x: Seq<char>| #[trigger]
            candidates.deep_view().contains(x) <==> is_candidate(project@.names, x),
    ensures
        final(out).deep_view() == old(out).deep_view() + cache_claims_in(
            project@,
            env@.trees,
            env@.home,
        )(rel@),
{
    let ghost was = out.deep_view();
    let owner = project.root.text();
    let parent = env.home.child(rel);
    let names = tree_child_names(&env.trees, &parent);
    let ghost all = names.deep_view();
    let ghost pick = cache_claim(project@, parent@);
    let mut i: usize = 0;
    proof {
        lemma_filter_map_start(all, pick);
        assert(out.deep_view() =~= was + all.take(0).filter_map(pick));
    }
    while i < names.len()
        invariant
            i <= names.len(),
            all == names.deep_view(),
            owner@ == path_text(project@.root),
            pick == cache_claim(project@, parent@),
            forall|x: Seq<char>| #[trigger]
                candidates.deep_view().contains(x) <==> is_candidate(project@.names, x),
            out.deep_view() == was + all.take(i as int).filter_map(pick),
        decreases names.len() - i,
    {
        proof {
            assert(all[i as int] == names@[i as int]@);
            all.lemma_filter_map_take_succ(pick, i as int);
        }
        let name = names[i].as_str();
        assert(candidates.deep_view().contains(lowered(name@)) <==> is_candidate(
            project@.names,
            lowered(name@),
        ));
        if let Some(matched) = matches_any_name(name, candidates) {
            put(
                out,
                own_claim(
                    parent.child(name),
                    owner.as_str(),
                    EntryKind::ProjectCache,
                    EvidenceTier::NameMatch,
                    cat3("named after project (", matched, ")").as_str(),
                    name,
                ),
            );
        }
        assert(out.deep_view() =~= was + all.take(i + 1).filter_map(pick));
        i = i + 1;
    }
    assert(all.take(i as int) =~= all);
}

/// Where something of a bundle id may lie in the home directory, and what it is.
pub open spec fn bundle_places(id: Seq<char>) -> Seq<(Seq<char>, EntryKind)> {
    seq![
        ("Library/Containers/"@ + id, EntryKind::Container),
        ("Library/Caches/"@ + id, EntryKind::Cache),
        ("Library/HTTPStorages/"@ + id, EntryKind::WebData),
        ("Library/Preferences/"@ + id + ".plist"@, EntryKind::Preferences),
        ("Library/WebKit/"@ + id, EntryKind::WebData),
        ("Library/Saved Application State/"@ + id + ".savedState"@, EntryKind::SavedState),
    ]
}

/// Places, as values.
pub open spec fn place_views(s: Seq<(String, EntryKind)>) -> Seq<(Seq<char>, EntryKind)> {
    Seq::new(s.len(), |i: int| (s[i].0@, s[i].1))
}

/// Where something of a bundle id may lie in the home directory, and what it is.
pub fn bundle_id_targets(bundle_id: &str) -> (r: Vec<(String, EntryKind)>)
    ensures
        place_views(r@) == bundle_places(bundle_id@),
{
    let mut out: Vec<(String, EntryKind)> = Vec::new();
    out.push((cat2("Library/Containers/", bundle_id), EntryKind::Container));
    out.push((cat2("Library/Caches/", bundle_id), EntryKind::Cache));
    out.push((cat2("Library/HTTPStorages/", bundle_id), EntryKind::WebData));
    out.push((cat3("Library/Preferences/", bundle_id, ".plist"), EntryKind::Preferences));
    out.push((cat2("Library/WebKit/", bundle_id), EntryKind::WebData));
    out.push(
        (
            cat3("Library/Saved Application State/", bundle_id, ".savedState"),
            EntryKind::SavedState,
        ),
    );
    assert(place_views(out@) =~= bundle_places(bundle_id@));
    out
}

/// The claim on a place of a bundle id, where something is there.
pub open spec fn bundle_claim(p: ProjectView, id: Seq<char>, home: Seq<Seq<char>>, disk: DiskView) -> spec_fn(
    (Seq<char>, EntryKind),
) -> Option<ClaimView> {
    |x: (Seq<char>, EntryKind)|
        if disk.present(child(home, x.0)) {
            Some(
                own(
                    child(home, x.0),
                    path_text(p.root),
                    x.1,
                    EvidenceTier::Exact,
                    "bundle id from project.pbxproj"@,
                    id,
                ),
            )
        } else {
            None
        }
}

/// The claims on the places of a bundle id.
pub open spec fn bundle_claims(p: ProjectView, home: Seq<Seq<char>>, disk: DiskView) -> spec_fn(
    Seq<char>,
) -> Seq<ClaimView> {
    |id: Seq<char>| bundle_places(id).filter_map(bundle_claim(p, id, home, disk))
}

fn put_bundle_claims(
    project: &Project,
    env: &ResolveEnv,
    id: &str,
    disk: &mut Disk,
    out: &mut Vec<Claim>,
)
    requires
        old(disk).wf(),
    ensures
        final(disk).asked(*old(disk)),
        final(disk).holds() ==> final(out).deep_view() == old(out).deep_view() + bundle_claims(
            project@,
            env@.home,
            old(disk)@,
        )(id@),
{
    let ghost facts = disk@;
    let ghost was = out.deep_view();
    let owner = project.root.text();
    let places = bundle_id_targets(id);
    let ghost all = place_views(places@);
    let ghost pick = bundle_claim(project@, id@, env@.home, facts);
    let mut i: usize = 0;
    proof {
        lemma_filter_map_start(all, pick);
        assert(out.deep_view() =~= was + all.take(0).filter_map(pick));
    }
    while i < places.len()
        invariant
            i <= places.len(),
            all == place_views(places@),
            facts == old(disk)@,
            disk.asked(*old(disk)),
            owner@ == path_text(project@.root),
            pick == bundle_claim(project@, id@, env@.home, facts),
            disk.holds() ==> out.deep_view() == was + all.take(i as int).filter_map(pick),
        decreases places.len() - i,
    {
        proof {
            assert(all[i as int] == (places@[i as int].0@, places@[i as int].1));
            all.lemma_filter_map_take_succ(pick, i as int);
        }
        let path = env.home.child(places[i].0.as_str());
        if disk.present(&path) {
            put(
                out,
                own_claim(
                    path,
                    owner.as_str(),
                    places[i].1,
                    EvidenceTier::Exact,
                    "bundle id from project.pbxproj",
                    id,
                ),
            );
        }
        assert(disk.holds() ==> out.deep_view() =~= was + all.take(i + 1).filter_map(pick));
        i = i + 1;
    }
    assert(all.take(i as int) =~= all);
}

/// The claims of a project on caches that are called after it or after its bundle ids.
pub open spec fn named_claims(p: ProjectView, env: EnvView, disk: DiskView) -> Seq<ClaimView> {
    flat(cache_parents(), cache_claims_in(p, env.trees, env.home)) + flat(
        p.bundle_ids,
        bundle_claims(p, env.home, disk),
    )
}

/// The claims of a project on caches that are called after it, and on what lies under its bundle
/// ids.
pub fn resolve(project: &Project, env: &ResolveEnv, disk: &mut Disk) -> (r: Vec<Claim>)
    requires
        old(disk).wf(),
    ensures
        final(disk).asked(*old(disk)),
        final(disk).holds() ==> r.deep_view() == named_claims(project@, env@, old(disk)@),
{
    let ghost facts = disk@;
    let candidates = candidate_project_names(project);
    let parents = cache_parent_dirs();
    let ghost ps = parents.deep_view();
    let ghost f = cache_claims_in(project@, env@.trees, env@.home);
    let mut out: Vec<Claim> = Vec::new();
    let mut i: usize = 0;
    proof {
        lemma_flat_start(ps, f);
        assert(out.deep_view() =~= flat(ps.take(0), f));
    }
    while i < parents.len()
        invariant
            i <= parents.len(),
            ps == parents.deep_view(),
            disk.asked(*old(disk)),
            f == cache_claims_in(project@, env@.trees, env@.home),
            forall|x: Seq<char>| #[trigger]
                candidates.deep_view().contains(x) <==> is_candidate(project@.names, x),
            disk.holds() ==> out.deep_view() == flat(ps.take(i as int), f),
        decreases parents.len() - i,
    {
        proof {
            assert(ps[i as int] == parents@[i as int]@);
            lemma_flat_step(ps, f, i as int);
        }
        put_cache_claims(project, env, parents[i], &candidates, &mut out);
        i = i + 1;
    }
    assert(ps.take(i as int) =~= ps);
    let ghost first = out.deep_view();
    let ghost ids = project@.bundle_ids;
    let ghost g = bundle_claims(project@, env@.home, facts);
    let mut k: usize = 0;
    proof {
        lemma_flat_start(ids, g);
        assert(out.deep_view() =~= first + flat(ids.take(0), g));
    }
    while k < project.bundle_ids.len()
        invariant
            k <= project.bundle_ids.len(),
            ids == project@.bundle_ids,
            facts == old(disk)@,
            disk.asked(*old(disk)),
            g == bundle_claims(project@, env@.home, facts),
            disk.holds() ==> out.deep_view() == first + flat(ids.take(k as int), g),
        decreases project.bundle_ids.len() - k,
    {
        proof {
            assert(ids[k as int] == project.bundle_ids@[k as int]@);
            lemma_flat_step(ids, g, k as int);
        }
        let ghost before = out.deep_view();
        put_bundle_claims(project, env, project.bundle_ids[k].as_str(), disk, &mut out);
        assert(disk.holds() ==> out.deep_view() =~= first + flat(ids.take(k + 1), g));
        k = k + 1;
    }
    assert(ids.take(k as int) =~= ids);
    out
}

} // verus!
