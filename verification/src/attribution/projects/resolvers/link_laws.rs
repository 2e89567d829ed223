//! What holds of the rules that lead from what lies in the home directory to the projects that it
//! belongs to.

use vstd::prelude::*;

use crate::attribution::model::{ClaimView, EnvView, EvidenceTier};
use crate::attribution::paths::{canonical, uri_target};
use crate::attribution::projects::{
    holds_in, in_project, law_owner_has_the_deepest_checkout, owner_in, ProjectView,
};
use crate::disk::{DiskView, NodeKind, Stat};
use crate::doc::{field, json_document, plist_document, DocView};
use crate::fspath::{child, file_name, is_absolute, path_of, path_text, under};
use crate::scan::{FindingKind, FindingView, ScannerId};
use crate::seqs::{flat, lemma_first_given, lemma_in_flat, lemma_picked};
use crate::text::starts;

use super::claim_laws::lies_in;
use super::derive::ExtractedView;
use super::links::{
    bundle_id_of, claims_of_link, dirs_at_depth, encoded_project, entry_claims, extracted, has_root,
    link_target, linked_projects, named_claims, normal_path, project_of_id, scanned, scanned_dir,
    scanned_in, symlink_claims, value_under, with_cache_finding, with_cache_findings,
};
use super::parsers::encoded_dir;
use super::rules::{reverse_table, ClaimAt, ExtractView, Matcher, ReverseLinkView};
use super::common_claims;

verus! {

/// Whether a claim is made by a rule on what it claims for an entry.
pub open spec fn by_link(c: ClaimView, row: ReverseLinkView, entry: Seq<Seq<char>>) -> bool {
    &&& c.kind == row.kind
    &&& row.claim == ClaimAt::Entry ==> c.path == entry
    &&& row.claim == ClaimAt::Parent && entry.len() > 1 && entry.last() != crate::fspath::root()
        ==> c.path == entry.drop_last()
    &&& !c.baseline && !c.clone_of_store && !c.virtual_bytes && c.raw_bytes_override is None
}

/// Whether a project has a checkout around a path, and no project has a deeper one.
pub open spec fn deepest_around(ps: Seq<ProjectView>, p: ProjectView, at: Seq<Seq<char>>) -> bool {
    exists|c: Seq<Seq<char>>| #[trigger]
        c.is_prefix_of(at) && (c == p.root || p.worktrees.contains(c)) && forall|
            i: int,
            d: Seq<Seq<char>>,
        |
            0 <= i < ps.len() && #[trigger] d.is_prefix_of(at) && ((#[trigger] ps[i]).root == d
                || ps[i].worktrees.contains(d)) ==> d.len() <= c.len()
}

proof fn lemma_prefix(p: Seq<Seq<char>>, base: Seq<Seq<char>>)
    ensures
        under(p, base) <==> base.is_prefix_of(p),
{
    if base.is_prefix_of(p) {
        assert(p.take(base.len() as int) =~= base);
    }
    if under(p, base) {
        assert(p.subrange(0, base.len() as int) =~= p.take(base.len() as int));
    }
}

/// What names a path is the project's with the deepest checkout around that path. Where the path is
/// gone, and the rule says what then holds, the claim is stale; and where no project has a checkout
/// around a path that is gone, nobody is said to own what names it.
pub proof fn law_what_names_a_path_is_the_projects(
    row: ReverseLinkView,
    entry: Seq<Seq<char>>,
    x: ExtractedView,
    ps: Seq<ProjectView>,
    disk: DiskView,
)
    requires
        row.matcher == Matcher::PathUnderProject,
    ensures
        ({
            let at = canonical(x.path);
            let gone = row.stale is Some && disk.stat(at) == Stat::Absent;
            let r = named_claims(row, entry, Some(x), ps, disk);
            if exists|i: int| 0 <= i < ps.len() && lies_in(#[trigger] ps[i], at) {
                &&& r.len() == 1
                &&& by_link(r[0], row, entry)
                &&& r[0].stale <==> gone
                &&& r[0].tier == row.tier
                &&& exists|i: int|
                    0 <= i < ps.len() && r[0].owner == path_text((#[trigger] ps[i]).root)
                        && deepest_around(ps, ps[i], at)
            } else if gone {
                r.len() == 1 && by_link(r[0], row, entry) && r[0].stale && r[0].owner
                    == "unattributed"@ && r[0].tier == EvidenceTier::Observed
            } else {
                r.len() == 0
            }
        }),
{
    let at = canonical(x.path);
    law_owner_has_the_deepest_checkout(ps, at);
    assert forall|i: int| 0 <= i < ps.len() implies (lies_in(#[trigger] ps[i], at) <==> in_project(
        ps[i],
        at,
    )) by {
        lemma_lies(ps[i], at);
    }
    let r = named_claims(row, entry, Some(x), ps, disk);
    if exists|i: int| 0 <= i < ps.len() && lies_in(#[trigger] ps[i], at) {
        let i = choose|i: int| 0 <= i < ps.len() && lies_in(#[trigger] ps[i], at);
        assert(in_project(ps[i], at));
        let o = owner_in(ps, at)->0;
        let n = choose|n: int| 0 <= n < ps.len() && ps[n] == o;
        let c = choose|c: Seq<Seq<char>>|
            #[trigger] holds_in(o, c, at) && forall|i: int, d: Seq<Seq<char>>|
                0 <= i < ps.len() && #[trigger] holds_in(ps[i], d, at) ==> d.len() <= c.len();
        lemma_prefix(at, c);
        assert(c.is_prefix_of(at));
        assert forall|i: int, d: Seq<Seq<char>>|
            0 <= i < ps.len() && #[trigger] d.is_prefix_of(at) && ((#[trigger] ps[i]).root == d
                || ps[i].worktrees.contains(d)) implies d.len() <= c.len() by {
            lemma_prefix(at, d);
            assert(holds_in(ps[i], d, at));
        }
        assert(deepest_around(ps, ps[n], at));
        assert(r[0].owner == path_text(ps[n].root));
    }
}

/// The checkouts of a project, written with prefixes.
pub proof fn lemma_lies(p: ProjectView, at: Seq<Seq<char>>)
    ensures
        in_project(p, at) <==> lies_in(p, at),
{
    lemma_prefix(at, p.root);
    if lies_in(p, at) && !p.root.is_prefix_of(at) {
        let i = choose|i: int|
            0 <= i < p.worktrees.len() && (#[trigger] p.worktrees[i]).is_prefix_of(at);
        lemma_prefix(at, p.worktrees[i]);
    }
    if in_project(p, at) && !under(at, p.root) {
        let i = choose|i: int| 0 <= i < p.worktrees.len() && under(at, #[trigger] p.worktrees[i]);
        lemma_prefix(at, p.worktrees[i]);
    }
}

/// Each entry that a rule comes to is followed, and what it claims is among the claims that are made
/// once.
pub proof fn law_every_entry_of_a_rule_is_followed(
    env: EnvView,
    disk: DiskView,
    ps: Seq<ProjectView>,
    n: int,
    i: int,
    k: int,
)
    requires
        0 <= n < reverse_table(env.agent).len(),
        !(reverse_table(env.agent)[n].extract is SymlinkTargets),
        0 <= i < scanned(reverse_table(env.agent)[n].scan, disk, env.home).len(),
        ({
            let row = reverse_table(env.agent)[n];
            let entry = scanned(row.scan, disk, env.home)[i];
            0 <= k < named_claims(
                row,
                entry,
                extracted(row.extract, entry, disk),
                ps,
                disk,
            ).len()
        }),
    ensures
        ({
            let row = reverse_table(env.agent)[n];
            let entry = scanned(row.scan, disk, env.home)[i];
            let c = named_claims(row, entry, extracted(row.extract, entry, disk), ps, disk)[k];
            exists|j: int|
                0 <= j < common_claims(ps, env, disk).len() && (
                #[trigger] common_claims(ps, env, disk)[j]).path == c.path && common_claims(
                    ps,
                    env,
                    disk,
                )[j].owner == c.owner && common_claims(ps, env, disk)[j].kind == c.kind
                    && common_claims(ps, env, disk)[j].tier == c.tier && common_claims(
                    ps,
                    env,
                    disk,
                )[j].stale == c.stale
        }),
{
    let rows = reverse_table(env.agent);
    let row = rows[n];
    let es = scanned(row.scan, disk, env.home);
    let f = entry_claims(row, ps, disk);
    let j1 = lemma_in_flat(es, f, i, k);
    let g = claims_of_link(ps, env.home, disk);
    assert(g(row) == flat(es, f));
    let j2 = lemma_in_flat(rows, g, n, j1);
    let all = flat(rows, g);
    let fs = env.findings(ScannerId::Fs);
    let with = with_cache_findings(all, fs);
    assert(with[j2] == with_cache_finding(all[j2], fs));
    assert(common_claims(ps, env, disk)[j2] == with[j2]);
}

/// A rule over directories comes to every directory in its roots, one level down, but for those that it
/// skips.
pub proof fn law_a_rule_comes_to_every_directory(
    disk: DiskView,
    skip: Seq<&'static str>,
    roots: Seq<Seq<Seq<char>>>,
    i: int,
    e: int,
)
    requires
        0 <= i < roots.len(),
        disk.list(roots[i]) is Some,
        0 <= e < disk.list(roots[i])->0.len(),
        disk.list(roots[i])->0[e].1 == NodeKind::Dir,
        forall|s: int|
            0 <= s < skip.len() ==> (#[trigger] skip[s])@ != disk.list(roots[i])->0[e].0,
    ensures
        dirs_at_depth(disk, skip, roots, 1).contains(
            child(roots[i], disk.list(roots[i])->0[e].0),
        ),
        dirs_at_depth(disk, skip, roots, 0) == roots,
{
    let l = disk.list(roots[i])->0;
    let pick = scanned_dir(skip, roots[i]);
    let k = lemma_picked(l, pick, e);
    let f = scanned_in(disk, skip);
    assert(f(roots[i]) == l.filter_map(pick));
    let j = lemma_in_flat(roots, f, i, k);
    reveal_with_fuel(dirs_at_depth, 2);
    assert(dirs_at_depth(disk, skip, roots, 1)[j] == child(roots[i], l[e].0));
}

/// What bears a bundle id is the first project's that has this id, or one that it starts with at a dot.
pub proof fn law_what_bears_a_bundle_id_is_the_projects(
    row: ReverseLinkView,
    entry: Seq<Seq<char>>,
    x: ExtractedView,
    ps: Seq<ProjectView>,
    disk: DiskView,
    n: int,
    b: int,
)
    requires
        row.matcher == Matcher::BundleId,
        0 <= n < ps.len(),
        0 <= b < ps[n].bundle_ids.len(),
        x.text == ps[n].bundle_ids[b] || (ps[n].bundle_ids[b] + seq!['.']).is_prefix_of(x.text),
        forall|m: int|
            0 <= m < n ==> forall|k: int|
                0 <= k < (#[trigger] ps[m]).bundle_ids.len() ==> x.text != (
                #[trigger] ps[m].bundle_ids[k]) && !(ps[m].bundle_ids[k] + seq!['.']).is_prefix_of(
                    x.text,
                ),
    ensures
        ({
            let r = named_claims(row, entry, Some(x), ps, disk);
            r.len() == 1 && by_link(r[0], row, entry) && r[0].owner == path_text(ps[n].root)
                && r[0].tier == row.tier && !r[0].stale
        }),
{
    reveal_strlit(".");
    assert("."@ =~= seq!['.']);
    let f = project_of_id(x.text);
    assert(bundle_id_of(ps[n].bundle_ids, x.text)) by {
        let id = ps[n].bundle_ids[b];
        let p = id + "."@;
        if x.text != id {
            assert(x.text.take(p.len() as int) =~= p);
        }
        assert(ps[n].bundle_ids[b] == id);
    }
    assert forall|m: int| 0 <= m < n implies f(#[trigger] ps[m]) is None by {
        if bundle_id_of(ps[m].bundle_ids, x.text) {
            let ids = ps[m].bundle_ids;
            let k = choose|k: int|
                0 <= k < ids.len() && (x.text == #[trigger] ids[k] || crate::text::starts(
                    x.text,
                    ids[k] + "."@,
                ));
            assert(ps[m].bundle_ids[k] == ids[k]);
            let p = ids[k] + "."@;
            if crate::text::starts(x.text, p) {
                assert(x.text.subrange(0, p.len() as int) =~= x.text.take(p.len() as int));
                assert((ids[k] + seq!['.']).is_prefix_of(x.text));
            }
        }
    }
    lemma_first_given(ps, f, n);
}

/// What an entry names: the path under a key of its property list, or under the first key of its document
/// that is there.
pub proof fn law_what_an_entry_names(
    entry: Seq<Seq<char>>,
    disk: DiskView,
    file: &'static str,
    key: &'static str,
    keys: Seq<&'static str>,
    k: int,
    text: Seq<char>,
    s: Seq<char>,
)
    ensures
        disk.bytes(child(entry, file@)) is Some && plist_document(
            disk.bytes(child(entry, file@))->0,
        ) is Some && field(plist_document(disk.bytes(child(entry, file@))->0)->0, key@) == Some(
            DocView::Text(s),
        ) ==> extracted(ExtractView::PlistKey { file, key }, entry, disk) is Some && extracted(
            ExtractView::PlistKey { file, key },
            entry,
            disk,
        )->0.path == path_of(s),
        disk.head(child(entry, file@), 262144) == Some(text) && json_document(text) is Some && 0 <= k
            < keys.len() && field(json_document(text)->0, keys[k]@) == Some(DocView::Text(s)) && (
        forall|i: int|
            0 <= i < k ==> field(json_document(text)->0, (#[trigger] keys[i])@) is None)
            && uri_target(s) is Some ==> extracted(
            ExtractView::JsonUri { file, keys },
            entry,
            disk,
        ) is Some && extracted(ExtractView::JsonUri { file, keys }, entry, disk)->0.path
            == uri_target(s)->0,
{
    if disk.head(child(entry, file@), 262144) == Some(text) && json_document(text) is Some && 0 <= k
        < keys.len() && field(json_document(text)->0, keys[k]@) == Some(DocView::Text(s)) && (
    forall|i: int| 0 <= i < k ==> field(json_document(text)->0, (#[trigger] keys[i])@) is None)
        && uri_target(s) is Some {
        let d = json_document(text)->0;
        let f = value_under(d);
        assert forall|i: int| 0 <= i < k implies f(#[trigger] keys[i]) is None by {
            assert(field(d, keys[i]@) is None);
        }
        lemma_first_given(keys, f, k);
    }
}

/// An entry that names nothing is known by its own name, where the rule says so: it belongs to the first
/// project whose encoded root it is called after.
pub proof fn law_encoded_names(
    row: ReverseLinkView,
    entry: Seq<Seq<char>>,
    ps: Seq<ProjectView>,
    disk: DiskView,
    name: Seq<char>,
    i: int,
)
    requires
        row.matcher == Matcher::PathUnderProject,
        row.fallback is Some,
        file_name(entry) == Some(name),
        0 <= i < ps.len(),
        name == encoded_dir(ps[i].root) || (encoded_dir(ps[i].root) + "-"@).is_prefix_of(name),
        forall|j: int|
            0 <= j < i ==> name != encoded_dir((#[trigger] ps[j]).root) && !(encoded_dir(ps[j].root)
                + "-"@).is_prefix_of(name),
    ensures
        ({
            let r = named_claims(row, entry, None, ps, disk);
            &&& r.len() == 1
            &&& r[0].owner == path_text(ps[i].root)
            &&& r[0].tier == EvidenceTier::NameMatch
            &&& r[0].kind == row.kind
            &&& !r[0].stale
        }),
{
    let f = encoded_project(name);
    let want = encoded_dir(ps[i].root) + "-"@;
    if name != encoded_dir(ps[i].root) {
        assert(name.take(want.len() as int) =~= want);
    }
    assert forall|j: int| 0 <= j < i implies f(#[trigger] ps[j]) is None by {
        let w = encoded_dir(ps[j].root) + "-"@;
        if starts(name, w) {
            assert(name.subrange(0, w.len() as int) =~= name.take(w.len() as int));
        }
    }
    lemma_first_given(ps, f, i);
}

proof fn lemma_linked(
    disk: DiskView,
    dir: Seq<Seq<char>>,
    entries: Seq<(Seq<char>, NodeKind)>,
    ps: Seq<ProjectView>,
    e: int,
    target: Seq<Seq<char>>,
    p: ProjectView,
) -> (j: int)
    requires
        0 <= e < entries.len(),
        disk.link(child(dir, entries[e].0)) == Some(target),
        owner_in(ps, link_target(dir, entries[e].0, target)) == Some(p),
    ensures
        0 <= j < linked_projects(disk, dir, entries, ps).len(),
        linked_projects(disk, dir, entries, ps)[j].root == p.root,
    decreases entries.len(),
{
    let f = entries.drop_last();
    let before = linked_projects(disk, dir, f, ps);
    let all = linked_projects(disk, dir, entries, ps);
    if e < f.len() {
        assert(f[e] == entries[e]);
        let j = lemma_linked(disk, dir, f, ps, e, target, p);
        assert(all[j] == before[j]);
        j
    } else if has_root(before, p.root) {
        choose|j: int| 0 <= j < before.len() && (#[trigger] before[j]).root == p.root
    } else {
        before.len() as int
    }
}

/// A store that keeps links to projects is claimed for each project that one of the links leads into.
pub proof fn law_links_lead_to_projects(
    row: ReverseLinkView,
    subdir: Seq<char>,
    ps: Seq<ProjectView>,
    disk: DiskView,
    entry: Seq<Seq<char>>,
    e: int,
    target: Seq<Seq<char>>,
    p: ProjectView,
)
    requires
        subdir.len() > 0,
        disk.list(child(entry, subdir)) is Some,
        0 <= e < disk.list(child(entry, subdir))->0.len(),
        disk.link(child(child(entry, subdir), disk.list(child(entry, subdir))->0[e].0)) == Some(
            target,
        ),
        is_absolute(target),
        owner_in(ps, canonical(normal_path(target))) == Some(p),
    ensures
        exists|j: int|
            0 <= j < symlink_claims(row, subdir, ps, disk)(entry).len() && (#[trigger] symlink_claims(
                row,
                subdir,
                ps,
                disk,
            )(entry)[j]).owner == path_text(p.root) && by_link(
                symlink_claims(row, subdir, ps, disk)(entry)[j],
                row,
                entry,
            ),
{
    let dir = child(entry, subdir);
    let j = lemma_linked(disk, dir, disk.list(dir)->0, ps, e, target, p);
    let r = symlink_claims(row, subdir, ps, disk)(entry);
    assert(r[j].owner == path_text(p.root));
}

/// A claim without a finding gets that of the last cache directory that was found at its path; nothing
/// else of it changes.
pub proof fn law_caches_are_joined_by_path(c: ClaimView, findings: Seq<FindingView>, n: int)
    ensures
        ({
            let r = with_cache_finding(c, findings);
            &&& r == (ClaimView { finding: r.finding, ..c })
            &&& c.finding is Some ==> r.finding == c.finding
            &&& c.finding is None && 0 <= n < findings.len() && findings[n].kind
                == FindingKind::CacheDir && findings[n].path is Some && canonical(
                findings[n].path->0,
            ) == canonical(c.path) && (forall|m: int|
                n < m < findings.len() ==> (#[trigger] findings[m]).kind != FindingKind::CacheDir
                    || findings[m].path is None || canonical(findings[m].path->0) != canonical(
                    c.path,
                )) ==> r.finding == Some(findings[n].id)
        }),
    decreases findings.len(),
{
    if c.finding is None && 0 <= n < findings.len() - 1 {
        law_caches_are_joined_by_path(c, findings.drop_last(), n);
        assert(findings.drop_last()[n] == findings[n]);
        assert(findings[findings.len() - 1] == findings.last());
        assert forall|m: int| n < m < findings.len() - 1 implies findings.drop_last()[m]
            == #[trigger] findings[m] by {}
    }
}

} // verus!
