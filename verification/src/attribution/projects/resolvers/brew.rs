//! Homebrew: the formulae and casks that a project's Brewfile asks for.

use vstd::prelude::*;

use crate::attribution::model::{
    put, Claim, ClaimView, EntryKind, EnvView, EvidenceTier, ResolveEnv,
};
use crate::attribution::projects::{Project, ProjectView};
use crate::disk::{Disk, DiskView};
use crate::fspath::{child, path_text};
use crate::scan::{FindingId, FindingKind, ScannerId};
use crate::seqs::{flat, lemma_flat_start, lemma_flat_step};
use crate::text::{cat2, lines};

use super::apply::{locate_in, located_in, Located};
use super::common::{own, own_claim};
use super::parsers::{brew_line, brewfile, BrewEntryKind};
use super::rules::{PathFrom, MANIFEST_CAP};

verus! {

broadcast use crate::disk::group_asks;

/// The claim on what a line of the Brewfile has installed.
pub open spec fn installed_claim(owner: Seq<char>, kind: EntryKind, name: Seq<char>) -> spec_fn(
    (Seq<Seq<char>>, Option<FindingId>),
) -> ClaimView {
    |l: (Seq<Seq<char>>, Option<FindingId>)|
        own(
            l.0,
            owner,
            kind,
            EvidenceTier::Exact,
            "Brewfile"@,
            "brew "@ + name,
        ).of_finding(l.1->0).tagged("brew"@)
}

/// What a line of the Brewfile has installed.
pub open spec fn installed(env: EnvView, e: (BrewEntryKind, Seq<char>)) -> Seq<
    (Seq<Seq<char>>, Option<FindingId>),
> {
    match e.0 {
        BrewEntryKind::Formula => located_in(
            env.findings(ScannerId::Brew),
            FindingKind::BrewFormula,
            seq!["name"],
            e.1,
            PathFrom::Path,
        ),
        BrewEntryKind::Cask => located_in(
            env.findings(ScannerId::Brew),
            FindingKind::BrewCask,
            seq!["token", "name"],
            e.1,
            PathFrom::AppPaths,
        ),
    }
}

/// What kind of entry a line of the Brewfile gives.
pub open spec fn installed_kind(k: BrewEntryKind) -> EntryKind {
    match k {
        BrewEntryKind::Formula => EntryKind::Toolchain,
        BrewEntryKind::Cask => EntryKind::AppBundle,
    }
}

/// The claims for a line of the Brewfile.
pub open spec fn line_claims(p: ProjectView, env: EnvView) -> spec_fn(
    (BrewEntryKind, Seq<char>),
) -> Seq<ClaimView> {
    |e: (BrewEntryKind, Seq<char>)|
        {
            let found = installed(env, e);
            Seq::new(
                found.len(),
                |i: int|
                    installed_claim(path_text(p.root), installed_kind(e.0), e.1)(found[i]),
            )
        }
}

proof fn lemma_installed_are_found(env: EnvView, e: (BrewEntryKind, Seq<char>), i: int)
    requires
        0 <= i < installed(env, e).len(),
    ensures
        installed(env, e)[i].1 is Some,
{
}

fn find_installed(env: &ResolveEnv, kind: BrewEntryKind, name: &str) -> (r: Vec<Located>)
    ensures
        r.deep_view() == installed(env@, (kind, name@)),
        forall|i: int| 0 <= i < r.len() ==> (#[trigger] r@[i]).finding is Some,
{
    let found = match kind {
        BrewEntryKind::Formula => {
            let keys = vec!["name"];
            assert(keys@ =~= seq!["name"]);
            locate_in(
                env.findings(ScannerId::Brew),
                FindingKind::BrewFormula,
                &keys,
                name,
                PathFrom::Path,
            )
        },
        BrewEntryKind::Cask => {
            let keys = vec!["token", "name"];
            assert(keys@ =~= seq!["token", "name"]);
            locate_in(
                env.findings(ScannerId::Brew),
                FindingKind::BrewCask,
                &keys,
                name,
                PathFrom::AppPaths,
            )
        },
    };
    assert forall|i: int| 0 <= i < found.len() implies (#[trigger] found@[i]).finding is Some by {
        assert(found.deep_view()[i] == found@[i].deep_view());
        lemma_installed_are_found(env@, (kind, name@), i);
    }
    found
}

fn put_line_claims(project: &Project, env: &ResolveEnv, kind: BrewEntryKind, name: &str, out: &mut Vec<Claim>)
    ensures
        final(out).deep_view() == old(out).deep_view() + line_claims(project@, env@)(
            (kind, name@),
        ),
{
    let ghost was = out.deep_view();
    let ghost want = line_claims(project@, env@)((kind, name@));
    let owner = project.root.text();
    let found = find_installed(env, kind, name);
    let ghost fs = found.deep_view();
    let entry = match kind {
        BrewEntryKind::Formula => EntryKind::Toolchain,
        BrewEntryKind::Cask => EntryKind::AppBundle,
    };
    let label = cat2("brew ", name);
    let mut i: usize = 0;
    assert(out.deep_view() =~= was + want.take(0));
    assert(fs.len() == found.len());
    while i < found.len()
        invariant
            i <= found.len(),
            fs == found.deep_view(),
            owner@ == path_text(project@.root),
            label@ == "brew "@ + name@,
            entry == installed_kind(kind),
            want.len() == found.len(),
            want == Seq::new(
                fs.len(),
                |i: int|
                    installed_claim(path_text(project@.root), installed_kind(kind), name@)(fs[i]),
            ),
            forall|i: int| 0 <= i < found.len() ==> (#[trigger] found@[i]).finding is Some,
            out.deep_view() == was + want.take(i as int),
        decreases found.len() - i,
    {
        assert(fs[i as int] == found@[i as int].deep_view());
        if let Some(id) = found[i].finding {
            let c = own_claim(
                found[i].path.copy(),
                owner.as_str(),
                entry,
                EvidenceTier::Exact,
                "Brewfile",
                label.as_str(),
            ).finding(id).ecosystem("brew");
            put(out, c);
        }
        assert(out.deep_view() =~= was + want.take(i + 1));
        i = i + 1;
    }
    assert(want.take(i as int) =~= want);
}

/// The claims of a project on what its Brewfile asks for.
pub open spec fn brew_claims(p: ProjectView, env: EnvView, disk: DiskView) -> Seq<ClaimView> {
    match disk.head(child(p.root, "Brewfile"@), MANIFEST_CAP) {
        Some(text) => flat(lines(text).filter_map(brew_line()), line_claims(p, env)),
        None => seq![],
    }
}

/// The claims of a project on what its Brewfile asks for, as far as it is installed: a formula in
/// the Cellar, a cask by its apps.
pub fn resolve(project: &Project, env: &ResolveEnv, disk: &mut Disk) -> (r: Vec<Claim>)
    requires
        old(disk).wf(),
    ensures
        final(disk).asked(*old(disk)),
        final(disk).holds() ==> r.deep_view() == brew_claims(project@, env@, old(disk)@),
{
    let mut out: Vec<Claim> = Vec::new();
    match env.read_head(disk, &project.root.child("Brewfile"), MANIFEST_CAP) {
        Some(text) => {
            let entries = brewfile(text.as_str());
            let ghost all = entries.deep_view();
            let ghost f = line_claims(project@, env@);
            let mut i: usize = 0;
            proof {
                lemma_flat_start(all, f);
                assert(out.deep_view() =~= flat(all.take(0), f));
            }
            while i < entries.len()
                invariant
                    i <= entries.len(),
                    all == entries.deep_view(),
                    f == line_claims(project@, env@),
                    disk.holds() ==> out.deep_view() == flat(all.take(i as int), f),
                decreases entries.len() - i,
            {
                proof {
                    assert(all[i as int] == (entries@[i as int].0, entries@[i as int].1@));
                    lemma_flat_step(all, f, i as int);
                }
                put_line_claims(project, env, entries[i].0, entries[i].1.as_str(), &mut out);
                i = i + 1;
            }
            assert(all.take(i as int) =~= all);
        },
        None => {
            assert(out.deep_view() =~= seq![]);
        },
    }
    out
}

} // verus!
