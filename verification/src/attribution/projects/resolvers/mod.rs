//! What belongs to a project: rules over its manifests and over what lies in the home directory.

pub mod agents;
pub mod apply;
pub mod artifacts;
pub mod brew;
pub mod caches;
pub mod claim_laws;
pub mod common;
pub mod derive;
pub mod docker;
pub mod ecosystem_laws;
pub mod editors;
pub mod go;
pub mod joins;
pub mod link_laws;
pub mod links;
pub mod node;
pub mod parser_laws;
pub mod parsers;
pub mod procs;
pub mod python;
pub mod rule_laws;
pub mod rules;
pub mod rust;
pub mod scope_laws;
pub mod shared_laws;
pub mod simulator;
pub mod swiftpm;
pub mod templates;
pub mod tool_laws;
pub mod usage_laws;
pub mod version_laws;
pub mod versions;
pub mod xcode;

use vstd::prelude::*;

use crate::attribution::model::{put_all, Claim, ClaimView, EnvView, ResolveEnv};
use crate::disk::{Disk, DiskView};
use crate::scan::ScannerId;
use crate::seqs::flat;

use self::apply::{baselines, claims_of_baseline, claims_of_row, lookups};
use self::derive::NpmMemo;
use self::joins::{artifact_claims, docker_claims, docker_unlinked, unlinked_claims};
use self::links::{claims_of_link, reverse_links, with_cache_findings};
use self::rules::{baseline_table, lookup_table, reverse_table};
use super::{Project, ProjectIndex, ProjectView};

verus! {

broadcast use crate::disk::group_asks;

/// The claims of one project: on its directories, by the rules over its files, and on Docker
/// objects.
pub open spec fn project_claims(p: ProjectView, env: EnvView, disk: DiskView) -> Seq<ClaimView> {
    artifact_claims(p, env, disk) + flat(
        lookup_table(env.agent),
        claims_of_row(p, env, disk),
    ) + docker_claims(p, env, disk)
}

/// The claims of one project: on its directories, by the rules over its files, and on Docker
/// objects.
pub fn all(project: &Project, env: &ResolveEnv, disk: &mut Disk, memo: &mut NpmMemo) -> (r: Vec<
    Claim,
>)
    requires
        old(disk).wf(),
        old(disk).holds() ==> old(memo).wf(old(disk)@, env@.home),
    ensures
        final(disk).asked(*old(disk)),
        final(disk).holds() ==> final(memo).wf(old(disk)@, env@.home),
        final(disk).holds() ==> r.deep_view() == project_claims(project@, env@, old(disk)@),
{
    let mut claims = joins::artifacts(project, env, disk);
    let looked_up = lookups(project, env, disk, memo);
    put_all(&mut claims, looked_up);
    let objects = joins::docker(project, env, disk);
    put_all(&mut claims, objects);
    claims
}

/// The claims that are made once: by the rules that lead to projects, by those of whole
/// ecosystems, and on Docker objects without a link.
pub open spec fn common_claims(projects: Seq<ProjectView>, env: EnvView, disk: DiskView) -> Seq<
    ClaimView,
> {
    with_cache_findings(
        flat(reverse_table(env.agent), claims_of_link(projects, env.home, disk)),
        env.findings(ScannerId::Fs),
    ) + flat(baseline_table(env.agent), claims_of_baseline(env, disk)) + unlinked_claims(env)
}

/// The claims that are made once, not once for each project.
pub fn all_baseline(env: &ResolveEnv, index: &ProjectIndex, disk: &mut Disk) -> (r: Vec<Claim>)
    requires
        old(disk).wf(),
    ensures
        final(disk).asked(*old(disk)),
        final(disk).holds() ==> r.deep_view() == common_claims(index@, env@, old(disk)@),
{
    let mut claims = reverse_links(env, index, disk);
    let shared = baselines(env, disk);
    put_all(&mut claims, shared);
    put_all(&mut claims, docker_unlinked(env));
    claims
}

} // verus!
