//! Two ways to look at a walked disk: what each project takes, and what each app takes.

pub mod account_laws;
pub mod accounting;
pub mod apps;
pub mod bus;
pub mod laws;
pub mod live_laws;
pub mod lsof;
pub mod model;
pub mod owner_laws;
pub mod path_laws;
pub mod paths;
pub mod projects;

use vstd::prelude::*;

use crate::disk::{Disk, DiskView};
use crate::doc::{put_entry, table_doc, text_doc, Doc, DocView};
use crate::fspath::{path_text, FilePath};
use crate::pathmap::PathMap;
use crate::scan::{
    hash_of, scanner_slug, Finding, FindingId, FindingKind, FindingView, Remedy, ScannerId,
    Severity,
};
use crate::seqs::{flat, lemma_flat_start, lemma_flat_step};
use crate::text::{cat2, decimal, decimal_text, same};

use self::accounting::{account_if_it_fits, claimed_total, is_account};
use self::apps::app_axis;
use self::apps::linkers::Groups;
use self::lsof::{OpenFile, OpenFileView};
use self::model::{
    copy_opt_path, entry_kind_label, owner_kind_label, put_all, tier_label, tier_rank, Axis, Claim,
    ClaimView, EntryView, EnvView, EvidenceTier, Footprint, FootprintEntry, FootprintGroup,
    FootprintSet, FootprintView, GroupView, Owner, OwnerKind, OwnerView, ResolveEnv, SetView,
};
use self::paths::trees_total;
use self::projects::discovery::{discover, projects_in};
use self::projects::resolvers::derive::NpmMemo;
use self::projects::resolvers::joins::{are_ports, are_processes, port_of, processes_for};
use self::projects::resolvers::{all, all_baseline, common_claims, project_claims};
use self::projects::{copy_paths, Project, ProjectView};

verus! {

broadcast use crate::disk::group_asks;

/// The sections that the Projects axis waits for.
pub const PROJECT_DEPS: [ScannerId; 8] = [
    ScannerId::Fs,
    ScannerId::Git,
    ScannerId::Docker,
    ScannerId::Simulator,
    ScannerId::Ports,
    ScannerId::Tools,
    ScannerId::Brew,
    ScannerId::Apps,
];

/// The sections that the App Storage axis waits for.
pub const APP_STORAGE_DEPS: [ScannerId; 4] = [
    ScannerId::Fs,
    ScannerId::Apps,
    ScannerId::Brew,
    ScannerId::Tools,
];

/// The sections that a section waits for.
pub open spec fn dependencies(id: ScannerId) -> Seq<ScannerId> {
    match id {
        ScannerId::Projects => seq![
            ScannerId::Fs,
            ScannerId::Git,
            ScannerId::Docker,
            ScannerId::Simulator,
            ScannerId::Ports,
            ScannerId::Tools,
            ScannerId::Brew,
            ScannerId::Apps,
        ],
        ScannerId::AppStorage => seq![
            ScannerId::Fs,
            ScannerId::Apps,
            ScannerId::Brew,
            ScannerId::Tools,
        ],
        _ => seq![],
    }
}

/// The sections that a section waits for: none but for the two axes.
pub fn deps_of(id: ScannerId) -> (r: &'static [ScannerId])
    ensures
        r@ == dependencies(id),
{
    match id {
        ScannerId::Projects => {
            assert(PROJECT_DEPS@ =~= dependencies(id));
            &PROJECT_DEPS
        },
        ScannerId::AppStorage => {
            assert(APP_STORAGE_DEPS@ =~= dependencies(id));
            &APP_STORAGE_DEPS
        },
        _ => {
            let none: &'static [ScannerId] = &[];
            assert(none@ =~= dependencies(id));
            none
        },
    }
}

/// A section that is not among those that have delivered.
pub open spec fn is_missing(present: Seq<ScannerId>) -> spec_fn(ScannerId) -> bool {
    |d: ScannerId| !present.contains(d)
}

/// The sections among `deps` that have delivered nothing.
pub fn missing_deps(deps: &[ScannerId], present: &Vec<ScannerId>) -> (r: Vec<ScannerId>)
    ensures
        r@ == deps@.filter(is_missing(present@)),
{
    let ghost keep = is_missing(present@);
    let mut out: Vec<ScannerId> = Vec::new();
    let mut i: usize = 0;
    proof {
        assert(deps@.take(0) =~= seq![]);
        reveal(Seq::filter);
        assert(out@ =~= deps@.take(0).filter(keep));
    }
    while i < deps.len()
        invariant
            i <= deps.len(),
            keep == is_missing(present@),
            out@ == deps@.take(i as int).filter(keep),
        decreases deps.len() - i,
    {
        proof {
            reveal(Seq::filter);
            assert(deps@.take(i + 1).drop_last() =~= deps@.take(i as int));
            assert(deps@.take(i + 1).last() == deps@[i as int]);
        }
        let mut known = false;
        let mut k: usize = 0;
        while k < present.len()
            invariant
                k <= present.len(),
                i < deps.len(),
                known <==> exists|j: int| 0 <= j < k && present@[j] == deps@[i as int],
            decreases present.len() - k,
        {
            if present[k] == deps[i] {
                known = true;
            }
            k = k + 1;
        }
        assert(known == present@.contains(deps@[i as int]));
        if !known {
            out.push(deps[i]);
        }
        assert(out@ =~= deps@.take(i + 1).filter(keep));
        i = i + 1;
    }
    assert(deps@.take(i as int) =~= deps@);
    out
}

/// The owner that a project is.
pub open spec fn owner_of_project(p: ProjectView) -> OwnerView {
    OwnerView {
        key: path_text(p.root),
        kind: OwnerKind::Project,
        name: p.name,
        path: Some(p.root),
    }
}

/// The owner that a project is: its root is the key.
pub fn project_owner(project: &Project) -> (r: Owner)
    ensures
        r@ == owner_of_project(project@),
{
    Owner {
        key: project.root.text(),
        kind: OwnerKind::Project,
        name: project.name.clone(),
        path: Some(project.root.copy()),
    }
}

/// What the system has been asked about besides the disk.
pub struct SystemFacts {
    /// The groups that the apps' entitlements name, by the app's path.
    pub groups: PathMap<Vec<String>>,
    /// The owners whose processes have a path open.
    pub observed: Vec<(String, FilePath)>,
    /// The files that processes have open.
    pub files: Vec<OpenFile>,
}

/// The claims of one project, as a function of the project.
pub open spec fn claims_of_project(env: EnvView, disk: DiskView) -> spec_fn(ProjectView) -> Seq<
    ClaimView,
> {
    |p: ProjectView| project_claims(p, env, disk)
}

/// The claims of the Projects axis: project by project, and then those that are made once.
pub open spec fn project_axis_claims(projects: Seq<ProjectView>, env: EnvView, disk: DiskView) -> Seq<
    ClaimView,
> {
    flat(projects, claims_of_project(env, disk)) + common_claims(projects, env, disk)
}

/// The owners of the Projects axis.
pub open spec fn project_owners(projects: Seq<ProjectView>) -> Seq<OwnerView> {
    Seq::new(projects.len(), |i: int| owner_of_project(projects[i]))
}

/// The last project with this key.
pub open spec fn project_with_key(projects: Seq<ProjectView>, key: Seq<char>) -> Option<ProjectView>
    decreases projects.len(),
{
    if projects.len() == 0 {
        None
    } else if path_text(projects.last().root) == key {
        Some(projects.last())
    } else {
        project_with_key(projects.drop_last(), key)
    }
}

/// Whether `r` is the row `r0` with what is known of its project: its other checkouts, the
/// processes that work in it and the ports on which they listen.
pub open spec fn is_live_row(
    r: FootprintView,
    r0: FootprintView,
    projects: Seq<ProjectView>,
    files: Seq<OpenFileView>,
    ports: Seq<(u32, u16)>,
) -> bool {
    match project_with_key(projects, r0.owner.key) {
        Some(p) => {
            &&& r.worktrees == p.worktrees
            &&& are_processes(r.processes, p, files, ports)
            &&& are_ports(r.ports, p, files, ports)
            &&& r == (FootprintView {
                worktrees: r.worktrees,
                processes: r.processes,
                ports: r.ports,
                ..r0
            })
        },
        None => r == r0,
    }
}

/// Whether `r` is the set `r0` with what is known of the projects.
pub open spec fn is_live_set(
    r: SetView,
    r0: SetView,
    projects: Seq<ProjectView>,
    files: Seq<OpenFileView>,
    ports: Seq<(u32, u16)>,
) -> bool {
    &&& r == (SetView { footprints: r.footprints, ..r0 })
    &&& r.footprints.len() == r0.footprints.len()
    &&& forall|i: int|
        0 <= i < r.footprints.len() ==> is_live_row(
            #[trigger] r.footprints[i],
            r0.footprints[i],
            projects,
            files,
            ports,
        )
}

/// The claims of an axis.
pub open spec fn axis_claims(
    axis: Axis,
    env: EnvView,
    disk: DiskView,
    groups: Groups,
    observed: Seq<(Seq<char>, Seq<Seq<char>>)>,
) -> Seq<ClaimView> {
    match axis {
        Axis::Projects => project_axis_claims(projects_in(env, disk), env, disk),
        Axis::AppStorage => app_axis(env, disk, groups, observed).1,
    }
}

/// The owners of an axis.
pub open spec fn axis_owners(
    axis: Axis,
    env: EnvView,
    disk: DiskView,
    groups: Groups,
    observed: Seq<(Seq<char>, Seq<Seq<char>>)>,
) -> Seq<OwnerView> {
    match axis {
        Axis::Projects => project_owners(projects_in(env, disk)),
        Axis::AppStorage => app_axis(env, disk, groups, observed).0,
    }
}

/// Whether `r` is the set of an axis: the account of its claims, on the Projects axis with what is
/// known of the projects.
pub open spec fn is_axis_set(
    r: SetView,
    axis: Axis,
    env: EnvView,
    disk: DiskView,
    groups: Groups,
    observed: Seq<(Seq<char>, Seq<Seq<char>>)>,
    files: Seq<OpenFileView>,
) -> bool {
    let claims = axis_claims(axis, env, disk, groups, observed);
    let owners = axis_owners(axis, env, disk, groups, observed);
    match axis {
        Axis::Projects => exists|r0: SetView|
            is_account(r0, claims, owners, env.trees, disk, axis) && #[trigger] is_live_set(
                r,
                r0,
                projects_in(env, disk),
                files,
                env.findings(ScannerId::Ports).filter_map(port_of()),
            ),
        Axis::AppStorage => is_account(r, claims, owners, env.trees, disk, axis),
    }
}

fn find_project<'a>(projects: &'a Vec<Project>, key: &str) -> (r: Option<&'a Project>)
    ensures
        projects::opt_project(r) == project_with_key(projects.deep_view(), key@),
{
    let ghost ps = projects.deep_view();
    let mut n: usize = projects.len();
    assert(ps.take(n as int) =~= ps);
    while n > 0
        invariant
            n <= projects.len(),
            ps == projects.deep_view(),
            project_with_key(ps, key@) == project_with_key(ps.take(n as int), key@),
        decreases n,
    {
        assert(ps.take(n as int).last() == projects@[n - 1]@);
        assert(ps.take(n as int).drop_last() =~= ps.take(n - 1));
        if same(projects[n - 1].root.text().as_str(), key) {
            return Some(&projects[n - 1]);
        }
        n = n - 1;
    }
    None
}

fn with_live_facts(
    set: FootprintSet,
    projects: &Vec<Project>,
    files: &Vec<OpenFile>,
    env: &ResolveEnv,
) -> (r: FootprintSet)
    ensures
        is_live_set(
            r@,
            set@,
            projects.deep_view(),
            files.deep_view(),
            env@.findings(ScannerId::Ports).filter_map(port_of()),
        ),
{
    let ghost r0 = set@;
    let ghost ps = projects.deep_view();
    let ghost fs = files.deep_view();
    let ghost ports_seen = env@.findings(ScannerId::Ports).filter_map(port_of());
    let mut rest = set.footprints;
    let mut rows: Vec<Footprint> = Vec::new();
    let ghost all = rest.deep_view();
    assert(rest.deep_view() =~= all.skip(0));
    while rest.len() > 0
        invariant
            rows.len() + rest.len() == all.len(),
            rest.deep_view() == all.skip(rows.len() as int),
            ps == projects.deep_view(),
            fs == files.deep_view(),
            ports_seen == env@.findings(ScannerId::Ports).filter_map(port_of()),
            forall|i: int|
                0 <= i < rows.len() ==> is_live_row(
                    #[trigger] rows.deep_view()[i],
                    all[i],
                    ps,
                    fs,
                    ports_seen,
                ),
        decreases rest.len(),
    {
        let ghost n = rows.len() as int;
        let ghost before = rest.deep_view();
        let ghost items = rest@;
        let ghost done = rows.deep_view();
        let mut row = rest.remove(0);
        proof {
            assert(row@ == before[0]);
            assert(before[0] == all[n]);
            assert(rest@ == items.remove(0));
            assert(rest.deep_view() =~= before.skip(1));
            assert(rest.deep_view() =~= all.skip(n + 1));
        }
        let ghost was = row@;
        if let Some(project) = find_project(projects, row.owner.key.as_str()) {
            row.worktrees = copy_paths(&project.worktrees);
            let (processes, ports) = processes_for(project, files, env);
            row.processes = processes;
            row.ports = ports;
            assert(row@ =~= (FootprintView {
                worktrees: row@.worktrees,
                processes: row@.processes,
                ports: row@.ports,
                ..was
            }));
        }
        assert(is_live_row(row@, all[n], ps, fs, ports_seen));
        rows.push(row);
        assert(rows.deep_view() =~= done.push(row@));
    }
    let r = FootprintSet {
        axis: set.axis,
        gen: set.gen,
        footprints: rows,
        baseline: set.baseline,
        unattributed: set.unattributed,
        disk_total: set.disk_total,
        attributed_total: set.attributed_total,
        missing_deps: set.missing_deps,
    };
    assert(r@ =~= (SetView { footprints: r@.footprints, ..r0 }));
    r
}

fn project_claims_of_all(projects: &Vec<Project>, env: &ResolveEnv, disk: &mut Disk) -> (r: Vec<
    Claim,
>)
    requires
        old(disk).wf(),
    ensures
        final(disk).asked(*old(disk)),
        final(disk).holds()
            ==> r.deep_view() == flat(projects.deep_view(), claims_of_project(env@, old(disk)@)),
{
    let ghost facts = disk@;
    let ghost ps = projects.deep_view();
    let ghost f = claims_of_project(env@, facts);
    let mut memo = NpmMemo::new();
    let mut out: Vec<Claim> = Vec::new();
    let mut i: usize = 0;
    proof {
        lemma_flat_start(ps, f);
        assert(out.deep_view() =~= flat(ps.take(0), f));
    }
    while i < projects.len()
        invariant
            i <= projects.len(),
            ps == projects.deep_view(),
            facts == old(disk)@,
            f == claims_of_project(env@, facts),
            disk.asked(*old(disk)),
            disk.holds() ==> memo.wf(facts, env@.home),
            disk.holds() ==> out.deep_view() == flat(ps.take(i as int), f),
        decreases projects.len() - i,
    {
        proof {
            assert(ps[i as int] == projects@[i as int]@);
            lemma_flat_step(ps, f, i as int);
        }
        let more = all(&projects[i], env, disk, &mut memo);
        put_all(&mut out, more);
        i = i + 1;
    }
    assert(ps.take(i as int) =~= ps);
    out
}

fn owners_of_projects(projects: &Vec<Project>) -> (r: Vec<Owner>)
    ensures
        r.deep_view() == project_owners(projects.deep_view()),
{
    let ghost want = project_owners(projects.deep_view());
    let mut out: Vec<Owner> = Vec::new();
    let mut i: usize = 0;
    while i < projects.len()
        invariant
            i <= projects.len(),
            want == project_owners(projects.deep_view()),
            out.deep_view() =~= want.take(i as int),
        decreases projects.len() - i,
    {
        let ghost was = out.deep_view();
        assert(projects.deep_view()[i as int] == projects@[i as int]@);
        let o = project_owner(&projects[i]);
        out.push(o);
        assert(out.deep_view() =~= was.push(o@));
        i = i + 1;
    }
    assert(want.take(i as int) =~= want);
    out
}

/// Resolve an axis: find its owners, collect what they claim, and account for it. Nothing where the
/// bytes that are claimed, or those of the walked trees, are too many for a number.
pub fn resolve_axis(axis: Axis, env: &ResolveEnv, disk: &mut Disk, system: &SystemFacts) -> (r: Option<
    FootprintSet,
>)
    requires
        old(disk).wf(),
        system.groups.wf(),
    ensures
        final(disk).asked(*old(disk)),
        final(disk).holds() ==> (r is Some <==> claimed_total(
            axis_claims(
                axis,
                env@,
                old(disk)@,
                system.groups@,
                system.observed.deep_view(),
            ),
            env@.trees,
            old(disk)@,
        ) <= u64::MAX && trees_total(env@.trees) <= u64::MAX),
        final(disk).holds() ==> (r is Some ==> is_axis_set(
            r->0@,
            axis,
            env@,
            old(disk)@,
            system.groups@,
            system.observed.deep_view(),
            system.files.deep_view(),
        )),
{
    let ghost facts = disk@;
    match axis {
        Axis::Projects => {
            let index = discover(env, disk);
            let projects = index.projects();
            let owners = owners_of_projects(projects);
            let mut claims = project_claims_of_all(projects, env, disk);
            let common = all_baseline(env, &index, disk);
            put_all(&mut claims, common);
            match account_if_it_fits(claims, &owners, env, disk, axis) {
                Some(set) => {
                    let r = with_live_facts(set, projects, &system.files, env);
                    assert(disk.holds() ==> is_live_set(
                        r@,
                        set@,
                        projects_in(env@, facts),
                        system.files.deep_view(),
                        env@.findings(ScannerId::Ports).filter_map(port_of()),
                    ));
                    Some(r)
                },
                None => None,
            }
        },
        Axis::AppStorage => {
            let (owners, claims) = apps::resolve(env, disk, &system.groups, &system.observed);
            account_if_it_fits(claims, &owners, env, disk, axis)
        },
    }
}

/// The set of one scan: with the scan's number, and with the sections that had delivered nothing.
pub fn of_scan(set: FootprintSet, gen: u64, missing: Vec<ScannerId>) -> (r: FootprintSet)
    ensures
        r@ == (SetView { gen, missing_deps: missing@, ..set@ }),
{
    let ghost s = set@;
    let r = FootprintSet {
        axis: set.axis,
        gen,
        footprints: set.footprints,
        baseline: set.baseline,
        unattributed: set.unattributed,
        disk_total: set.disk_total,
        attributed_total: set.attributed_total,
        missing_deps: missing,
    };
    assert(r@ =~= (SetView { gen, missing_deps: missing@, ..s }));
    r
}

/// A whole number, as a document.
pub open spec fn number(n: u64) -> DocView {
    DocView::Number {
        unsigned: Some(n),
        signed: if n <= i64::MAX {
            Some(n as i64)
        } else {
            None
        },
        text: decimal(n as nat),
    }
}

fn flag_doc(b: bool) -> (r: Doc)
    ensures
        r@ == DocView::Bool(b),
{
    Doc::Bool(b)
}

fn number_doc(n: u64) -> (r: Doc)
    ensures
        r@ == number(n),
{
    let signed = if n <= i64::MAX as u64 {
        Some(n as i64)
    } else {
        None
    };
    Doc::Number { unsigned: Some(n), signed, text: decimal_text(n) }
}

/// The surest of the tiers.
pub open spec fn surest(entries: Seq<EntryView>) -> Option<EvidenceTier>
    decreases entries.len(),
{
    if entries.len() == 0 {
        None
    } else {
        match surest(entries.drop_last()) {
            Some(t) => if tier_rank(entries.last().tier) < tier_rank(t) {
                Some(entries.last().tier)
            } else {
                Some(t)
            },
            None => Some(entries.last().tier),
        }
    }
}

/// The entries of all kinds, kind by kind.
pub open spec fn all_entries(groups: Seq<GroupView>) -> Seq<EntryView> {
    flat(groups, |g: GroupView| g.entries)
}

/// What a row says of one kind.
pub open spec fn kind_doc(g: GroupView) -> DocView {
    DocView::Table(
        seq![("bytes"@, number(g.bytes)), ("kind"@, DocView::Text(entry_kind_label(g.kind)))],
    )
}

/// What a finding says of a row.
pub open spec fn row_meta(fp: FootprintView) -> DocView {
    DocView::Table(
        seq![
            ("baseline_share"@, number(fp.baseline_share)),
            (
                "by_kind"@,
                DocView::List(Seq::new(fp.groups.len(), |i: int| kind_doc(fp.groups[i]))),
            ),
            ("clone_note"@, DocView::Bool(fp.clone_note)),
            ("exclusive"@, number(fp.exclusive)),
            ("owner_kind"@, DocView::Text(owner_kind_label(fp.owner.kind))),
            (
                "ports"@,
                DocView::List(Seq::new(fp.ports.len(), |i: int| number(fp.ports[i] as u64))),
            ),
            ("process_count"@, number(fp.processes.len() as u64)),
            ("reach"@, number(fp.reach)),
            ("shared"@, number(fp.shared)),
            (
                "top_tier"@,
                match surest(all_entries(fp.groups)) {
                    Some(t) => DocView::Text(tier_label(t)),
                    None => DocView::Null,
                },
            ),
            (
                "worktrees"@,
                DocView::List(
                    Seq::new(
                        fp.worktrees.len(),
                        |i: int| DocView::Text(path_text(fp.worktrees[i])),
                    ),
                ),
            ),
        ],
    )
}

fn surest_of(groups: &Vec<FootprintGroup>) -> (r: Option<EvidenceTier>)
    ensures
        r == surest(all_entries(groups.deep_view())),
{
    let ghost gs = groups.deep_view();
    let ghost f = |g: GroupView| g.entries;
    let mut best: Option<EvidenceTier> = None;
    let mut i: usize = 0;
    proof {
        lemma_flat_start(gs, f);
    }
    while i < groups.len()
        invariant
            i <= groups.len(),
            gs == groups.deep_view(),
            f == (|g: GroupView| g.entries),
            best == surest(flat(gs.take(i as int), f)),
        decreases groups.len() - i,
    {
        let ghost done = flat(gs.take(i as int), f);
        let entries = &groups[i].entries;
        let ghost es = entries.deep_view();
        let mut k: usize = 0;
        proof {
            assert(gs[i as int] == groups@[i as int]@);
            lemma_flat_step(gs, f, i as int);
            assert(done + es.take(0) =~= done);
        }
        while k < entries.len()
            invariant
                k <= entries.len(),
                es == entries.deep_view(),
                best == surest(done + es.take(k as int)),
            decreases entries.len() - k,
        {
            proof {
                assert(es[k as int] == entries@[k as int]@);
                assert((done + es.take(k + 1)).drop_last() =~= done + es.take(k as int));
                assert((done + es.take(k + 1)).last() == es[k as int]);
            }
            let t = entries[k].tier;
            let surer = match best {
                Some(b) => t.rank() < b.rank(),
                None => true,
            };
            if surer {
                best = Some(t);
            }
            k = k + 1;
        }
        assert(es.take(k as int) =~= es);
        i = i + 1;
    }
    assert(gs.take(i as int) =~= gs);
    best
}

fn kind_docs(groups: &Vec<FootprintGroup>) -> (r: Doc)
    ensures
        r@ == DocView::List(
            Seq::new(groups.deep_view().len(), |i: int| kind_doc(groups.deep_view()[i])),
        ),
{
    let ghost gs = groups.deep_view();
    let mut out: Vec<Doc> = Vec::new();
    let mut i: usize = 0;
    while i < groups.len()
        invariant
            i <= groups.len(),
            gs == groups.deep_view(),
            out.len() == i,
            forall|j: int| 0 <= j < i ==> (#[trigger] out@[j])@ == kind_doc(gs[j]),
        decreases groups.len() - i,
    {
        assert(gs[i as int] == groups@[i as int]@);
        let mut t: Vec<(String, Doc)> = Vec::new();
        put_entry(&mut t, "bytes", number_doc(groups[i].bytes));
        put_entry(&mut t, "kind", text_doc(groups[i].kind.label()));
        let d = table_doc(t);
        assert(d@->Table_0 =~= kind_doc(gs[i as int])->Table_0);
        out.push(d);
        i = i + 1;
    }
    let r = Doc::List(out);
    assert(r@->List_0 =~= Seq::new(gs.len(), |i: int| kind_doc(gs[i])));
    r
}

fn port_docs(ports: &Vec<u16>) -> (r: Doc)
    ensures
        r@ == DocView::List(Seq::new(ports@.len(), |i: int| number(ports@[i] as u64))),
{
    let mut out: Vec<Doc> = Vec::new();
    let mut i: usize = 0;
    while i < ports.len()
        invariant
            i <= ports.len(),
            out.len() == i,
            forall|j: int| 0 <= j < i ==> (#[trigger] out@[j])@ == number(ports@[j] as u64),
        decreases ports.len() - i,
    {
        out.push(number_doc(ports[i] as u64));
        i = i + 1;
    }
    let r = Doc::List(out);
    assert(r@->List_0 =~= Seq::new(ports@.len(), |i: int| number(ports@[i] as u64)));
    r
}

fn path_docs(paths: &Vec<FilePath>) -> (r: Doc)
    ensures
        r@ == DocView::List(
            Seq::new(
                paths.deep_view().len(),
                |i: int| DocView::Text(path_text(paths.deep_view()[i])),
            ),
        ),
{
    let ghost ps = paths.deep_view();
    let mut out: Vec<Doc> = Vec::new();
    let mut i: usize = 0;
    while i < paths.len()
        invariant
            i <= paths.len(),
            ps == paths.deep_view(),
            out.len() == i,
            forall|j: int|
                0 <= j < i ==> (#[trigger] out@[j])@ == DocView::Text(path_text(ps[j])),
        decreases paths.len() - i,
    {
        assert(ps[i as int] == paths@[i as int]@);
        out.push(Doc::Text(paths[i].text()));
        i = i + 1;
    }
    let r = Doc::List(out);
    assert(r@->List_0 =~= Seq::new(ps.len(), |i: int| DocView::Text(path_text(ps[i]))));
    r
}

fn row_doc(fp: &Footprint) -> (r: Doc)
    ensures
        r@ == row_meta(fp@),
{
    let top = match surest_of(&fp.groups) {
        Some(t) => text_doc(t.label()),
        None => Doc::Null,
    };
    let mut t: Vec<(String, Doc)> = Vec::new();
    put_entry(&mut t, "baseline_share", number_doc(fp.baseline_share));
    put_entry(&mut t, "by_kind", kind_docs(&fp.groups));
    put_entry(&mut t, "clone_note", flag_doc(fp.clone_note));
    put_entry(&mut t, "exclusive", number_doc(fp.exclusive));
    put_entry(&mut t, "owner_kind", text_doc(fp.owner.kind.label()));
    put_entry(&mut t, "ports", port_docs(&fp.ports));
    put_entry(&mut t, "process_count", number_doc(fp.processes.len() as u64));
    put_entry(&mut t, "reach", number_doc(fp.reach));
    put_entry(&mut t, "shared", number_doc(fp.shared));
    put_entry(&mut t, "top_tier", top);
    put_entry(&mut t, "worktrees", path_docs(&fp.worktrees));
    let r = table_doc(t);
    assert(fp.processes.deep_view().len() == fp.processes.len());
    assert(r@->Table_0 =~= row_meta(fp@)->Table_0);
    r
}

/// A finding without anything optional.
pub open spec fn bare_finding(
    kind: FindingKind,
    section: ScannerId,
    key: Seq<char>,
    title: Seq<char>,
    detail: Seq<char>,
    meta: DocView,
) -> FindingView {
    FindingView {
        id: FindingId(hash_of(kind, key)),
        kind,
        section,
        group: seq![],
        title,
        detail,
        path: None,
        size_bytes: None,
        last_used: None,
        severity: Severity::Info,
        remedies: seq![],
        provenance: None,
        coverage: None,
        meta,
    }
}

fn plain_finding(
    kind: FindingKind,
    section: ScannerId,
    key: &str,
    title: &str,
    detail: &str,
    path: Option<FilePath>,
    size_bytes: Option<u64>,
    meta: Doc,
) -> (r: Finding)
    ensures
        r@ == (FindingView {
            path: path.deep_view(),
            size_bytes,
            ..bare_finding(kind, section, key@, title@, detail@, meta@)
        }),
{
    let remedies: Vec<Remedy> = Vec::new();
    let r = Finding {
        id: FindingId::new(kind, key),
        kind,
        section,
        group: String::new(),
        title: title.to_owned(),
        detail: detail.to_owned(),
        path,
        size_bytes,
        last_used: None,
        severity: Severity::Info,
        remedies,
        provenance: None,
        coverage: None,
        meta,
    };
    assert(r@.group =~= seq![]);
    assert(r@.remedies =~= seq![]);
    r
}

/// The finding that stands for a row.
pub open spec fn row_finding(axis: Axis, fp: FootprintView) -> FindingView {
    FindingView {
        path: fp.owner.path,
        size_bytes: Some((fp.exclusive + fp.shared) as u64),
        ..bare_finding(
            axis.spec_finding_kind(),
            axis.spec_scanner(),
            fp.owner.key,
            fp.owner.name,
            ""@,
            row_meta(fp),
        )
    }
}

/// The finding that stands for a row: named after its owner, and as large as what the owner alone
/// and its part of what it shares take.
pub fn footprint_finding(axis: Axis, fp: &Footprint) -> (r: Finding)
    requires
        fp.exclusive + fp.shared <= u64::MAX,
    ensures
        r@ == row_finding(axis, fp@),
{
    plain_finding(
        axis.finding_kind(),
        axis.scanner(),
        fp.owner.key.as_str(),
        fp.owner.name.as_str(),
        "",
        copy_opt_path(&fp.owner.path),
        Some(fp.exclusive + fp.shared),
        row_doc(fp),
    )
}

/// The bytes of entries together.
pub open spec fn entry_total(entries: Seq<EntryView>) -> nat
    decreases entries.len(),
{
    if entries.len() == 0 {
        0
    } else {
        entry_total(entries.drop_last()) + entries.last().bytes as nat
    }
}

proof fn lemma_entry_total_grows(entries: Seq<EntryView>, n: int)
    requires
        0 <= n <= entries.len(),
    ensures
        entry_total(entries.take(n)) <= entry_total(entries),
    decreases entries.len() - n,
{
    if n < entries.len() {
        lemma_entry_total_grows(entries, n + 1);
        assert(entries.take(n + 1).drop_last() =~= entries.take(n));
    } else {
        assert(entries.take(n) =~= entries);
    }
}

/// The bytes of entries together.
pub fn entries_total(entries: &Vec<FootprintEntry>) -> (r: u64)
    requires
        entry_total(entries.deep_view()) <= u64::MAX,
    ensures
        r == entry_total(entries.deep_view()),
{
    let ghost es = entries.deep_view();
    let mut sum: u64 = 0;
    let mut i: usize = 0;
    while i < entries.len()
        invariant
            i <= entries.len(),
            es == entries.deep_view(),
            entry_total(es) <= u64::MAX,
            sum == entry_total(es.take(i as int)),
        decreases entries.len() - i,
    {
        proof {
            assert(es.take(i + 1).drop_last() =~= es.take(i as int));
            assert(es.take(i + 1).last() == entries@[i as int]@);
            lemma_entry_total_grows(es, i + 1);
        }
        sum = sum + entries[i].bytes;
        i = i + 1;
    }
    assert(es.take(i as int) =~= es);
    sum
}

/// What a finding says of a list of entries.
pub open spec fn bucket_meta(n: nat) -> DocView {
    DocView::Table(seq![("entry_count"@, number(n as u64)), ("group"@, DocView::Text("Coverage"@))])
}

fn bucket_doc(n: usize) -> (r: Doc)
    ensures
        r@ == bucket_meta(n as nat),
{
    let mut t: Vec<(String, Doc)> = Vec::new();
    put_entry(&mut t, "entry_count", number_doc(n as u64));
    put_entry(&mut t, "group", text_doc("Coverage"));
    let r = table_doc(t);
    assert(r@->Table_0 =~= bucket_meta(n as nat)->Table_0);
    r
}

/// What a finding says of how much an axis covers.
pub open spec fn coverage_meta(set: SetView) -> DocView {
    DocView::Table(
        seq![
            ("attributed_total"@, number(set.attributed_total)),
            ("disk_total"@, number(set.disk_total)),
            ("group"@, DocView::Text("Coverage"@)),
            (
                "missing_deps"@,
                DocView::List(
                    Seq::new(
                        set.missing_deps.len(),
                        |i: int| DocView::Text(scanner_slug(set.missing_deps[i])),
                    ),
                ),
            ),
        ],
    )
}

fn slug_docs(ids: &Vec<ScannerId>) -> (r: Doc)
    ensures
        r@ == DocView::List(
            Seq::new(ids@.len(), |i: int| DocView::Text(scanner_slug(ids@[i]))),
        ),
{
    let mut out: Vec<Doc> = Vec::new();
    let mut i: usize = 0;
    while i < ids.len()
        invariant
            i <= ids.len(),
            out.len() == i,
            forall|j: int|
                0 <= j < i ==> (#[trigger] out@[j])@ == DocView::Text(scanner_slug(ids@[j])),
        decreases ids.len() - i,
    {
        out.push(Doc::Text(ids[i].slug().to_owned()));
        i = i + 1;
    }
    let r = Doc::List(out);
    assert(r@->List_0 =~= Seq::new(ids@.len(), |i: int| DocView::Text(scanner_slug(ids@[i]))));
    r
}

fn coverage_doc(set: &FootprintSet) -> (r: Doc)
    ensures
        r@ == coverage_meta(set@),
{
    let mut t: Vec<(String, Doc)> = Vec::new();
    put_entry(&mut t, "attributed_total", number_doc(set.attributed_total));
    put_entry(&mut t, "disk_total", number_doc(set.disk_total));
    put_entry(&mut t, "group", text_doc("Coverage"));
    put_entry(&mut t, "missing_deps", slug_docs(&set.missing_deps));
    let r = table_doc(t);
    assert(r@->Table_0 =~= coverage_meta(set@)->Table_0);
    r
}

/// A finding about a set as a whole.
pub open spec fn bucket_finding(
    axis: Axis,
    key: Seq<char>,
    title: Seq<char>,
    detail: Seq<char>,
    size_bytes: Option<u64>,
    meta: DocView,
) -> FindingView {
    FindingView {
        size_bytes,
        ..bare_finding(
            axis.spec_bucket_kind(),
            axis.spec_scanner(),
            scanner_slug(axis.spec_scanner()) + key,
            title,
            detail,
            meta,
        )
    }
}

/// The three findings about a set as a whole: what belongs to ecosystems, what nobody owns, and how
/// much of the disk the axis covers.
pub fn bucket_findings(set: &FootprintSet) -> (r: [Finding; 3])
    requires
        entry_total(set@.baseline) <= u64::MAX,
        entry_total(set@.unattributed) <= u64::MAX,
    ensures
        r@[0]@ == bucket_finding(
            set.axis,
            ":baseline"@,
            "Baseline"@,
            "Ecosystem-wide resources shared by every project/app of that kind — never counted in anyone's exclusive total."@,
            Some(entry_total(set@.baseline) as u64),
            bucket_meta(set@.baseline.len()),
        ),
        r@[1]@ == bucket_finding(
            set.axis,
            ":unattributed"@,
            "Unattributed"@,
            "Disk usage this axis could not link to an owner."@,
            Some(entry_total(set@.unattributed) as u64),
            bucket_meta(set@.unattributed.len()),
        ),
        r@[2]@ == bucket_finding(
            set.axis,
            ":coverage"@,
            "Coverage"@,
            "How much of the disk this axis accounts for."@,
            None,
            coverage_meta(set@),
        ),
{
    let kind = set.axis.bucket_kind();
    let section = set.axis.scanner();
    let prefix = section.slug();
    assert(set.baseline.deep_view().len() == set.baseline.len());
    assert(set.unattributed.deep_view().len() == set.unattributed.len());
    let baseline = plain_finding(
        kind,
        section,
        cat2(prefix, ":baseline").as_str(),
        "Baseline",
        "Ecosystem-wide resources shared by every project/app of that kind — never counted in anyone's exclusive total.",
        None,
        Some(entries_total(&set.baseline)),
        bucket_doc(set.baseline.len()),
    );
    let unattributed = plain_finding(
        kind,
        section,
        cat2(prefix, ":unattributed").as_str(),
        "Unattributed",
        "Disk usage this axis could not link to an owner.",
        None,
        Some(entries_total(&set.unattributed)),
        bucket_doc(set.unattributed.len()),
    );
    let coverage = plain_finding(
        kind,
        section,
        cat2(prefix, ":coverage").as_str(),
        "Coverage",
        "How much of the disk this axis accounts for.",
        None,
        None,
        coverage_doc(set),
    );
    [baseline, unattributed, coverage]
}

} // verus!
