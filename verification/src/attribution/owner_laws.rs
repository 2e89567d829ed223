//! What holds of owners: what a row's owner is called, in what order its things are shown, and what
//! tools and processes it has.

use vstd::prelude::*;

use crate::attribution::{coverage_meta, entry_total, project_owners};
use crate::attribution::account_laws::total;
use crate::attribution::accounting::{
    entry_before, group_before, is_account, is_breakdown, is_footprint, is_group, registered,
};
use crate::attribution::apps::linkers::{
    homebrew_claims, open_rows, own_claims, pid_of, prefix_dirs, program_owner, ps_row, tool_claims,
    tools_claims,
};
use crate::attribution::apps::owners::{AppView, OwnersView};
use crate::attribution::model::{
    Axis, ClaimView, EntryKind, EntryView, EvidenceTier, OwnerKind, OwnerView, SetView,
};
use crate::attribution::projects::ProjectView;
use crate::disk::DiskView;
use crate::doc::{entry_of, unsigned_field};
use crate::fspath::{child, file_name, path_lt, path_of, path_text};
use crate::scan::{scanner_slug, ScannerId, TreeView};
use crate::text::{
    all_digits, decimal, digits_value, is_digit, lemma_span_is, lowered, nonspaces, starts, trim,
    trim_start, unsigned, without_plus,
};
use crate::text_laws::{blank, law_trim_takes_off_what_is_around, lemma_trim_tight, tight};

verus! {

/// The rows of an account show their groups by falling size, and in a group the entries by falling
/// size; of equal entries the path that comes first is shown first. Each kind has one group at most.
pub proof fn law_what_comes_first(
    r: SetView,
    claims: Seq<ClaimView>,
    owners: Seq<OwnerView>,
    trees: Seq<TreeView>,
    disk: DiskView,
    axis: Axis,
    i: int,
)
    requires
        is_account(r, claims, owners, trees, disk, axis),
        0 <= i < r.footprints.len(),
    ensures
        forall|a: int, b: int|
            0 <= a < b < r.footprints[i].groups.len() ==> (#[trigger] r.footprints[i].groups[a]).bytes
                >= (#[trigger] r.footprints[i].groups[b]).bytes && r.footprints[i].groups[a].kind
                != r.footprints[i].groups[b].kind,
        forall|g: int, a: int, b: int|
            0 <= g < r.footprints[i].groups.len() && 0 <= a < b
                < r.footprints[i].groups[g].entries.len() ==> {
                let x = #[trigger] r.footprints[i].groups[g].entries[a];
                let y = #[trigger] r.footprints[i].groups[g].entries[b];
                x.bytes > y.bytes || (x.bytes == y.bytes && path_lt(x.path, y.path))
            },
{
    let f = r.footprints[i];
    let s = crate::attribution::accounting::accounted(claims, trees, disk);
    assert(is_footprint(f, s, owners, axis));
    assert forall|a: int, b: int| 0 <= a < b < f.groups.len() implies (#[trigger] f.groups[a]).bytes
        >= (#[trigger] f.groups[b]).bytes && f.groups[a].kind != f.groups[b].kind by {
        assert(group_before(f.groups[a], f.groups[b]));
        lemma_kinds_once(f.groups, s, f.owner.key, a, b);
    }
    assert forall|g: int, a: int, b: int|
        0 <= g < f.groups.len() && 0 <= a < b < f.groups[g].entries.len() implies {
        let x = #[trigger] f.groups[g].entries[a];
        let y = #[trigger] f.groups[g].entries[b];
        x.bytes > y.bytes || (x.bytes == y.bytes && path_lt(x.path, y.path))
    } by {
        assert(is_group(f.groups[g], s, f.owner.key));
        assert(entry_before(f.groups[g].entries[a], f.groups[g].entries[b]));
    }
}

proof fn lemma_kinds_once(
    groups: Seq<crate::attribution::model::GroupView>,
    s: Seq<crate::attribution::accounting::AccountedView>,
    k: Seq<char>,
    a: int,
    b: int,
)
    requires
        is_breakdown(groups, s, k),
        0 <= a < b < groups.len(),
    ensures
        groups[a].kind != groups[b].kind,
{
    assert(is_group(groups[a], s, k));
    assert(is_group(groups[b], s, k));
    assert(group_before(groups[a], groups[b]));
}

/// A row bears the owner that was registered last under its key; without one, the owner that the key
/// itself tells of.
pub proof fn law_a_row_bears_its_owner(
    r: SetView,
    claims: Seq<ClaimView>,
    owners: Seq<OwnerView>,
    trees: Seq<TreeView>,
    disk: DiskView,
    axis: Axis,
    i: int,
    name: Seq<char>,
)
    requires
        is_account(r, claims, owners, trees, disk, axis),
        0 <= i < r.footprints.len(),
    ensures
        ({
            let o = r.footprints[i].owner;
            let unknown = forall|n: int| 0 <= n < owners.len() ==> (#[trigger] owners[n]).key != o.key;
            &&& forall|n: int|
                0 <= n < owners.len() && (#[trigger] owners[n]).key == o.key && (forall|m: int|
                    n < m < owners.len() ==> (#[trigger] owners[m]).key != o.key) ==> o == owners[n]
            &&& unknown && axis == Axis::Projects ==> o.kind == OwnerKind::Project && o.path == Some(
                path_of(o.key),
            )
            &&& unknown && axis == Axis::Projects && file_name(path_of(o.key)) == Some(name)
                ==> o.name == name
            &&& unknown && axis == Axis::AppStorage && o.key == "formula:"@ + name ==> o.kind
                == OwnerKind::Formula && o.name == name
            &&& unknown && axis == Axis::AppStorage && o.key == "tool:"@ + name ==> o.kind
                == OwnerKind::Tool && o.name == name
            &&& unknown && axis == Axis::AppStorage && o.key == "homebrew"@ ==> o.kind
                == OwnerKind::Homebrew
        }),
{
    let o = r.footprints[i].owner;
    let s = crate::attribution::accounting::accounted(claims, trees, disk);
    assert(is_footprint(r.footprints[i], s, owners, axis));
    lemma_registered(owners, o.key);
    reveal_strlit("formula:");
    reveal_strlit("tool:");
    reveal_strlit("homebrew");
    if o.key == "formula:"@ + name {
        assert(o.key.take("formula:"@.len() as int) =~= "formula:"@);
        assert(o.key.skip("formula:"@.len() as int) =~= name);
    }
    if o.key == "tool:"@ + name {
        assert(o.key[0] == 't');
        assert("formula:"@[0] == 'f');
        assert(!starts(o.key, "formula:"@)) by {
            if starts(o.key, "formula:"@) {
                assert(o.key.take("formula:"@.len() as int)[0] == o.key[0]);
            }
        }
        assert(o.key.take("tool:"@.len() as int) =~= "tool:"@);
        assert(o.key.skip("tool:"@.len() as int) =~= name);
    }
    if o.key == "homebrew"@ {
        assert(o.key[0] == 'h');
        if starts(o.key, "formula:"@) {
            assert(o.key.take("formula:"@.len() as int)[0] == o.key[0]);
        }
        if starts(o.key, "tool:"@) {
            assert(o.key.take("tool:"@.len() as int)[0] == o.key[0]);
        }
    }
}

proof fn lemma_registered(owners: Seq<OwnerView>, k: Seq<char>)
    ensures
        match registered(owners, k) {
            Some(o) => exists|n: int|
                0 <= n < owners.len() && (#[trigger] owners[n]) == o && o.key == k && (forall|m: int|
                    n < m < owners.len() ==> (#[trigger] owners[m]).key != k),
            None => forall|n: int| 0 <= n < owners.len() ==> (#[trigger] owners[n]).key != k,
        },
    decreases owners.len(),
{
    if owners.len() > 0 {
        let f = owners.drop_last();
        if owners.last().key == k {
            assert(owners[owners.len() - 1].key == k);
        } else {
            lemma_registered(f, k);
            if registered(owners, k) is Some {
                let n = choose|n: int|
                    0 <= n < f.len() && (#[trigger] f[n]) == registered(f, k)->0 && f[n].key == k && (
                    forall|m: int| n < m < f.len() ==> (#[trigger] f[m]).key != k);
                assert(owners[n] == f[n]);
                assert forall|m: int| n < m < owners.len() implies (#[trigger] owners[m]).key
                    != k by {
                    if m < f.len() {
                        assert(f[m].key != k);
                    }
                }
            } else {
                assert forall|n: int| 0 <= n < owners.len() implies (#[trigger] owners[n]).key
                    != k by {
                    if n < f.len() {
                        assert(f[n].key != k);
                    }
                }
            }
        }
    }
}

/// A number reads back from its decimal spelling.
pub proof fn law_numbers_read_back(n: nat)
    ensures
        unsigned(decimal(n)) == Some(n),
{
    lemma_decimal(n);
    let s = decimal(n);
    assert(is_digit(s[0]));
    assert(without_plus(s) == s);
}

proof fn lemma_decimal(n: nat)
    ensures
        decimal(n).len() > 0,
        all_digits(decimal(n)),
        digits_value(decimal(n)) == n,
    decreases n,
{
    let s = decimal(n);
    if n < 10 {
        assert(s.drop_last().len() == 0);
        assert(digits_value(s.drop_last()) == 0);
        assert(s.last() as nat == n + 48);
    } else {
        let t = decimal(n / 10);
        lemma_decimal(n / 10);
        let c = (n % 10 + 48) as u8 as char;
        assert(s == t.push(c));
        assert(s.drop_last() =~= t);
        assert(c as nat == n % 10 + 48);
        assert forall|i: int| 0 <= i < s.len() implies is_digit(#[trigger] s[i]) by {
            if i < t.len() {
                assert(s[i] == t[i]);
            }
        }
    }
}

/// A line of processes: space, the number, space, and the program's path.
pub proof fn law_a_line_of_a_process(a: Seq<char>, n: u32, b: Seq<char>, program: Seq<char>)
    requires
        blank(a),
        blank(b),
        tight(program),
        program.len() > 0,
    ensures
        ps_row()(a + decimal(n as nat) + seq![' '] + b + program) == Some((n, program)),
{
    let d = decimal(n as nat);
    lemma_decimal(n as nat);
    law_numbers_read_back(n as nat);
    let rest = seq![' '] + b + program;
    let t = d + rest;
    let line = a + d + seq![' '] + b + program;
    assert(line =~= a + t + seq![]);
    assert(is_digit(d[0]));
    assert(t[0] == d[0]);
    assert(t.last() == program.last());
    law_trim_takes_off_what_is_around(a, t, seq![]);
    assert(t + seq![] =~= t);
    assert(trim_start(line) == t);
    assert forall|j: int| 0 <= j < d.len() implies nonspaces()(#[trigger] t[j]) by {
        assert(t[j] == d[j]);
        assert(is_digit(d[j]));
    }
    assert(t[d.len() as int] == ' ');
    lemma_span_is(t, nonspaces(), d.len());
    assert(t.take(d.len() as int) =~= d);
    let tail = t.skip(d.len() as int + 1);
    assert(tail =~= b + program + seq![]);
    law_trim_takes_off_what_is_around(b, program, seq![]);
}

/// A process belongs to the first app whose bundle holds its program.
pub proof fn law_programs_of_apps(apps: Seq<AppView>, i: int, comm: Seq<char>)
    requires
        0 <= i < apps.len(),
        apps[i].owner.path is Some,
        path_text(apps[i].owner.path->0).is_prefix_of(comm),
        forall|j: int|
            0 <= j < i ==> (#[trigger] apps[j]).owner.path is None || !path_text(
                apps[j].owner.path->0,
            ).is_prefix_of(comm),
    ensures
        program_owner(apps, comm) == Some(apps[i].owner.key),
    decreases i,
{
    let t = path_text(apps[0].owner.path->0);
    if i == 0 {
        assert(comm.take(t.len() as int) =~= t);
    } else {
        if apps[0].owner.path is Some && starts(comm, t) {
            assert(comm.subrange(0, t.len() as int) =~= comm.take(t.len() as int));
        }
        let rest = apps.skip(1);
        assert forall|j: int| 0 <= j < i - 1 implies (#[trigger] rest[j]).owner.path is None
            || !path_text(rest[j].owner.path->0).is_prefix_of(comm) by {
            assert(rest[j] == apps[j + 1]);
        }
        law_programs_of_apps(rest, i - 1, comm);
    }
}

/// Each name in an `lsof` block is open in the block's process.
pub proof fn law_open_paths_of_a_block(
    l: Seq<Seq<char>>,
    was: Option<u32>,
    pid: u32,
    paths: Seq<Seq<char>>,
)
    ensures
        open_rows(
            l + seq![seq!['p'] + decimal(pid as nat)] + Seq::new(
                paths.len(),
                |i: int| seq!['n'] + paths[i],
            ),
            was,
        ) == open_rows(l, was) + Seq::new(paths.len(), |i: int| (pid, path_of(paths[i]))),
    decreases l.len(),
{
    let names = Seq::new(paths.len(), |i: int| seq!['n'] + paths[i]);
    let rows = Seq::new(paths.len(), |i: int| (pid, path_of(paths[i])));
    let head = seq!['p'] + decimal(pid as nat);
    let all = l + seq![head] + names;
    if l.len() == 0 {
        let d = decimal(pid as nat);
        lemma_decimal(pid as nat);
        law_numbers_read_back(pid as nat);
        assert(all[0] == head);
        assert(all.skip(1) =~= names);
        assert(head.skip(1) =~= d);
        assert(is_digit(d[0]) && is_digit(d[d.len() - 1]));
        lemma_trim_tight(d);
        assert(pid_of(trim(head.skip(1))) == Some(pid));
        lemma_open_names(pid, paths);
        assert(open_rows(l, was) + rows =~= rows);
    } else {
        let line = l[0];
        assert(all[0] == line);
        assert(all.skip(1) =~= l.skip(1) + seq![head] + names);
        let next = if line.len() > 0 && line[0] == 'p' {
            pid_of(trim(line.skip(1)))
        } else {
            was
        };
        law_open_paths_of_a_block(l.skip(1), next, pid, paths);
        assert(open_rows(all, was) =~= open_rows(l, was) + rows);
    }
}

proof fn lemma_open_names(pid: u32, paths: Seq<Seq<char>>)
    ensures
        open_rows(Seq::new(paths.len(), |i: int| seq!['n'] + paths[i]), Some(pid)) == Seq::new(
            paths.len(),
            |i: int| (pid, path_of(paths[i])),
        ),
    decreases paths.len(),
{
    let names = Seq::new(paths.len(), |i: int| seq!['n'] + paths[i]);
    let rows = Seq::new(paths.len(), |i: int| (pid, path_of(paths[i])));
    if paths.len() > 0 {
        let rest = paths.skip(1);
        lemma_open_names(pid, rest);
        assert(names[0] == seq!['n'] + paths[0]);
        assert(names[0][0] == 'n');
        assert(names[0].skip(1) =~= paths[0]);
        assert(names.skip(1) =~= Seq::new(rest.len(), |i: int| seq!['n'] + rest[i]));
        assert(rows =~= seq![(pid, path_of(paths[0]))] + Seq::new(
            rest.len(),
            |i: int| (pid, path_of(rest[i])),
        ));
    } else {
        assert(rows =~= seq![]);
    }
}

/// A tool claims the directory that it is installed in, and every store that it shares.
pub proof fn law_tools_claim_what_they_are(owners: OwnersView, home: Seq<Seq<char>>, i: int, k: int)
    requires
        0 <= i < owners.tools.len(),
    ensures
        ({
            let r = own_claims(home, owners);
            let o = owners.tools[i].owner;
            &&& o.path is Some ==> exists|j: int|
                0 <= j < r.len() && (#[trigger] r[j]).path == o.path->0 && r[j].owner == o.key
                    && r[j].kind == EntryKind::AppBundle && r[j].tier == EvidenceTier::Exact
            &&& 0 <= k < owners.tools[i].extra_paths.len() ==> exists|j: int|
                0 <= j < r.len() && (#[trigger] r[j]).path == owners.tools[i].extra_paths[k]
                    && r[j].owner == o.key && r[j].kind == EntryKind::AppBundle && r[j].tier
                    == EvidenceTier::Exact
        }),
{
    let r = own_claims(home, owners);
    let t = owners.tools[i];
    let a = owners.apps.filter_map(crate::attribution::apps::linkers::bundle_claim());
    let b = owners.formulae.filter_map(crate::attribution::apps::linkers::cellar_claim());
    let c = tools_claims(owners.tools);
    let own = tool_claims(t);
    if t.owner.path is Some {
        let j = lemma_tools(owners.tools, i, 0);
        assert(r[a.len() + b.len() + j] == c[j]);
    }
    if 0 <= k < t.extra_paths.len() {
        let n = own.len() - t.extra_paths.len() + k;
        let j = lemma_tools(owners.tools, i, n);
        assert(own[n].path == t.extra_paths[k]);
        assert(r[a.len() + b.len() + j] == c[j]);
    }
}

proof fn lemma_tools(
    tools: Seq<crate::attribution::apps::owners::ToolView>,
    i: int,
    k: int,
) -> (j: int)
    requires
        0 <= i < tools.len(),
        0 <= k < tool_claims(tools[i]).len(),
    ensures
        0 <= j < tools_claims(tools).len(),
        tools_claims(tools)[j] == tool_claims(tools[i])[k],
    decreases tools.len(),
{
    let f = tools.drop_last();
    if i == tools.len() - 1 {
        tools_claims(f).len() + k
    } else {
        assert(f[i] == tools[i]);
        lemma_tools(f, i, k)
    }
}

/// Homebrew claims its cache, its logs, and the directories of its prefix.
pub proof fn law_homebrew_claims_its_prefix(
    owners: OwnersView,
    home: Seq<Seq<char>>,
    h: OwnerView,
    prefix: Seq<Seq<char>>,
    name: Seq<char>,
)
    requires
        owners.homebrew == Some(h),
        h.path == Some(prefix),
        name == "bin"@ || name == "lib"@ || name == "share"@ || name == "opt"@ || name == "var"@
            || name == "etc"@ || name == "Library"@ || name == "Frameworks"@ || name == "include"@
            || name == "sbin"@ || name == "Homebrew"@,
    ensures
        ({
            let r = own_claims(home, owners);
            &&& exists|j: int|
                0 <= j < r.len() && (#[trigger] r[j]).path == child(prefix, name) && r[j].owner
                    == h.key && r[j].tier == EvidenceTier::Exact
            &&& exists|j: int|
                0 <= j < r.len() && (#[trigger] r[j]).path == child(
                    home,
                    "Library/Caches/Homebrew"@,
                ) && r[j].owner == h.key && r[j].kind == EntryKind::Cache
            &&& exists|j: int|
                0 <= j < r.len() && (#[trigger] r[j]).path == child(home, "Library/Logs/Homebrew"@)
                    && r[j].owner == h.key && r[j].kind == EntryKind::Logs
        }),
{
    let r = own_claims(home, owners);
    let b = homebrew_claims(home, h);
    let base = r.len() - b.len();
    let d = prefix_dirs();
    let i: int = if name == "bin"@ {
        0
    } else if name == "lib"@ {
        1
    } else if name == "share"@ {
        2
    } else if name == "opt"@ {
        3
    } else if name == "var"@ {
        4
    } else if name == "etc"@ {
        5
    } else if name == "Library"@ {
        6
    } else if name == "Frameworks"@ {
        7
    } else if name == "include"@ {
        8
    } else if name == "sbin"@ {
        9
    } else {
        10
    };
    assert(d[i] == name);
    assert(b[2 + i].path == child(prefix, d[i]));
    assert(r[base + (2 + i)] == b[2 + i]);
    assert(r[base + 0] == b[0]);
    assert(r[base + 1] == b[1]);
}

/// The finding on what ecosystems have in common, and the one on what nobody owns, are as large as their
/// entries together.
pub proof fn law_buckets_add_up(es: Seq<EntryView>)
    ensures
        entry_total(es) == total(es, |e: EntryView| e.bytes as nat),
    decreases es.len(),
{
    if es.len() > 0 {
        law_buckets_add_up(es.drop_last());
    }
}

/// The finding on coverage says how large the disk is and how much of it is attributed.
pub proof fn law_coverage_says_what_is_attributed(set: SetView)
    ensures
        unsigned_field(coverage_meta(set), "attributed_total"@) == Some(set.attributed_total),
        unsigned_field(coverage_meta(set), "disk_total"@) == Some(set.disk_total),
{
    reveal_strlit("attributed_total");
    reveal_strlit("disk_total");
    assert("attributed_total"@.len() == 16);
    assert("disk_total"@.len() == 10);
    let e = coverage_meta(set)->Table_0;
    assert(e[0].0 == "attributed_total"@);
    assert(e[1].0 == "disk_total"@);
    assert(e.skip(1)[0] == e[1]);
    reveal_with_fuel(entry_of, 3);
}

/// Projects are owners under their roots' spelling, with their names and roots.
pub proof fn law_projects_are_owners(ps: Seq<ProjectView>, i: int)
    requires
        0 <= i < ps.len(),
    ensures
        project_owners(ps).len() == ps.len(),
        project_owners(ps)[i].key == path_text(ps[i].root),
        project_owners(ps)[i].name == ps[i].name,
        project_owners(ps)[i].path == Some(ps[i].root),
        project_owners(ps)[i].kind == OwnerKind::Project,
{
}

/// The sections, and the axes, are told apart by what they are called; an axis is known by its name.
pub proof fn law_names_tell_apart(a: ScannerId, b: ScannerId, x: Axis)
    ensures
        scanner_slug(a) == scanner_slug(b) ==> a == b,
        Axis::named(x.spec_slug()) == Some(x),
{
    reveal_strlit("system");
    reveal_strlit("apps");
    reveal_strlit("brew");
    reveal_strlit("tools");
    reveal_strlit("fs");
    reveal_strlit("projects");
    reveal_strlit("app_storage");
    reveal_strlit("launchd");
    reveal_strlit("shell_env");
    reveal_strlit("runtimes");
    reveal_strlit("docker");
    reveal_strlit("ports");
    reveal_strlit("git");
    reveal_strlit("simulator");
    reveal_strlit("ios");
    reveal_strlit("ssh_keys");
    reveal_strlit("time_machine");
    lemma_slug(a);
    lemma_slug(b);
    let s = x.spec_slug();
    assert(s[0] == 'p' || s[0] == 'a');
    lemma_trim_tight(s);
    assert(lowered(s) =~= s);
    reveal_strlit("project");
    assert("projects"@.len() == 8 && "project"@.len() == 7 && "apps"@.len() == 4);
    assert(trim(s) == s);
}

proof fn lemma_slug(a: ScannerId)
    ensures
        ({
            let s = scanner_slug(a);
            &&& a is System ==> s.len() == 6 && s[0] == 's'
            &&& a is Apps ==> s.len() == 4 && s[0] == 'a'
            &&& a is Brew ==> s.len() == 4 && s[0] == 'b'
            &&& a is Tools ==> s.len() == 5 && s[0] == 't'
            &&& a is Fs ==> s.len() == 2
            &&& a is Projects ==> s.len() == 8 && s[0] == 'p'
            &&& a is AppStorage ==> s.len() == 11
            &&& a is Launchd ==> s.len() == 7
            &&& a is ShellEnv ==> s.len() == 9 && s[1] == 'h'
            &&& a is Runtimes ==> s.len() == 8 && s[0] == 'r'
            &&& a is Docker ==> s.len() == 6 && s[0] == 'd'
            &&& a is Ports ==> s.len() == 5 && s[0] == 'p'
            &&& a is Git ==> s.len() == 3 && s[0] == 'g'
            &&& a is Simulator ==> s.len() == 9 && s[1] == 'i'
            &&& a is Ios ==> s.len() == 3 && s[0] == 'i'
            &&& a is SshKeys ==> s.len() == 8 && s[0] == 's'
            &&& a is TimeMachine ==> s.len() == 12
        }),
{
    reveal_strlit("system");
    reveal_strlit("apps");
    reveal_strlit("brew");
    reveal_strlit("tools");
    reveal_strlit("fs");
    reveal_strlit("projects");
    reveal_strlit("app_storage");
    reveal_strlit("launchd");
    reveal_strlit("shell_env");
    reveal_strlit("runtimes");
    reveal_strlit("docker");
    reveal_strlit("ports");
    reveal_strlit("git");
    reveal_strlit("simulator");
    reveal_strlit("ios");
    reveal_strlit("ssh_keys");
    reveal_strlit("time_machine");
}

} // verus!
