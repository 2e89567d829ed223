//! What holds of the rows that are shown: whose processes they list, what their findings say, and whose
//! claims the account of an axis rests on.

use vstd::prelude::*;

use crate::attribution::{axis_claims, axis_owners, claims_of_project, row_finding, row_meta};
use crate::attribution::apps::linkers::{linked, Groups};
use crate::attribution::apps::owners::owners_in;
use crate::attribution::lsof::{cwd_of, open_files, pid_in, BlockState, OpenFileView};
use crate::attribution::model::{Axis, EnvView, FootprintView, ProcKind, ProcView};
use crate::attribution::paths::canonical;
use crate::attribution::projects::{in_project, ProjectView};
use crate::attribution::projects::discovery::projects_in;
use crate::attribution::projects::resolvers::{common_claims, project_claims};
use crate::attribution::projects::resolvers::claim_laws::lies_in;
use crate::attribution::projects::resolvers::joins::{
    are_ports, are_processes, process, unlinked_claims, works_in,
};
use crate::disk::DiskView;
use crate::doc::{entry_of, field, unsigned_field, DocView};
use crate::fspath::{path_of, path_text, under};
use crate::seqs::lemma_in_flat;

verus! {

/// Whether the file at `i` tells where a process works: none behind it tells otherwise.
pub open spec fn tells_cwd(files: Seq<OpenFileView>, i: int, pid: u32) -> bool {
    &&& 0 <= i < files.len()
    &&& files[i].pid == pid
    &&& files[i].fd == "cwd"@
    &&& forall|j: int|
        i < j < files.len() ==> !((#[trigger] files[j]).pid == pid && files[j].fd == "cwd"@)
}

/// A process works where the last of its open files that is its working directory lies.
pub proof fn law_where_a_process_works(files: Seq<OpenFileView>, pid: u32)
    ensures
        forall|i: int| #[trigger] tells_cwd(files, i, pid) ==> cwd_of(files, pid) == Some(files[i].path),
        cwd_of(files, pid) is Some ==> exists|i: int| #[trigger] tells_cwd(files, i, pid),
    decreases files.len(),
{
    if files.len() > 0 {
        let f = files.drop_last();
        let z = files.last();
        law_where_a_process_works(f, pid);
        let n = files.len() - 1;
        if z.pid == pid && z.fd == "cwd"@ {
            assert(tells_cwd(files, n, pid));
            assert forall|i: int| #[trigger] tells_cwd(files, i, pid) implies cwd_of(files, pid)
                == Some(files[i].path) by {
                if i < n {
                    assert(files[n].pid == pid);
                }
            }
        } else {
            assert forall|i: int| #[trigger] tells_cwd(files, i, pid) implies cwd_of(files, pid)
                == Some(files[i].path) by {
                assert(f[i] == files[i]);
                assert forall|j: int| i < j < f.len() implies !((#[trigger] f[j]).pid == pid
                    && f[j].fd == "cwd"@) by {
                    assert(f[j] == files[j]);
                }
                assert(tells_cwd(f, i, pid));
            }
            if cwd_of(files, pid) is Some {
                let i = choose|i: int| #[trigger] tells_cwd(f, i, pid);
                assert(f[i] == files[i]);
                assert forall|j: int| i < j < files.len() implies !((#[trigger] files[j]).pid == pid
                    && files[j].fd == "cwd"@) by {
                    if j < n {
                        assert(f[j] == files[j]);
                    }
                }
                assert(tells_cwd(files, i, pid));
            }
        }
    }
}

proof fn lemma_in_project_is(p: ProjectView, at: Seq<Seq<char>>)
    ensures
        in_project(p, at) <==> lies_in(p, at),
{
    lemma_prefix(at, p.root);
    if lies_in(p, at) && !p.root.is_prefix_of(at) {
        let i = choose|i: int|
            0 <= i < p.worktrees.len() && (#[trigger] p.worktrees[i]).is_prefix_of(at);
        lemma_prefix(at, p.worktrees[i]);
    }
    if in_project(p, at) && !under(at, p.root) {
        let i = choose|i: int| 0 <= i < p.worktrees.len() && under(at, #[trigger] p.worktrees[i]);
        lemma_prefix(at, p.worktrees[i]);
    }
}

proof fn lemma_prefix(p: Seq<Seq<char>>, base: Seq<Seq<char>>)
    ensures
        under(p, base) <==> base.is_prefix_of(p),
{
    if base.is_prefix_of(p) {
        assert(p.take(base.len() as int) =~= base);
    }
    if under(p, base) {
        assert(p.subrange(0, base.len() as int) =~= p.take(base.len() as int));
    }
}

/// The processes that a project's row lists are those that work in the project, each once and in the
/// order of their numbers.
pub proof fn law_processes_of_a_row(
    procs: Seq<ProcView>,
    p: ProjectView,
    files: Seq<OpenFileView>,
    ports: Seq<(u32, u16)>,
    pid: u32,
)
    requires
        are_processes(procs, p, files, ports),
    ensures
        (exists|i: int| 0 <= i < procs.len() && (#[trigger] procs[i]).pid == pid) <==> exists|i: int|
            #[trigger] tells_cwd(files, i, pid) && lies_in(p, canonical(files[i].path)),
        forall|i: int, j: int|
            0 <= i < j < procs.len() ==> (#[trigger] procs[i]).pid < (#[trigger] procs[j]).pid,
        forall|i: int|
            0 <= i < procs.len() ==> ((#[trigger] procs[i]).kind == ProcKind::Shell <==> (
            procs[i].name == "zsh"@ || procs[i].name == "bash"@ || procs[i].name == "fish"@
                || procs[i].name == "sh"@ || procs[i].name == "nu"@)),
{
    law_where_a_process_works(files, pid);
    if exists|i: int| 0 <= i < procs.len() && (#[trigger] procs[i]).pid == pid {
        let i = choose|i: int| 0 <= i < procs.len() && (#[trigger] procs[i]).pid == pid;
        let x = procs[i];
        assert(procs.contains(x));
        assert(works_in(p, files, x.pid));
        lemma_in_project_is(p, canonical(cwd_of(files, pid)->0));
        let n = choose|n: int| #[trigger] tells_cwd(files, n, pid);
        assert(tells_cwd(files, n, pid) && lies_in(p, canonical(files[n].path)));
    }
    if exists|i: int| #[trigger] tells_cwd(files, i, pid) && lies_in(p, canonical(files[i].path)) {
        let n = choose|n: int| #[trigger]
            tells_cwd(files, n, pid) && lies_in(p, canonical(files[n].path));
        lemma_in_project_is(p, canonical(files[n].path));
        let x = process(files, ports, pid);
        assert(works_in(p, files, x.pid));
        assert(procs.contains(x));
        let i = choose|i: int| 0 <= i < procs.len() && procs[i] == x;
        assert(procs[i].pid == pid);
    }
    assert forall|i: int| 0 <= i < procs.len() implies ((#[trigger] procs[i]).kind
        == ProcKind::Shell <==> (procs[i].name == "zsh"@ || procs[i].name == "bash"@ || procs[i].name
        == "fish"@ || procs[i].name == "sh"@ || procs[i].name == "nu"@)) by {
        assert(procs.contains(procs[i]));
    }
}

/// The ports that a project's row lists are those on which a process that works in it listens.
pub proof fn law_ports_of_a_row(
    r: Seq<u16>,
    p: ProjectView,
    files: Seq<OpenFileView>,
    ports: Seq<(u32, u16)>,
    x: u16,
)
    requires
        are_ports(r, p, files, ports),
    ensures
        r.contains(x) <==> exists|i: int, n: int|
            0 <= i < ports.len() && (#[trigger] ports[i]).1 == x && #[trigger] tells_cwd(
                files,
                n,
                ports[i].0,
            ) && lies_in(p, canonical(files[n].path)),
{
    if r.contains(x) {
        let i = choose|i: int|
            0 <= i < ports.len() && (#[trigger] ports[i]).1 == x && works_in(p, files, ports[i].0);
        let pid = ports[i].0;
        law_where_a_process_works(files, pid);
        lemma_in_project_is(p, canonical(cwd_of(files, pid)->0));
        let n = choose|n: int| #[trigger] tells_cwd(files, n, pid);
        assert(ports[i].1 == x && tells_cwd(files, n, ports[i].0));
    }
    if exists|i: int, n: int|
        0 <= i < ports.len() && (#[trigger] ports[i]).1 == x && #[trigger] tells_cwd(
            files,
            n,
            ports[i].0,
        ) && lies_in(p, canonical(files[n].path)) {
        let (i, n) = choose|i: int, n: int|
            0 <= i < ports.len() && (#[trigger] ports[i]).1 == x && #[trigger] tells_cwd(
                files,
                n,
                ports[i].0,
            ) && lies_in(p, canonical(files[n].path));
        law_where_a_process_works(files, ports[i].0);
        lemma_in_project_is(p, canonical(files[n].path));
        assert(works_in(p, files, ports[i].0));
        assert(ports[i].1 == x);
    }
}

/// The block of an open file in the listing: the process, its program, the descriptor and the path.
pub open spec fn open_block(pid: Seq<char>, command: Seq<char>, fd: Seq<char>, path: Seq<char>) -> Seq<
    Seq<char>,
> {
    seq![
        seq!['p'] + pid,
        seq!['c'] + command,
        seq!['f'] + fd,
        seq!['n'] + path,
    ]
}

/// A block behind a listing is one open file more; a further descriptor and path behind it are one
/// more of the same process.
#[verifier::rlimit(40)]
pub proof fn law_a_further_open_file(
    l: Seq<Seq<char>>,
    s: BlockState,
    pid: Seq<char>,
    command: Seq<char>,
    fd: Seq<char>,
    path: Seq<char>,
    fd2: Seq<char>,
    path2: Seq<char>,
)
    requires
        pid_in(pid) is Some,
    ensures
        open_files(l + open_block(pid, command, fd, path), s) == open_files(l, s).push(
            OpenFileView { pid: pid_in(pid)->0, command, fd, path: path_of(path) },
        ),
        open_files(
            l + (open_block(pid, command, fd, path) + seq![seq!['f'] + fd2, seq!['n'] + path2]),
            s,
        ) == open_files(l, s).push(
            OpenFileView { pid: pid_in(pid)->0, command, fd, path: path_of(path) },
        ).push(OpenFileView { pid: pid_in(pid)->0, command, fd: fd2, path: path_of(path2) }),
    decreases l.len(),
{
    let b = open_block(pid, command, fd, path);
    let more = b + seq![seq!['f'] + fd2, seq!['n'] + path2];
    let x = OpenFileView { pid: pid_in(pid)->0, command, fd, path: path_of(path) };
    let y = OpenFileView { pid: pid_in(pid)->0, command, fd: fd2, path: path_of(path2) };
    if l.len() == 0 {
        assert(l + b =~= b);
        assert(l + more =~= more);
        assert(b.take(4) =~= b);
        assert(more.take(4) =~= b);
        lemma_block(b, s, pid, command, fd, path);
        lemma_block(more, s, pid, command, fd, path);
        let s3 = BlockState { pid: pid_in(pid), command: Some(command), fd: Some(fd) };
        assert(b.skip(4) =~= seq![]);
        assert(open_files(b.skip(4), s3) =~= seq![]);
        let t = more.skip(4);
        assert(t =~= seq![seq!['f'] + fd2, seq!['n'] + path2]);
        assert((seq!['f'] + fd2).skip(1) =~= fd2);
        assert((seq!['n'] + path2).skip(1) =~= path2);
        let s4 = BlockState { fd: Some(fd2), ..s3 };
        assert(open_files(t, s3) == open_files(t.skip(1), s4));
        assert(t.skip(1)[0] == seq!['n'] + path2);
        assert(t.skip(1).skip(1) =~= seq![]);
        assert(open_files(t.skip(1).skip(1), s4) =~= seq![]);
        assert(open_files(t, s3) =~= seq![y]);
        assert(open_files(b, s) =~= open_files(l, s).push(x));
        assert(open_files(more, s) =~= open_files(l, s).push(x).push(y));
    } else {
        let t = l.skip(1);
        assert((l + b)[0] == l[0] && (l + more)[0] == l[0]);
        assert((l + b).skip(1) =~= t + b);
        assert((l + more).skip(1) =~= t + more);
        let rest = l[0].skip(1);
        if l[0].len() == 0 {
            law_a_further_open_file(t, s, pid, command, fd, path, fd2, path2);
        } else if l[0][0] == 'p' {
            law_a_further_open_file(
                t,
                BlockState { pid: pid_in(rest), command: None, fd: None },
                pid,
                command,
                fd,
                path,
                fd2,
                path2,
            );
        } else if l[0][0] == 'c' {
            law_a_further_open_file(
                t,
                BlockState { command: Some(rest), ..s },
                pid,
                command,
                fd,
                path,
                fd2,
                path2,
            );
        } else if l[0][0] == 'f' {
            law_a_further_open_file(
                t,
                BlockState { fd: Some(rest), ..s },
                pid,
                command,
                fd,
                path,
                fd2,
                path2,
            );
        } else {
            law_a_further_open_file(t, s, pid, command, fd, path, fd2, path2);
            if l[0][0] == 'n' && s.pid is Some && s.command is Some && s.fd is Some {
                let z = OpenFileView {
                    pid: s.pid->0,
                    command: s.command->0,
                    fd: s.fd->0,
                    path: path_of(rest),
                };
                assert(open_files(l + b, s) =~= open_files(l, s).push(x));
                assert(open_files(l + more, s) =~= open_files(l, s).push(x).push(y));
            }
        }
    }
}

proof fn lemma_block(
    b: Seq<Seq<char>>,
    s: BlockState,
    pid: Seq<char>,
    command: Seq<char>,
    fd: Seq<char>,
    path: Seq<char>,
)
    requires
        b.len() >= 4,
        b.take(4) == open_block(pid, command, fd, path),
        pid_in(pid) is Some,
    ensures
        open_files(b, s) == seq![
            OpenFileView { pid: pid_in(pid)->0, command, fd, path: path_of(path) },
        ] + open_files(
            b.skip(4),
            BlockState { pid: pid_in(pid), command: Some(command), fd: Some(fd) },
        ),
{
    let t = b.take(4);
    assert(b[0] == t[0] && b[1] == t[1] && b[2] == t[2] && b[3] == t[3]);
    assert(b[0].skip(1) =~= pid);
    assert(b[1].skip(1) =~= command);
    assert(b[2].skip(1) =~= fd);
    assert(b[3].skip(1) =~= path);
    let s1 = BlockState { pid: pid_in(pid), command: None, fd: None };
    let s2 = BlockState { command: Some(command), ..s1 };
    let s3 = BlockState { fd: Some(fd), ..s2 };
    let b1 = b.skip(1);
    let b2 = b1.skip(1);
    let b3 = b2.skip(1);
    assert(b1[0] == b[1] && b2[0] == b[2] && b3[0] == b[3]);
    assert(open_files(b, s) == open_files(b1, s1));
    assert(open_files(b1, s1) == open_files(b2, s2));
    assert(open_files(b2, s2) == open_files(b3, s3));
    assert(b3.skip(1) =~= b.skip(4));
}

proof fn lemma_entry_at(entries: Seq<(Seq<char>, DocView)>, n: int)
    requires
        0 <= n < entries.len(),
        forall|m: int| 0 <= m < n ==> (#[trigger] entries[m]).0 != entries[n].0,
    ensures
        entry_of(entries, entries[n].0) == Some(entries[n].1),
    decreases entries.len(),
{
    if n > 0 {
        assert(entries[0].0 != entries[n].0);
        let t = entries.skip(1);
        assert(t[n - 1] == entries[n]);
        assert forall|m: int| 0 <= m < n - 1 implies (#[trigger] t[m]).0 != t[n - 1].0 by {
            assert(t[m] == entries[m + 1]);
        }
        lemma_entry_at(t, n - 1);
    }
}

/// The finding of a row says what the row says: its size is what the owner owns, alone and with others,
/// and each of its numbers stands under its name.
pub proof fn law_findings_say_what_rows_say(axis: Axis, fp: FootprintView)
    ensures
        ({
            let f = row_finding(axis, fp);
            &&& fp.exclusive + fp.shared <= u64::MAX ==> f.size_bytes == Some(
                (fp.exclusive + fp.shared) as u64,
            )
            &&& f.path == fp.owner.path
            &&& f.title == fp.owner.name
            &&& unsigned_field(f.meta, "exclusive"@) == Some(fp.exclusive)
            &&& unsigned_field(f.meta, "shared"@) == Some(fp.shared)
            &&& unsigned_field(f.meta, "reach"@) == Some(fp.reach)
            &&& unsigned_field(f.meta, "baseline_share"@) == Some(fp.baseline_share)
            &&& field(f.meta, "clone_note"@) == Some(DocView::Bool(fp.clone_note))
        }),
{
    reveal_strlit("baseline_share");
    reveal_strlit("by_kind");
    reveal_strlit("clone_note");
    reveal_strlit("exclusive");
    reveal_strlit("owner_kind");
    reveal_strlit("ports");
    reveal_strlit("process_count");
    reveal_strlit("reach");
    reveal_strlit("shared");
    let e = row_meta(fp)->Table_0;
    let a = "baseline_share"@;
    let b = "by_kind"@;
    let c = "clone_note"@;
    let d = "exclusive"@;
    let g = "owner_kind"@;
    let h = "ports"@;
    let i = "process_count"@;
    let j = "reach"@;
    let k = "shared"@;
    assert(a[0] == 'b' && b[0] == 'b' && c[0] == 'c' && d[0] == 'e' && g[0] == 'o');
    assert(h[0] == 'p' && i[0] == 'p' && j[0] == 'r' && k[0] == 's');
    assert(a.len() == 14 && b.len() == 7 && h.len() == 5 && i.len() == 13);
    assert(e[0].0 == a && e[1].0 == b && e[2].0 == c && e[3].0 == d && e[4].0 == g);
    assert(e[5].0 == h && e[6].0 == i && e[7].0 == j && e[8].0 == k);
    lemma_entry_at(e, 0);
    lemma_entry_at(e, 2);
    lemma_entry_at(e, 3);
    lemma_entry_at(e, 7);
    lemma_entry_at(e, 8);
}

/// The account of the projects rests on all that each project claims and on the claims that are made
/// once, and its owners are the projects, under their roots.
pub proof fn law_the_account_of_the_projects(
    env: EnvView,
    disk: DiskView,
    groups: Groups,
    observed: Seq<(Seq<char>, Seq<Seq<char>>)>,
    i: int,
)
    requires
        0 <= i < projects_in(env, disk).len(),
    ensures
        ({
            let p = projects_in(env, disk)[i];
            let claims = axis_claims(Axis::Projects, env, disk, groups, observed);
            let owners = axis_owners(Axis::Projects, env, disk, groups, observed);
            &&& forall|j: int|
                0 <= j < project_claims(p, env, disk).len() ==> claims.contains(
                    #[trigger] project_claims(p, env, disk)[j],
                )
            &&& forall|j: int|
                0 <= j < common_claims(projects_in(env, disk), env, disk).len()
                    ==> claims.contains(
                    #[trigger] common_claims(projects_in(env, disk), env, disk)[j],
                )
            &&& forall|j: int|
                0 <= j < unlinked_claims(env).len() ==> claims.contains(
                    #[trigger] unlinked_claims(env)[j],
                )
            &&& owners.len() == projects_in(env, disk).len()
            &&& owners[i].key == path_text(p.root) && owners[i].path == Some(p.root)
                && owners[i].name == p.name
        }),
{
    let ps = projects_in(env, disk);
    let p = ps[i];
    let claims = axis_claims(Axis::Projects, env, disk, groups, observed);
    let f = claims_of_project(env, disk);
    let own = project_claims(p, env, disk);
    assert forall|j: int| 0 <= j < own.len() implies claims.contains(#[trigger] own[j]) by {
        assert(f(ps[i]) == own);
        let k = lemma_in_flat(ps, f, i, j);
        assert(claims[k] == own[j]);
    }
    let common = common_claims(ps, env, disk);
    assert forall|j: int| 0 <= j < common.len() implies claims.contains(#[trigger] common[j]) by {
        assert(claims[claims.len() - common.len() + j] == common[j]);
    }
    let loose = unlinked_claims(env);
    assert forall|j: int| 0 <= j < loose.len() implies claims.contains(#[trigger] loose[j]) by {
        assert(common[common.len() - loose.len() + j] == loose[j]);
        assert(claims[claims.len() - loose.len() + j] == loose[j]);
    }
}

/// The account of the apps rests on the claims of all owners and on the well-known data of the system's
/// apps, and everyone that was found is among its owners.
pub proof fn law_the_account_of_the_apps(
    env: EnvView,
    disk: DiskView,
    groups: Groups,
    observed: Seq<(Seq<char>, Seq<Seq<char>>)>,
)
    ensures
        ({
            let claims = axis_claims(Axis::AppStorage, env, disk, groups, observed);
            let owners = axis_owners(Axis::AppStorage, env, disk, groups, observed);
            let all = linked(
                env.home,
                owners_in(env),
                groups,
                observed,
                crate::attribution::apps::candidates::candidates_in(env, disk),
            );
            &&& forall|j: int| 0 <= j < all.len() ==> claims.contains(#[trigger] all[j])
            &&& forall|j: int|
                0 <= j < owners_in(env).all().len() ==> owners.contains(
                    #[trigger] owners_in(env).all()[j],
                )
        }),
{
    let claims = axis_claims(Axis::AppStorage, env, disk, groups, observed);
    let owners = axis_owners(Axis::AppStorage, env, disk, groups, observed);
    let data = crate::attribution::apps::candidates::apple_data_in(env, disk);
    let all = linked(
        env.home,
        owners_in(env),
        groups,
        observed,
        crate::attribution::apps::candidates::candidates_in(env, disk),
    );
    assert forall|j: int| 0 <= j < all.len() implies claims.contains(#[trigger] all[j]) by {
        assert(claims[j] == all[j]);
    }
    let found = owners_in(env).all();
    lemma_with_apple(found, data);
    assert forall|j: int| 0 <= j < found.len() implies owners.contains(#[trigger] found[j]) by {
        assert(owners[j] == found[j]);
    }
}

proof fn lemma_with_apple(
    owners: Seq<crate::attribution::model::OwnerView>,
    data: Seq<crate::attribution::apps::candidates::AppleDataView>,
)
    ensures
        ({
            let r = crate::attribution::apps::with_apple(owners, data);
            r.len() >= owners.len() && forall|j: int|
                0 <= j < owners.len() ==> r[j] == #[trigger] owners[j]
        }),
    decreases data.len(),
{
    if data.len() > 0 {
        lemma_with_apple(owners, data.drop_last());
    }
}

} // verus!
