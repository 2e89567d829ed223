//! The live processes of a project, from a list of working directories alone.

use vstd::prelude::*;
use vstd::slice::slice_subrange;

use crate::attribution::lsof::{one_byte_tags, pid_in};
use crate::attribution::model::{Claim, ClaimView, Proc, ProcView, ResolveEnv};
use crate::attribution::paths::{canonical, tree_path};
use crate::attribution::projects::{in_project, under_project, Project, ProjectView};
use crate::fspath::{path_of, FilePath};
use crate::scan::ScannerId;
use crate::text::{chars_of, lines, lines_of, parse_unsigned, string_of};

use super::joins::{classify, insert_port, listening_ports_by_pid, port_of, proc_kind};

verus! {

/// A process and its working directory.
#[derive(Clone, Debug, PartialEq, Eq)]
pub struct ProcRow {
    pub pid: u32,
    pub command: String,
    pub cwd: FilePath,
}

/// A process and its working directory, as a value.
#[verifier::ext_equal]
pub struct ProcRowView {
    pub pid: u32,
    pub command: Seq<char>,
    pub cwd: Seq<Seq<char>>,
}

impl View for ProcRow {
    type V = ProcRowView;

    open spec fn view(&self) -> ProcRowView {
        ProcRowView { pid: self.pid, command: self.command@, cwd: self.cwd@ }
    }
}

impl DeepView for ProcRow {
    type V = ProcRowView;

    open spec fn deep_view(&self) -> ProcRowView {
        self@
    }
}

/// The processes in the lines, from a state on. A line begins with a letter: `p` opens the block of
/// a process, `c` names its program and `n` its working directory.
pub open spec fn proc_rows(l: Seq<Seq<char>>, pid: Option<u32>, command: Option<Seq<char>>) -> Seq<
    ProcRowView,
>
    decreases l.len(),
{
    if l.len() == 0 {
        seq![]
    } else if l[0].len() == 0 {
        proc_rows(l.skip(1), pid, command)
    } else {
        let rest = l[0].skip(1);
        if l[0][0] == 'p' {
            proc_rows(l.skip(1), pid_in(rest), None)
        } else if l[0][0] == 'c' {
            proc_rows(l.skip(1), pid, Some(rest))
        } else if l[0][0] == 'n' && pid is Some && command is Some {
            seq![ProcRowView { pid: pid->0, command: command->0, cwd: path_of(rest) }] + proc_rows(
                l.skip(1),
                pid,
                command,
            )
        } else {
            proc_rows(l.skip(1), pid, command)
        }
    }
}

/// The processes that `lsof -F pcn` lists, restricted to working directories.
pub fn parse_lsof_pcn(output: &str) -> (r: Vec<ProcRow>)
    requires
        one_byte_tags(output@),
    ensures
        r.deep_view() == proc_rows(lines(output@), None, None),
{
    let l = lines_of(output);
    let ghost all = lines(output@);
    let ghost want = proc_rows(all, None, None);
    let mut out: Vec<ProcRow> = Vec::new();
    let mut pid: Option<u32> = None;
    let mut command: Option<String> = None;
    let mut i: usize = 0;
    proof {
        assert(all.skip(0) =~= all);
        assert(out.deep_view() + want =~= want);
    }
    while i < l.len()
        invariant
            i <= l.len(),
            all == l.deep_view(),
            out.deep_view() + proc_rows(all.skip(i as int), pid, command.deep_view()) == want,
        decreases l.len() - i,
    {
        let ghost was = out.deep_view();
        let ghost now = all.skip(i as int);
        proof {
            assert(now[0] == l@[i as int]@);
            assert(now.skip(1) =~= all.skip(i + 1));
        }
        let c = chars_of(l[i].as_str());
        if c.len() > 0 {
            let tail = slice_subrange(c.as_slice(), 1, c.len());
            assert(tail@ =~= now[0].skip(1));
            let tag = c[0];
            if tag == 'p' {
                pid = match parse_unsigned(tail, u32::MAX as u64) {
                    Some(n) => Some(n as u32),
                    None => None,
                };
                command = None;
            } else if tag == 'c' {
                command = Some(string_of(tail));
            } else if tag == 'n' {
                if let Some(p) = pid {
                    if let Some(name) = &command {
                        let cwd = FilePath::from_text(string_of(tail).as_str());
                        let row = ProcRow { pid: p, command: name.clone(), cwd };
                        out.push(row);
                        proof {
                            assert(out.deep_view() =~= was.push(row@));
                            let rest = proc_rows(now.skip(1), pid, command.deep_view());
                            assert(out.deep_view() + rest =~= was + (seq![row@] + rest));
                        }
                    }
                }
            }
        }
        i = i + 1;
    }
    assert(out.deep_view() + proc_rows(all.skip(i as int), pid, command.deep_view())
        =~= out.deep_view());
    out
}

/// A process is nothing on the disk: it claims nothing.
pub fn resolve(project: &Project, env: &ResolveEnv) -> (r: Vec<Claim>)
    ensures
        r.deep_view() == Seq::<ClaimView>::empty(),
{
    let r: Vec<Claim> = Vec::new();
    assert(r.deep_view() =~= seq![]);
    r
}

/// Whether one of the processes has this number.
pub open spec fn has_pid(procs: Seq<ProcView>, pid: u32) -> bool {
    exists|i: int| 0 <= i < procs.len() && (#[trigger] procs[i]).pid == pid
}

/// The processes among the rows that work in the project, in the order of the rows, each once.
pub open spec fn working(rows: Seq<ProcRowView>, p: ProjectView, ports: Seq<(u32, u16)>) -> Seq<
    ProcView,
>
    decreases rows.len(),
{
    if rows.len() == 0 {
        seq![]
    } else {
        let before = working(rows.drop_last(), p, ports);
        let r = rows.last();
        if in_project(p, canonical(r.cwd)) && !has_pid(before, r.pid) {
            before.push(
                ProcView {
                    pid: r.pid,
                    name: r.command,
                    kind: proc_kind(r.command, r.pid, ports),
                    cwd: r.cwd,
                },
            )
        } else {
            before
        }
    }
}

/// Whether these are the ports on which the processes listen, each once, in their order.
pub open spec fn are_ports_of(r: Seq<u16>, procs: Seq<ProcView>, ports: Seq<(u32, u16)>) -> bool {
    &&& forall|i: int, j: int| 0 <= i < j < r.len() ==> r[i] < r[j]
    &&& forall|x: u16|
        r.contains(x) <==> exists|i: int|
            0 <= i < ports.len() && (#[trigger] ports[i]).1 == x && has_pid(procs, ports[i].0)
}

fn holds_pid(procs: &Vec<Proc>, pid: u32) -> (r: bool)
    ensures
        r == has_pid(procs.deep_view(), pid),
{
    let ghost all = procs.deep_view();
    let mut i: usize = 0;
    while i < procs.len()
        invariant
            i <= procs.len(),
            all == procs.deep_view(),
            forall|j: int| 0 <= j < i ==> (#[trigger] all[j]).pid != pid,
        decreases procs.len() - i,
    {
        assert(all[i as int] == procs@[i as int]@);
        if procs[i].pid == pid {
            return true;
        }
        i = i + 1;
    }
    false
}

fn ports_of(procs: &Vec<Proc>, listening: &Vec<(u32, u16)>) -> (r: Vec<u16>)
    ensures
        are_ports_of(r@, procs.deep_view(), listening@),
{
    let ghost ps = procs.deep_view();
    let mut out: Vec<u16> = Vec::new();
    let mut i: usize = 0;
    while i < listening.len()
        invariant
            i <= listening.len(),
            ps == procs.deep_view(),
            forall|i: int, j: int| 0 <= i < j < out@.len() ==> out@[i] < out@[j],
            forall|x: u16|
                #[trigger] out@.contains(x) <==> exists|k: int|
                    0 <= k < i && (#[trigger] listening@[k]).1 == x && has_pid(
                        ps,
                        listening@[k].0,
                    ),
        decreases listening.len() - i,
    {
        let ghost was = out@;
        let (pid, port) = listening[i];
        let ghost w = has_pid(ps, pid);
        if holds_pid(procs, pid) {
            insert_port(&mut out, port);
        }
        assert forall|x: u16| #[trigger] out@.contains(x) <==> exists|k: int|
            0 <= k < i + 1 && (#[trigger] listening@[k]).1 == x && has_pid(
                ps,
                listening@[k].0,
            ) by {
            if was.contains(x) {
                let k = choose|k: int|
                    0 <= k < i && (#[trigger] listening@[k]).1 == x && has_pid(
                        ps,
                        listening@[k].0,
                    );
                assert(listening@[k].1 == x);
            }
            if x == port && w {
                assert(listening@[i as int].1 == x);
            }
            if exists|k: int|
                0 <= k < i + 1 && (#[trigger] listening@[k]).1 == x && has_pid(
                    ps,
                    listening@[k].0,
                ) {
                let k = choose|k: int|
                    0 <= k < i + 1 && (#[trigger] listening@[k]).1 == x && has_pid(
                        ps,
                        listening@[k].0,
                    );
                if k < i {
                    assert(was.contains(x));
                }
            }
        }
        i = i + 1;
    }
    out
}

/// The processes among the rows that work in the project, in the order of the rows, and the ports
/// on which they listen.
pub fn processes_for(project: &Project, rows: &Vec<ProcRow>, env: &ResolveEnv) -> (r: (
    Vec<Proc>,
    Vec<u16>,
))
    ensures
        r.0.deep_view() == working(
            rows.deep_view(),
            project@,
            env@.findings(ScannerId::Ports).filter_map(port_of()),
        ),
        are_ports_of(
            r.1@,
            r.0.deep_view(),
            env@.findings(ScannerId::Ports).filter_map(port_of()),
        ),
{
    let listening = listening_ports_by_pid(env);
    let ghost all = rows.deep_view();
    let mut procs: Vec<Proc> = Vec::new();
    let mut i: usize = 0;
    assert(procs.deep_view() =~= working(all.take(0), project@, listening@));
    while i < rows.len()
        invariant
            i <= rows.len(),
            all == rows.deep_view(),
            procs.deep_view() == working(all.take(i as int), project@, listening@),
        decreases rows.len() - i,
    {
        let row = &rows[i];
        let ghost was = procs.deep_view();
        proof {
            assert(all.take(i + 1).drop_last() =~= all.take(i as int));
            assert(all.take(i + 1).last() == row@);
        }
        if under_project(&tree_path(&row.cwd), project) && !holds_pid(&procs, row.pid) {
            let p = Proc {
                pid: row.pid,
                name: row.command.clone(),
                kind: classify(row.command.as_str(), row.pid, &listening),
                cwd: row.cwd.copy(),
            };
            procs.push(p);
            assert(procs.deep_view() =~= was.push(p@));
        }
        i = i + 1;
    }
    assert(all.take(i as int) =~= all);
    let ports = ports_of(&procs, &listening);
    (procs, ports)
}

} // verus!
