//! Which files the running processes have open, as `lsof -F pcfn` lists them.

use std::collections::HashMap;

use vstd::prelude::*;
use vstd::slice::slice_subrange;

use crate::fspath::{path_of, under, FilePath};
use crate::text::{chars_of, lines, lines_of, parse_unsigned, same, string_of, unsigned};

verus! {

broadcast use vstd::std_specs::hash::group_hash_axioms;

/// A file that a process has open.
#[derive(Clone, Debug, PartialEq, Eq)]
pub struct OpenFile {
    pub pid: u32,
    pub command: String,
    /// The descriptor: `cwd` for the working directory, a number for a file.
    pub fd: String,
    pub path: FilePath,
}

/// A file that a process has open, as a value.
#[verifier::ext_equal]
pub struct OpenFileView {
    pub pid: u32,
    pub command: Seq<char>,
    pub fd: Seq<char>,
    pub path: Seq<Seq<char>>,
}

impl View for OpenFile {
    type V = OpenFileView;

    open spec fn view(&self) -> OpenFileView {
        OpenFileView {
            pid: self.pid,
            command: self.command@,
            fd: self.fd@,
            path: self.path@,
        }
    }
}

impl DeepView for OpenFile {
    type V = OpenFileView;

    open spec fn deep_view(&self) -> OpenFileView {
        self@
    }
}

/// What the lines so far have said of the process whose block is open.
#[verifier::ext_equal]
pub struct BlockState {
    pub pid: Option<u32>,
    pub command: Option<Seq<char>>,
    pub fd: Option<Seq<char>>,
}

/// No block is open.
pub open spec fn no_block() -> BlockState {
    BlockState { pid: None, command: None, fd: None }
}

/// The process number that a text spells.
pub open spec fn pid_in(s: Seq<char>) -> Option<u32> {
    match unsigned(s) {
        Some(n) => if n <= u32::MAX {
            Some(n as u32)
        } else {
            None
        },
        None => None,
    }
}

/// The files in the lines, from a state on. A line begins with a letter: `p` opens the block of a
/// process, `c` names its program, `f` a descriptor and `n` the file behind it.
pub open spec fn open_files(l: Seq<Seq<char>>, s: BlockState) -> Seq<OpenFileView>
    decreases l.len(),
{
    if l.len() == 0 {
        seq![]
    } else if l[0].len() == 0 {
        open_files(l.skip(1), s)
    } else {
        let rest = l[0].skip(1);
        if l[0][0] == 'p' {
            open_files(l.skip(1), (BlockState { pid: pid_in(rest), command: None, fd: None }))
        } else if l[0][0] == 'c' {
            open_files(l.skip(1), (BlockState { command: Some(rest), ..s }))
        } else if l[0][0] == 'f' {
            open_files(l.skip(1), (BlockState { fd: Some(rest), ..s }))
        } else if l[0][0] == 'n' && s.pid is Some && s.command is Some && s.fd is Some {
            seq![
                OpenFileView {
                    pid: s.pid->0,
                    command: s.command->0,
                    fd: s.fd->0,
                    path: path_of(rest),
                },
            ] + open_files(l.skip(1), s)
        } else {
            open_files(l.skip(1), s)
        }
    }
}

/// Whether every line begins with a character of one byte, as all that `lsof` writes do.
pub open spec fn one_byte_tags(output: Seq<char>) -> bool {
    forall|i: int|
        0 <= i < lines(output).len() && (#[trigger] lines(output)[i]).len() > 0 ==> lines(
            output,
        )[i][0] < '\u{80}'
}

fn copy_opt(s: &Option<String>) -> (r: Option<String>)
    ensures
        r.deep_view() == s.deep_view(),
{
    match s {
        Some(x) => Some(x.clone()),
        None => None,
    }
}

/// The files that `lsof -F pcfn` lists. A file that no process number, program and descriptor stand
/// before is left out.
pub fn parse(output: &str) -> (r: Vec<OpenFile>)
    requires
        one_byte_tags(output@),
    ensures
        r.deep_view() == open_files(lines(output@), no_block()),
{
    let l = lines_of(output);
    let ghost all = lines(output@);
    let ghost want = open_files(all, no_block());
    let mut out: Vec<OpenFile> = Vec::new();
    let mut pid: Option<u32> = None;
    let mut command: Option<String> = None;
    let mut fd: Option<String> = None;
    let mut i: usize = 0;
    proof {
        assert(all.skip(0) =~= all);
        assert(out.deep_view() + want =~= want);
    }
    while i < l.len()
        invariant
            i <= l.len(),
            all == l.deep_view(),
            out.deep_view() + open_files(
                all.skip(i as int),
                (BlockState { pid, command: command.deep_view(), fd: fd.deep_view() }),
            ) == want,
        decreases l.len() - i,
    {
        let ghost was = out.deep_view();
        let ghost now = all.skip(i as int);
        let ghost s = BlockState { pid, command: command.deep_view(), fd: fd.deep_view() };
        proof {
            assert(now[0] == l@[i as int]@);
            assert(now.skip(1) =~= all.skip(i + 1));
        }
        let c = chars_of(l[i].as_str());
        if c.len() > 0 {
            let tail = slice_subrange(c.as_slice(), 1, c.len());
            assert(tail@ =~= now[0].skip(1));
            let tag = c[0];
            if tag == 'p' {
                pid = match parse_unsigned(tail, u32::MAX as u64) {
                    Some(n) => Some(n as u32),
                    None => None,
                };
                command = None;
                fd = None;
            } else if tag == 'c' {
                command = Some(string_of(tail));
            } else if tag == 'f' {
                fd = Some(string_of(tail));
            } else if tag == 'n' {
                match (pid, copy_opt(&command), copy_opt(&fd)) {
                    (Some(p), Some(c), Some(f)) => {
                        let path = FilePath::from_text(string_of(tail).as_str());
                        let file = OpenFile { pid: p, command: c, fd: f, path };
                        out.push(file);
                        proof {
                            assert(out.deep_view() =~= was.push(file@));
                            let rest = open_files(now.skip(1), s);
                            assert(out.deep_view() + rest =~= was + (seq![file@] + rest));
                        }
                    },
                    _ => {},
                }
            }
        }
        i = i + 1;
    }
    assert(out.deep_view() + open_files(
        all.skip(i as int),
        (BlockState { pid, command: command.deep_view(), fd: fd.deep_view() }),
    ) =~= out.deep_view());
    out
}

/// The working directory of a process: the last that is listed.
pub open spec fn cwd_of(files: Seq<OpenFileView>, pid: u32) -> Option<Seq<Seq<char>>>
    decreases files.len(),
{
    if files.len() == 0 {
        None
    } else if files.last().pid == pid && files.last().fd == "cwd"@ {
        Some(files.last().path)
    } else {
        cwd_of(files.drop_last(), pid)
    }
}

/// The working directory of every process that has one, by its number.
pub fn cwd_by_pid(files: &Vec<OpenFile>) -> (r: HashMap<u32, FilePath>)
    ensures
        forall|pid: u32| #[trigger]
            r@.contains_key(pid) <==> cwd_of(files.deep_view(), pid) is Some,
        forall|pid: u32| #[trigger]
            r@.contains_key(pid) ==> Some(r@[pid]@) == cwd_of(files.deep_view(), pid),
{
    let ghost all = files.deep_view();
    let mut out: HashMap<u32, FilePath> = HashMap::new();
    let mut i: usize = 0;
    while i < files.len()
        invariant
            i <= files.len(),
            all == files.deep_view(),
            forall|pid: u32| #[trigger]
                out@.contains_key(pid) <==> cwd_of(all.take(i as int), pid) is Some,
            forall|pid: u32| #[trigger]
                out@.contains_key(pid) ==> Some(out@[pid]@) == cwd_of(all.take(i as int), pid),
        decreases files.len() - i,
    {
        let f = &files[i];
        let ghost was = out@;
        proof {
            assert(all.take(i + 1).drop_last() =~= all.take(i as int));
            assert(all.take(i + 1).last() == f@);
        }
        if same(f.fd.as_str(), "cwd") {
            out.insert(f.pid, f.path.copy());
        }
        assert forall|pid: u32| #[trigger] out@.contains_key(pid) <==> cwd_of(
            all.take(i + 1),
            pid,
        ) is Some by {
            assert(was.contains_key(pid) <==> cwd_of(all.take(i as int), pid) is Some);
        }
        assert forall|pid: u32| #[trigger] out@.contains_key(pid) implies Some(out@[pid]@)
            == cwd_of(all.take(i + 1), pid) by {
            if !(f@.pid == pid && f@.fd == "cwd"@) {
                assert(was.contains_key(pid));
            }
        }
        i = i + 1;
    }
    assert(all.take(i as int) =~= all);
    out
}

/// A file that lies in a directory.
pub open spec fn file_under(prefix: Seq<Seq<char>>) -> spec_fn(OpenFileView) -> bool {
    |f: OpenFileView| under(f.path, prefix)
}

/// The open files that lie in a directory, or are it.
pub fn open_under<'a>(files: &'a Vec<OpenFile>, prefix: &FilePath) -> (r: Vec<&'a OpenFile>)
    ensures
        r.deep_view() == files.deep_view().filter(file_under(prefix@)),
{
    let ghost all = files.deep_view();
    let ghost keep = file_under(prefix@);
    let mut out: Vec<&'a OpenFile> = Vec::new();
    let mut i: usize = 0;
    proof {
        assert(all.take(0) =~= seq![]);
        reveal(Seq::filter);
        assert(out.deep_view() =~= all.take(0).filter(keep));
    }
    while i < files.len()
        invariant
            i <= files.len(),
            all == files.deep_view(),
            keep == file_under(prefix@),
            out.deep_view() == all.take(i as int).filter(keep),
        decreases files.len() - i,
    {
        let ghost was = out.deep_view();
        proof {
            reveal(Seq::filter);
            assert(all.take(i + 1).drop_last() =~= all.take(i as int));
            assert(all.take(i + 1).last() == files@[i as int]@);
        }
        if files[i].path.under(prefix) {
            out.push(&files[i]);
            assert(out.deep_view() =~= was.push(files@[i as int]@));
        }
        assert(out.deep_view() =~= all.take(i + 1).filter(keep));
        i = i + 1;
    }
    assert(all.take(i as int) =~= all);
    out
}

} // verus!
